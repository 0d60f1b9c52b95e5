//! What is read from what people type: commands, names, addresses.

use vstd::prelude::*;

use crate::builder;
use crate::builder::BuilderView;
use crate::session;
use crate::text;

verus! {

/// The characters are equal, or the same ASCII letter in either case.
pub open spec fn same_letter(a: char, b: char) -> bool {
    ||| a == b
    ||| 'A' <= a <= 'Z' && b as u32 == a as u32 + ('a' as u32 - 'A' as u32)
    ||| 'A' <= b <= 'Z' && a as u32 == b as u32 + ('a' as u32 - 'A' as u32)
}

/// Names are the same if and only if they have the same letters in the same
/// places, in any case; other characters must be equal.
pub proof fn names_are_the_same_in_any_case(a: Seq<char>, b: Seq<char>)
    ensures
        text::same_text(a, b) <==> a.len() == b.len() && forall|i: int|
            0 <= i < a.len() ==> same_letter(#[trigger] a[i], b[i]),
{
    assert forall|x: char, y: char| text::folded(x) == text::folded(y) <==> #[trigger] same_letter(
        x,
        y,
    ) by {
        same_number(x, y);
    }
    if text::same_text(a, b) {
        assert forall|i: int| 0 <= i < a.len() implies same_letter(#[trigger] a[i], b[i]) by {
            assert(text::folded(a[i]) == text::folded(b[i]));
        }
    }
    if a.len() == b.len() && forall|i: int| 0 <= i < a.len() ==> same_letter(#[trigger] a[i], b[i]) {
        assert forall|i: int| 0 <= i < a.len() implies text::folded(#[trigger] a[i])
            == text::folded(b[i]) by {
            assert(same_letter(a[i], b[i]));
        }
    }
}

proof fn same_number(x: char, y: char)
    ensures
        x == y <==> x as u32 == y as u32,
        text::folded(x) == text::folded(y) <==> same_letter(x, y),
{
}

/// The characters of Unicode that are white space.
pub open spec fn spaces() -> Seq<char> {
    seq![
        '\t',
        '\n',
        '\u{b}',
        '\u{c}',
        '\r',
        ' ',
        '\u{85}',
        '\u{a0}',
        '\u{1680}',
        '\u{2000}',
        '\u{2001}',
        '\u{2002}',
        '\u{2003}',
        '\u{2004}',
        '\u{2005}',
        '\u{2006}',
        '\u{2007}',
        '\u{2008}',
        '\u{2009}',
        '\u{200a}',
        '\u{2028}',
        '\u{2029}',
        '\u{202f}',
        '\u{205f}',
        '\u{3000}',
    ]
}

/// These characters are white space, and no others are.
pub proof fn white_space_is_that_of_unicode(c: char)
    ensures
        text::is_space(c) <==> spaces().contains(c),
{
    let s = spaces();
    assert(s.len() == 25);
    if text::is_space(c) {
        let n = c as u32;
        let i: int = if n <= 0xd {
            n - 9
        } else if n == 0x20 {
            5
        } else if n == 0x85 {
            6
        } else if n == 0xa0 {
            7
        } else if n == 0x1680 {
            8
        } else if n <= 0x200a {
            n - 0x2000 + 9
        } else if n == 0x2028 {
            20
        } else if n == 0x2029 {
            21
        } else if n == 0x202f {
            22
        } else if n == 0x205f {
            23
        } else {
            24
        };
        assert(s[i] == c);
    }
}

/// Every character is white space.
pub open spec fn blank(s: Seq<char>) -> bool {
    forall|i: int| 0 <= i < s.len() ==> text::is_space(#[trigger] s[i])
}

proof fn front_trimmed(s: Seq<char>)
    ensures
        ({
            let t = text::trim_front(s);
            &&& t.len() <= s.len()
            &&& s.skip(s.len() - t.len()) == t
            &&& blank(s.take(s.len() - t.len()))
            &&& t.len() > 0 ==> !text::is_space(t[0])
        }),
    decreases s.len(),
{
    if s.len() > 0 && text::is_space(s[0]) {
        let rest = s.skip(1);
        front_trimmed(rest);
        let t = text::trim_front(s);
        let n = s.len() - t.len();
        assert(s.skip(n) =~= rest.skip(n - 1));
        assert forall|i: int| 0 <= i < n implies text::is_space(#[trigger] s.take(n)[i]) by {
            if i > 0 {
                assert(rest.take(n - 1)[i - 1] == s[i]);
            }
        }
    } else {
        assert(s.skip(0) =~= s);
    }
}

proof fn back_trimmed(s: Seq<char>)
    ensures
        ({
            let t = text::trim_back(s);
            &&& t.len() <= s.len()
            &&& s.take(t.len() as int) == t
            &&& blank(s.skip(t.len() as int))
            &&& t.len() > 0 ==> !text::is_space(t.last())
        }),
    decreases s.len(),
{
    if s.len() > 0 && text::is_space(s.last()) {
        let rest = s.drop_last();
        back_trimmed(rest);
        let t = text::trim_back(s);
        let n = t.len() as int;
        assert(s.take(n) =~= rest.take(n));
        assert forall|i: int| 0 <= i < s.len() - n implies text::is_space(
            #[trigger] s.skip(n)[i],
        ) by {
            if n + i < rest.len() {
                assert(rest.skip(n)[i] == s[n + i]);
            }
        }
    } else {
        assert(s.take(s.len() as int) =~= s);
    }
}

/// Trimming takes white space off both ends, all of it, and nothing else.
pub proof fn trimming_takes_the_ends_off(s: Seq<char>)
    ensures
        ({
            let t = text::trimmed(s);
            &&& t.len() > 0 ==> !text::is_space(t[0]) && !text::is_space(t.last())
            &&& exists|front: Seq<char>, back: Seq<char>|
                #![trigger blank(front), blank(back)]
                blank(front) && blank(back) && s == front + t + back
        }),
{
    let a = text::trim_front(s);
    let t = text::trimmed(s);
    front_trimmed(s);
    back_trimmed(a);
    let front = s.take(s.len() - a.len());
    let back = a.skip(t.len() as int);
    assert(s =~= front + t + back) by {
        assert(s =~= front + s.skip(s.len() - a.len()));
        assert(a =~= a.take(t.len() as int) + back);
    }
    assert(blank(front) && blank(back));
    if t.len() > 0 {
        assert(t[0] == a[0]);
    }
}

/// A text without white space at its ends is trimmed already.
pub proof fn trimmed_texts_stay(s: Seq<char>)
    requires
        s.len() > 0 ==> !text::is_space(s[0]) && !text::is_space(s.last()),
    ensures
        text::trimmed(s) == s,
{
}

/// White space behind a text is trimmed off.
pub proof fn spaces_behind_are_trimmed(s: Seq<char>, back: Seq<char>)
    requires
        s.len() > 0,
        !text::is_space(s[0]),
        !text::is_space(s.last()),
        blank(back),
    ensures
        text::trimmed(s + back) == s,
    decreases back.len(),
{
    if back.len() > 0 {
        let less = back.drop_last();
        assert forall|i: int| 0 <= i < less.len() implies text::is_space(#[trigger] less[i]) by {
            assert(less[i] == back[i]);
        }
        spaces_behind_are_trimmed(s, less);
        let all = s + back;
        assert(all[0] == s[0]);
        assert(all.last() == back.last());
        assert(back.last() == back[back.len() - 1]);
        assert(all.drop_last() =~= s + less);
        assert((s + less)[0] == s[0]);
    } else {
        assert(s + back =~= s);
        trimmed_texts_stay(s);
    }
}

/// A text is cut at the first separator: what stands before has none, and the
/// parts and the separator make up the text. A text without one is not cut.
pub proof fn texts_are_cut_at_the_first(s: Seq<char>, c: char)
    ensures
        match text::split_first(s, c) {
            Some((before, after)) => s == before.push(c) + after && !before.contains(c),
            None => !s.contains(c),
        },
    decreases s.len(),
{
    if s.len() > 0 {
        if s[0] == c {
            assert(s =~= Seq::<char>::empty().push(c) + s.skip(1));
        } else {
            texts_are_cut_at_the_first(s.skip(1), c);
            match text::split_first(s.skip(1), c) {
                Some((before, after)) => {
                    let longer = seq![s[0]] + before;
                    assert(s =~= seq![s[0]] + s.skip(1));
                    assert(s =~= longer.push(c) + after);
                    assert(!longer.contains(c)) by {
                        if longer.contains(c) {
                            let i = choose|i: int| 0 <= i < longer.len() && longer[i] == c;
                            assert(before[i - 1] == c);
                        }
                    }
                },
                None => {
                    if s.contains(c) {
                        let i = choose|i: int| 0 <= i < s.len() && s[i] == c;
                        assert(s.skip(1)[i - 1] == c);
                    }
                },
            }
        }
    }
}

/// Whatever stands around a separator is what a text is cut into at the first
/// one, as long as there is none before it.
pub proof fn texts_are_cut_where_they_were_joined(before: Seq<char>, c: char, after: Seq<char>)
    requires
        !before.contains(c),
    ensures
        text::split_first(before.push(c) + after, c) == Some((before, after)),
{
    let s = before.push(c) + after;
    texts_are_cut_at_the_first(s, c);
    assert(s[before.len() as int] == c);
    let (x, y) = text::split_first(s, c)->0;
    assert(x.push(c) + y == s);
    assert(s[x.len() as int] == c) by {
        assert((x.push(c) + y)[x.len() as int] == c);
    }
    if x.len() < before.len() {
        assert(before[x.len() as int] == c);
    } else if x.len() > before.len() {
        assert(x[before.len() as int] == (x.push(c) + y)[before.len() as int]);
        assert(x.contains(c));
    }
    assert(x =~= before) by {
        assert forall|i: int| 0 <= i < before.len() implies x[i] == before[i] by {
            assert((x.push(c) + y)[i] == x[i]);
            assert(s[i] == before[i]);
        }
    }
    assert(y =~= after) by {
        assert forall|i: int| 0 <= i < after.len() implies y[i] == after[i] by {
            assert((x.push(c) + y)[x.len() + 1 + i] == y[i]);
            assert(s[before.len() + 1 + i] == after[i]);
        }
    }
}

/// Whatever stands around a separator is what a text is cut into at the last
/// one, as long as there is none behind it; without a separator it is not cut.
pub proof fn texts_are_cut_at_the_last(before: Seq<char>, c: char, after: Seq<char>)
    requires
        !after.contains(c),
    ensures
        text::split_last(before.push(c) + after, c) == Some((before, after)),
        text::split_last(after, c) is None,
    decreases after.len(),
{
    let s = before.push(c) + after;
    if after.len() == 0 {
        assert(s =~= before.push(c));
        assert(s.drop_last() =~= before);
        assert(after =~= Seq::<char>::empty());
    } else {
        let less = after.drop_last();
        assert(!less.contains(c)) by {
            if less.contains(c) {
                let i = choose|i: int| 0 <= i < less.len() && less[i] == c;
                assert(after[i] == c);
            }
        }
        texts_are_cut_at_the_last(before, c, less);
        assert(after.last() == after[after.len() - 1]);
        assert(after.contains(after.last()));
        assert(s.drop_last() =~= before.push(c) + less);
        assert(s.last() == after.last());
        assert(less.push(after.last()) =~= after);
    }
}

/// The decimal digits of a number.
pub open spec fn decimal(n: nat) -> Seq<char>
    decreases n,
{
    if n < 10 {
        seq![(('0' as u32) + n as u32) as char]
    } else {
        decimal(n / 10).push((('0' as u32) + (n % 10) as u32) as char)
    }
}

proof fn decimal_read(n: nat)
    ensures
        decimal(n).len() > 0,
        text::all_digits(decimal(n)),
        text::digits_value(decimal(n)) == n,
        !decimal(n).contains(':'),
        decimal(n)[0] != '+',
    decreases n,
{
    let last = (('0' as u32) + (n % 10) as u32) as char;
    assert('0' <= last <= '9' && last as u32 - '0' as u32 == n % 10);
    if n < 10 {
        let s = decimal(n);
        assert(n % 10 == n);
        assert(s =~= seq![last]);
        assert(s.drop_last() =~= Seq::<char>::empty());
        assert(text::digits_value(s.drop_last()) == 0);
    } else {
        decimal_read(n / 10);
        let s = decimal(n);
        let most = decimal(n / 10);
        assert(s.drop_last() =~= most);
        assert(s.last() == last);
        assert(text::digits_value(s) == (n / 10) * 10 + n % 10);
        assert forall|i: int| 0 <= i < s.len() implies '0' <= #[trigger] s[i] <= '9' by {
            if i < most.len() {
                assert(s[i] == most[i]);
            }
        }
        assert(s[0] == most[0]);
    }
    let s = decimal(n);
    if s.contains(':') {
        let i = choose|i: int| 0 <= i < s.len() && s[i] == ':';
        assert('0' <= s[i] <= '9');
    }
}

/// A port is read from its decimal digits, if and only if it is one of the
/// 65536; a plus sign before it changes nothing.
pub proof fn ports_are_read(n: nat)
    ensures
        text::port_number(decimal(n)) == (if n <= 65535 {
            Some(n as u16)
        } else {
            None
        }),
        text::port_number(seq!['+'] + decimal(n)) == text::port_number(decimal(n)),
{
    decimal_read(n);
    assert((seq!['+'] + decimal(n)).skip(1) =~= decimal(n));
    assert((seq!['+'] + decimal(n))[0] == '+');
}

/// A text with anything but digits, behind a plus sign or not, is no port, nor
/// is an empty one.
pub proof fn other_texts_are_no_port(s: Seq<char>, i: int)
    requires
        s.len() == 0 || (0 <= i < s.len() && !('0' <= s[i] <= '9') && !(i == 0 && s[0] == '+'))
            || s == seq!['+'],
    ensures
        text::port_number(s) is None,
{
    if s.len() > 0 && s != seq!['+'] {
        let digits = if s[0] == '+' {
            s.skip(1)
        } else {
            s
        };
        let j = if s[0] == '+' {
            i - 1
        } else {
            i
        };
        assert(digits[j] == s[i]);
        assert(!text::all_digits(digits));
    } else if s.len() > 0 {
        assert(s.skip(1) =~= Seq::<char>::empty());
    }
}

/// A target is a host and a port, in decimal digits behind the last colon. The
/// rest of the configuration is left alone.
pub proof fn targets_name_host_and_port(b: BuilderView, host: Seq<char>, port: u16)
    ensures
        builder::targeted(b, host.push(':') + decimal(port as nat)) == (BuilderView {
            target_host: host,
            target_port: port,
            ..b
        }),
{
    decimal_read(port as nat);
    ports_are_read(port as nat);
    texts_are_cut_at_the_last(host, ':', decimal(port as nat));
}

/// A target without a port is a host alone, whole: one without a colon, or one
/// with no port behind its last colon. The port stays as it was.
pub proof fn targets_without_a_port_are_hosts(
    b: BuilderView,
    host: Seq<char>,
    other: Seq<char>,
)
    requires
        !host.contains(':'),
        text::port_number(host) is None,
    ensures
        builder::targeted(b, host) == (BuilderView { target_host: host, ..b }),
        builder::targeted(b, other.push(':') + host) == (BuilderView {
            target_host: other.push(':') + host,
            ..b
        }),
{
    texts_are_cut_at_the_last(other, ':', host);
}

/// With a list, exactly those on it may connect, in any case of their names;
/// with an empty one anybody may.
pub proof fn only_the_listed_may_connect(whitelist: Seq<Seq<char>>, username: Seq<char>)
    ensures
        whitelist.len() == 0 ==> builder::admitted(whitelist, username),
        whitelist.len() > 0 ==> (builder::admitted(whitelist, username) <==> exists|i: int|
            0 <= i < whitelist.len() && (#[trigger] whitelist[i]).len() == username.len()
                && forall|j: int|
                0 <= j < username.len() ==> same_letter(whitelist[i][j], #[trigger] username[j])),
{
    assert forall|i: int| 0 <= i < whitelist.len() implies text::same_text(
        #[trigger] whitelist[i],
        username,
    ) == (whitelist[i].len() == username.len() && forall|j: int|
        0 <= j < username.len() ==> same_letter(whitelist[i][j], #[trigger] username[j])) by {
        let a = whitelist[i];
        names_are_the_same_in_any_case(a, username);
        if text::same_text(a, username) {
            assert forall|j: int| 0 <= j < username.len() implies same_letter(
                a[j],
                #[trigger] username[j],
            ) by {
                assert(same_letter(a[j], username[j]));
            }
        }
        if a.len() == username.len() && forall|j: int|
            0 <= j < username.len() ==> same_letter(a[j], #[trigger] username[j]) {
            assert forall|j: int| 0 <= j < a.len() implies same_letter(
                #[trigger] a[j],
                username[j],
            ) by {
                assert(same_letter(a[j], username[j]));
            }
        }
    }
}

// Game modes.

/// The game modes by name, in the order of their numbers.
pub open spec fn mode_names() -> Seq<Seq<char>> {
    seq!["survival"@, "creative"@, "adventure"@, "spectator"@]
}

proof fn modes_differ(arg: Seq<char>, i: int, j: int)
    requires
        0 <= i < 4,
        0 <= j < 4,
        text::same_text(arg, decimal(i as nat)) || text::same_text(arg, mode_names()[i]),
        text::same_text(arg, decimal(j as nat)) || text::same_text(arg, mode_names()[j]),
    ensures
        i == j,
{
    reveal_strlit("survival");
    reveal_strlit("creative");
    reveal_strlit("adventure");
    reveal_strlit("spectator");
    assert(decimal(i as nat).len() == 1 && decimal(j as nat).len() == 1);
    assert(decimal(i as nat)[0] as u32 == '0' as u32 + i);
    assert(decimal(j as nat)[0] as u32 == '0' as u32 + j);
    let x = if text::same_text(arg, decimal(i as nat)) {
        decimal(i as nat)
    } else {
        mode_names()[i]
    };
    let y = if text::same_text(arg, decimal(j as nat)) {
        decimal(j as nat)
    } else {
        mode_names()[j]
    };
    assert(arg.len() == x.len() && arg.len() == y.len());
    assert(text::folded(arg[0]) == text::folded(x[0]));
    assert(text::folded(arg[0]) == text::folded(y[0]));
    assert(mode_names()[0][0] == 's' && mode_names()[1][0] == 'c');
    assert(mode_names()[2][0] == 'a' && mode_names()[3][0] == 's');
    assert(mode_names()[0].len() == 8 && mode_names()[1].len() == 8);
    assert(mode_names()[2].len() == 9 && mode_names()[3].len() == 9);
}

proof fn mode_texts()
    ensures
        "0"@ == decimal(0),
        "1"@ == decimal(1),
        "2"@ == decimal(2),
        "3"@ == decimal(3),
{
    reveal_strlit("0");
    reveal_strlit("1");
    reveal_strlit("2");
    reveal_strlit("3");
    assert("0"@ =~= decimal(0));
    assert("1"@ =~= decimal(1));
    assert("2"@ =~= decimal(2));
    assert("3"@ =~= decimal(3));
}

/// A text names a game mode if and only if it is the mode's number or its name,
/// in any case: 0 is survival, 1 creative, 2 adventure, 3 spectator. Number and
/// name of a mode mean the same.
pub proof fn modes_go_by_number_and_by_name(arg: Seq<char>, i: u8)
    ensures
        session::named_mode(arg) == Some(i) <==> i < 4 && (text::same_text(arg, decimal(i as nat))
            || text::same_text(arg, mode_names()[i as int])),
{
    mode_texts();
    if session::named_mode(arg) is Some && i < 4 && (text::same_text(arg, decimal(i as nat))
        || text::same_text(arg, mode_names()[i as int])) {
        modes_differ(arg, session::named_mode(arg)->0 as int, i as int);
    }
}

// Commands.

/// A command is its first word; what follows the first space, trimmed, is its
/// argument. Without a space there is none.
pub proof fn a_command_is_its_first_word(verb: Seq<char>, rest: Seq<char>)
    requires
        !verb.contains(' '),
    ensures
        session::command_parts(verb) == (verb, Seq::<char>::empty()),
        session::command_parts(verb.push(' ') + rest) == (verb, text::trimmed(rest)),
{
    texts_are_cut_where_they_were_joined(verb, ' ', rest);
    texts_are_cut_at_the_first(verb, ' ');
    if let Some((before, after)) = text::split_first(verb, ' ') {
        assert((before.push(' ') + after)[before.len() as int] == ' ');
        assert(verb.contains(' '));
    }
}

} // verus!
