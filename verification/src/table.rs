//! An ordered table: the one associative container of this crate.
//!
//! A [`Table`] keeps its entries sorted by key in one `Vec`, so that a lookup
//! is a binary search and a walk visits the keys in ascending order. Its view
//! is a plain `Map`; [`in_order`] says which sequence a walk of a given map
//! produces.

use vstd::prelude::*;
use vstd::string::StrSliceExecFns;

use crate::views;
use crate::views::group_views;

verus! {

broadcast use group_views;

/// How two keys lie to each other.
pub enum Rank {
    Below,
    Same,
    Above,
}

/// A type whose views are strictly and totally ordered.
pub trait Key: View + Sized {
    /// `a` comes strictly before `b`.
    spec fn below(a: Self::V, b: Self::V) -> bool;

    /// Nothing comes before itself.
    proof fn below_irreflexive(a: Self::V)
        ensures
            !Self::below(a, a),
    ;

    /// The order is transitive.
    proof fn below_transitive(a: Self::V, b: Self::V, c: Self::V)
        requires
            Self::below(a, b),
            Self::below(b, c),
        ensures
            Self::below(a, c),
    ;

    /// Any two different keys are ordered.
    proof fn below_total(a: Self::V, b: Self::V)
        ensures
            a == b || Self::below(a, b) || Self::below(b, a),
    ;

    /// Compares two keys.
    fn rank(&self, other: &Self) -> (r: Rank)
        ensures
            match r {
                Rank::Below => Self::below(self@, other@),
                Rank::Same => self@ == other@,
                Rank::Above => Self::below(other@, self@),
            },
    ;

    /// An equal key.
    fn duplicate(&self) -> (r: Self)
        ensures
            r@ == self@,
    ;
}

impl Key for u8 {
    open spec fn below(a: u8, b: u8) -> bool {
        a < b
    }

    proof fn below_irreflexive(a: u8) {
    }

    proof fn below_transitive(a: u8, b: u8, c: u8) {
    }

    proof fn below_total(a: u8, b: u8) {
    }

    fn rank(&self, other: &u8) -> (r: Rank) {
        if *self < *other {
            Rank::Below
        } else if *self == *other {
            Rank::Same
        } else {
            Rank::Above
        }
    }

    fn duplicate(&self) -> (r: u8) {
        *self
    }
}

impl Key for u16 {
    open spec fn below(a: u16, b: u16) -> bool {
        a < b
    }

    proof fn below_irreflexive(a: u16) {
    }

    proof fn below_transitive(a: u16, b: u16, c: u16) {
    }

    proof fn below_total(a: u16, b: u16) {
    }

    fn rank(&self, other: &u16) -> (r: Rank) {
        if *self < *other {
            Rank::Below
        } else if *self == *other {
            Rank::Same
        } else {
            Rank::Above
        }
    }

    fn duplicate(&self) -> (r: u16) {
        *self
    }
}

impl Key for u32 {
    open spec fn below(a: u32, b: u32) -> bool {
        a < b
    }

    proof fn below_irreflexive(a: u32) {
    }

    proof fn below_transitive(a: u32, b: u32, c: u32) {
    }

    proof fn below_total(a: u32, b: u32) {
    }

    fn rank(&self, other: &u32) -> (r: Rank) {
        if *self < *other {
            Rank::Below
        } else if *self == *other {
            Rank::Same
        } else {
            Rank::Above
        }
    }

    fn duplicate(&self) -> (r: u32) {
        *self
    }
}

impl Key for i32 {
    open spec fn below(a: i32, b: i32) -> bool {
        a < b
    }

    proof fn below_irreflexive(a: i32) {
    }

    proof fn below_transitive(a: i32, b: i32, c: i32) {
    }

    proof fn below_total(a: i32, b: i32) {
    }

    fn rank(&self, other: &i32) -> (r: Rank) {
        if *self < *other {
            Rank::Below
        } else if *self == *other {
            Rank::Same
        } else {
            Rank::Above
        }
    }

    fn duplicate(&self) -> (r: i32) {
        *self
    }
}

impl Key for u64 {
    open spec fn below(a: u64, b: u64) -> bool {
        a < b
    }

    proof fn below_irreflexive(a: u64) {
    }

    proof fn below_transitive(a: u64, b: u64, c: u64) {
    }

    proof fn below_total(a: u64, b: u64) {
    }

    fn rank(&self, other: &u64) -> (r: Rank) {
        if *self < *other {
            Rank::Below
        } else if *self == *other {
            Rank::Same
        } else {
            Rank::Above
        }
    }

    fn duplicate(&self) -> (r: u64) {
        *self
    }
}

impl Key for usize {
    open spec fn below(a: usize, b: usize) -> bool {
        a < b
    }

    proof fn below_irreflexive(a: usize) {
    }

    proof fn below_transitive(a: usize, b: usize, c: usize) {
    }

    proof fn below_total(a: usize, b: usize) {
    }

    fn rank(&self, other: &usize) -> (r: Rank) {
        if *self < *other {
            Rank::Below
        } else if *self == *other {
            Rank::Same
        } else {
            Rank::Above
        }
    }

    fn duplicate(&self) -> (r: usize) {
        *self
    }
}

impl Key for u128 {
    open spec fn below(a: u128, b: u128) -> bool {
        a < b
    }

    proof fn below_irreflexive(a: u128) {
    }

    proof fn below_transitive(a: u128, b: u128, c: u128) {
    }

    proof fn below_total(a: u128, b: u128) {
    }

    fn rank(&self, other: &u128) -> (r: Rank) {
        if *self < *other {
            Rank::Below
        } else if *self == *other {
            Rank::Same
        } else {
            Rank::Above
        }
    }

    fn duplicate(&self) -> (r: u128) {
        *self
    }
}

/// Pairs are ordered by their first component, then by their second.
impl<A: Key, B: Key> Key for (A, B) {
    open spec fn below(a: (A::V, B::V), b: (A::V, B::V)) -> bool {
        A::below(a.0, b.0) || (a.0 == b.0 && B::below(a.1, b.1))
    }

    proof fn below_irreflexive(a: (A::V, B::V)) {
        A::below_irreflexive(a.0);
        B::below_irreflexive(a.1);
    }

    proof fn below_transitive(a: (A::V, B::V), b: (A::V, B::V), c: (A::V, B::V)) {
        if A::below(a.0, b.0) {
            if A::below(b.0, c.0) {
                A::below_transitive(a.0, b.0, c.0);
            }
        } else if !A::below(b.0, c.0) {
            B::below_transitive(a.1, b.1, c.1);
        }
    }

    proof fn below_total(a: (A::V, B::V), b: (A::V, B::V)) {
        A::below_total(a.0, b.0);
        B::below_total(a.1, b.1);
    }

    fn rank(&self, other: &(A, B)) -> (r: Rank) {
        match self.0.rank(&other.0) {
            Rank::Below => Rank::Below,
            Rank::Same => self.1.rank(&other.1),
            Rank::Above => Rank::Above,
        }
    }

    fn duplicate(&self) -> (r: (A, B)) {
        (self.0.duplicate(), self.1.duplicate())
    }
}

/// The dictionary order on byte sequences.
pub open spec fn bytes_below(a: Seq<u8>, b: Seq<u8>) -> bool
    decreases a.len(),
{
    if b.len() == 0 {
        false
    } else if a.len() == 0 {
        true
    } else {
        a[0] < b[0] || (a[0] == b[0] && bytes_below(a.skip(1), b.skip(1)))
    }
}

proof fn bytes_below_irreflexive(a: Seq<u8>)
    ensures
        !bytes_below(a, a),
    decreases a.len(),
{
    if a.len() > 0 {
        bytes_below_irreflexive(a.skip(1));
    }
}

proof fn bytes_below_transitive(a: Seq<u8>, b: Seq<u8>, c: Seq<u8>)
    requires
        bytes_below(a, b),
        bytes_below(b, c),
    ensures
        bytes_below(a, c),
    decreases a.len(),
{
    if a.len() > 0 && a[0] == b[0] && b[0] == c[0] {
        bytes_below_transitive(a.skip(1), b.skip(1), c.skip(1));
    }
}

proof fn bytes_below_total(a: Seq<u8>, b: Seq<u8>)
    ensures
        a == b || bytes_below(a, b) || bytes_below(b, a),
    decreases a.len(),
{
    if a.len() > 0 && b.len() > 0 && a[0] == b[0] {
        bytes_below_total(a.skip(1), b.skip(1));
        if a.skip(1) == b.skip(1) {
            assert(a =~= b) by {
                assert forall|i: int| 0 <= i < a.len() implies a[i] == b[i] by {
                    if i > 0 {
                        assert(a.skip(1)[i - 1] == b.skip(1)[i - 1]);
                    }
                }
            }
        }
    } else if a.len() == 0 && b.len() == 0 {
        assert(a =~= b);
    }
}

/// Two byte sequences that agree up to `i` are ordered as their rests are.
proof fn bytes_below_after(a: Seq<u8>, b: Seq<u8>, i: int)
    requires
        0 <= i <= a.len(),
        i <= b.len(),
        a.take(i) == b.take(i),
    ensures
        bytes_below(a, b) == bytes_below(a.skip(i), b.skip(i)),
    decreases i,
{
    if i == 0 {
        assert(a.skip(0) =~= a);
        assert(b.skip(0) =~= b);
    } else {
        assert(a[0] == a.take(i)[0]);
        assert(b[0] == b.take(i)[0]);
        assert(a.skip(1).take(i - 1) =~= a.take(i).skip(1));
        assert(b.skip(1).take(i - 1) =~= b.take(i).skip(1));
        bytes_below_after(a.skip(1), b.skip(1), i - 1);
        assert(a.skip(1).skip(i - 1) =~= a.skip(i));
        assert(b.skip(1).skip(i - 1) =~= b.skip(i));
    }
}

fn rank_bytes(a: &[u8], b: &[u8]) -> (r: Rank)
    ensures
        match r {
            Rank::Below => bytes_below(a@, b@),
            Rank::Same => a@ == b@,
            Rank::Above => bytes_below(b@, a@),
        },
{
    let mut i: usize = 0;
    while i < a.len() && i < b.len()
        invariant
            i <= a.len(),
            i <= b.len(),
            a@.take(i as int) == b@.take(i as int),
        decreases a.len() - i,
    {
        proof {
            bytes_below_after(a@, b@, i as int);
            bytes_below_after(b@, a@, i as int);
        }
        if a[i] < b[i] {
            return Rank::Below;
        }
        if b[i] < a[i] {
            return Rank::Above;
        }
        proof {
            assert(a@.take(i + 1) =~= a@.take(i as int).push(a@[i as int]));
            assert(b@.take(i + 1) =~= b@.take(i as int).push(b@[i as int]));
        }
        i = i + 1;
    }
    proof {
        bytes_below_after(a@, b@, i as int);
        bytes_below_after(b@, a@, i as int);
    }
    if i < b.len() {
        Rank::Below
    } else if i < a.len() {
        Rank::Above
    } else {
        proof {
            assert(a@.take(i as int) =~= a@);
            assert(b@.take(i as int) =~= b@);
        }
        Rank::Same
    }
}

/// Strings are ordered by their UTF-8 bytes.
impl Key for String {
    open spec fn below(a: Seq<char>, b: Seq<char>) -> bool {
        bytes_below(vstd::utf8::encode_utf8(a), vstd::utf8::encode_utf8(b))
    }

    proof fn below_irreflexive(a: Seq<char>) {
        bytes_below_irreflexive(vstd::utf8::encode_utf8(a));
    }

    proof fn below_transitive(a: Seq<char>, b: Seq<char>, c: Seq<char>) {
        bytes_below_transitive(
            vstd::utf8::encode_utf8(a),
            vstd::utf8::encode_utf8(b),
            vstd::utf8::encode_utf8(c),
        );
    }

    proof fn below_total(a: Seq<char>, b: Seq<char>) {
        bytes_below_total(vstd::utf8::encode_utf8(a), vstd::utf8::encode_utf8(b));
        vstd::utf8::encode_utf8_decode_utf8(a);
        vstd::utf8::encode_utf8_decode_utf8(b);
    }

    fn rank(&self, other: &String) -> (r: Rank) {
        proof {
            vstd::utf8::encode_utf8_decode_utf8(self@);
            vstd::utf8::encode_utf8_decode_utf8(other@);
        }
        rank_bytes(self.as_str().as_bytes(), other.as_str().as_bytes())
    }

    fn duplicate(&self) -> (r: String) {
        self.clone()
    }
}

/// The keys come in strictly ascending order.
pub open spec fn ascending<K: Key>(s: Seq<K::V>) -> bool {
    forall|i: int, j: int| 0 <= i < j < s.len() ==> K::below(#[trigger] s[i], #[trigger] s[j])
}

/// `s` lists the keys of `m`, each once, in ascending order.
pub open spec fn lists_keys<K: Key, W>(s: Seq<K::V>, m: Map<K::V, W>) -> bool {
    &&& ascending::<K>(s)
    &&& forall|k: K::V| #[trigger] m.contains_key(k) <==> s.contains(k)
}

/// The keys of `m` in ascending order.
pub open spec fn in_order<K: Key, W>(m: Map<K::V, W>) -> Seq<K::V> {
    choose|s: Seq<K::V>| lists_keys::<K, W>(s, m)
}

/// The values of `m` in ascending order of their keys.
pub open spec fn values_in_order<K: Key, W>(m: Map<K::V, W>) -> Seq<W> {
    Seq::new(in_order::<K, W>(m).len(), |i: int| m[in_order::<K, W>(m)[i]])
}

/// The entries of `m` in ascending order of their keys.
pub open spec fn entries_in_order<K: Key, W>(m: Map<K::V, W>) -> Seq<(K::V, W)> {
    Seq::new(
        in_order::<K, W>(m).len(),
        |i: int| (in_order::<K, W>(m)[i], m[in_order::<K, W>(m)[i]]),
    )
}

/// The entries of `m` for which `keep` holds.
pub open spec fn kept<A, W>(m: Map<A, W>, keep: spec_fn(A, W) -> bool) -> Map<A, W> {
    Map::new(|k: A| m.contains_key(k) && keep(k, m[k]), |k: A| m[k])
}

/// `m` after the entries of `s` were put in, one after the other.
pub open spec fn put_all<A, W>(m: Map<A, W>, s: Seq<(A, W)>) -> Map<A, W>
    decreases s.len(),
{
    if s.len() == 0 {
        m
    } else {
        put_all(m, s.drop_last()).insert(s.last().0, s.last().1)
    }
}

/// `m` after the keys in `s` were taken out.
pub open spec fn drop_all<A, W>(m: Map<A, W>, s: Seq<A>) -> Map<A, W>
    decreases s.len(),
{
    if s.len() == 0 {
        m
    } else {
        drop_all(m, s.drop_last()).remove(s.last())
    }
}

/// Two ascending sequences with the same members are the same sequence.
proof fn ascending_unique<K: Key>(a: Seq<K::V>, b: Seq<K::V>)
    requires
        ascending::<K>(a),
        ascending::<K>(b),
        forall|k: K::V| #[trigger] a.contains(k) <==> b.contains(k),
    ensures
        a == b,
    decreases a.len(),
{
    if a.len() == 0 {
        if b.len() > 0 {
            assert(b.contains(b[0]));
            assert(a.contains(b[0]));
        }
        assert(a =~= b);
    } else {
        let x = a.last();
        assert(a.contains(x));
        assert(b.contains(x));
        let i = choose|i: int| 0 <= i < b.len() && b[i] == x;
        let y = b.last();
        assert(b.contains(y));
        assert(a.contains(y));
        let j = choose|j: int| 0 <= j < a.len() && a[j] == y;
        if x != y {
            assert(K::below(b[i], b[b.len() - 1]));
            assert(K::below(a[j], a[a.len() - 1]));
            K::below_transitive(x, y, x);
            K::below_irreflexive(x);
        }
        let a1 = a.drop_last();
        let b1 = b.drop_last();
        assert forall|k: K::V| #[trigger] a1.contains(k) <==> b1.contains(k) by {
            if a1.contains(k) {
                let p = choose|p: int| 0 <= p < a1.len() && a1[p] == k;
                assert(a[p] == k);
                assert(K::below(a[p], a[a.len() - 1]));
                if k == x {
                    K::below_irreflexive(x);
                }
                assert(a.contains(k));
                assert(b.contains(k));
                let q = choose|q: int| 0 <= q < b.len() && b[q] == k;
                assert(b1[q] == k);
            }
            if b1.contains(k) {
                let p = choose|p: int| 0 <= p < b1.len() && b1[p] == k;
                assert(b[p] == k);
                assert(K::below(b[p], b[b.len() - 1]));
                if k == x {
                    K::below_irreflexive(x);
                }
                assert(b.contains(k));
                assert(a.contains(k));
                let q = choose|q: int| 0 <= q < a.len() && a[q] == k;
                assert(a1[q] == k);
            }
        }
        ascending_unique::<K>(a1, b1);
        assert(a =~= a1.push(x));
        assert(b =~= b1.push(y));
    }
}

/// A sequence that lists the keys of a map is the one a walk visits.
pub proof fn in_order_is<K: Key, W>(s: Seq<K::V>, m: Map<K::V, W>)
    requires
        lists_keys::<K, W>(s, m),
    ensures
        in_order::<K, W>(m) == s,
{
    let t = in_order::<K, W>(m);
    assert(lists_keys::<K, W>(t, m));
    assert forall|k: K::V| #[trigger] s.contains(k) <==> t.contains(k) by {
        assert(m.contains_key(k) <==> s.contains(k));
        assert(m.contains_key(k) <==> t.contains(k));
    }
    ascending_unique::<K>(s, t);
}

proof fn with_key<K: Key>(s: Seq<K::V>, k: K::V) -> (t: Seq<K::V>)
    requires
        ascending::<K>(s),
        !s.contains(k),
    ensures
        ascending::<K>(t),
        forall|x: K::V| #[trigger] t.contains(x) <==> s.contains(x) || x == k,
    decreases s.len(),
{
    if s.len() == 0 {
        let t = seq![k];
        assert(t[0] == k);
        t
    } else {
        let y = s.last();
        K::below_total(y, k);
        assert(s.contains(y));
        if K::below(y, k) {
            let t = s.push(k);
            assert forall|i: int, j: int| 0 <= i < j < t.len() implies K::below(
                #[trigger] t[i],
                #[trigger] t[j],
            ) by {
                if j == s.len() && i < s.len() - 1 {
                    assert(K::below(s[i], s[s.len() - 1]));
                    K::below_transitive(s[i], y, k);
                }
            }
            assert forall|x: K::V| #[trigger] t.contains(x) <==> s.contains(x) || x == k by {
                if s.contains(x) {
                    let i = choose|i: int| 0 <= i < s.len() && s[i] == x;
                    assert(t[i] == x);
                }
                if x == k {
                    assert(t[s.len() as int] == k);
                }
            }
            t
        } else {
            let s1 = s.drop_last();
            if s1.contains(k) {
                let i = choose|i: int| 0 <= i < s1.len() && s1[i] == k;
                assert(s[i] == k);
            }
            let t1 = with_key::<K>(s1, k);
            let t = t1.push(y);
            assert forall|i: int, j: int| 0 <= i < j < t.len() implies K::below(
                #[trigger] t[i],
                #[trigger] t[j],
            ) by {
                if j == t1.len() {
                    assert(t1.contains(t1[i]));
                    if t1[i] != k {
                        let p = choose|p: int| 0 <= p < s1.len() && s1[p] == t1[i];
                        assert(K::below(s[p], s[s.len() - 1]));
                    }
                } else {
                    assert(K::below(t1[i], t1[j]));
                }
            }
            assert forall|x: K::V| #[trigger] t.contains(x) <==> s.contains(x) || x == k by {
                if t.contains(x) {
                    let i = choose|i: int| 0 <= i < t.len() && t[i] == x;
                    if i < t1.len() {
                        assert(t1.contains(x));
                        if x != k {
                            let p = choose|p: int| 0 <= p < s1.len() && s1[p] == x;
                            assert(s[p] == x);
                        }
                    }
                }
                if s.contains(x) || x == k {
                    if x == y {
                        assert(t[t1.len() as int] == x);
                    } else {
                        if s.contains(x) {
                            let p = choose|p: int| 0 <= p < s.len() && s[p] == x;
                            assert(s1[p] == x);
                        }
                        assert(t1.contains(x));
                        let i = choose|i: int| 0 <= i < t1.len() && t1[i] == x;
                        assert(t[i] == x);
                    }
                }
            }
            t
        }
    }
}

/// A map with finitely many keys can be walked.
pub proof fn in_order_lists<K: Key, W>(m: Map<K::V, W>)
    requires
        m.dom().finite(),
    ensures
        lists_keys::<K, W>(in_order::<K, W>(m), m),
    decreases m.dom().len(),
{
    if m.dom().len() == 0 {
        let s = Seq::<K::V>::empty();
        assert forall|k: K::V| #[trigger] m.contains_key(k) <==> s.contains(k) by {
            if m.contains_key(k) {
                assert(m.dom().contains(k));
                assert(m.dom() =~= Set::<K::V>::empty());
            }
        }
        assert(lists_keys::<K, W>(s, m));
    } else {
        let k = m.dom().choose();
        assert(m.dom().contains(k));
        let m1 = m.remove(k);
        assert(m1.dom() =~= m.dom().remove(k));
        in_order_lists::<K, W>(m1);
        let s1 = in_order::<K, W>(m1);
        assert(!m1.contains_key(k));
        let s = with_key::<K>(s1, k);
        assert forall|x: K::V| #[trigger] m.contains_key(x) <==> s.contains(x) by {
            assert(m1.contains_key(x) <==> s1.contains(x));
        }
        assert(lists_keys::<K, W>(s, m));
    }
}

/// A map from keys to values, held as entries sorted by key.
pub struct Table<K: Key, V: View> {
    entries: Vec<(K, V)>,
}

spec fn entry_keys<K: Key, V: View>(e: Seq<(K, V)>) -> Seq<K::V> {
    Seq::new(e.len(), |i: int| e[i].0@)
}

spec fn entry_map<K: Key, V: View>(e: Seq<(K, V)>) -> Map<K::V, V::V> {
    Map::new(
        |k: K::V| entry_keys(e).contains(k),
        |k: K::V| e[entry_keys(e).index_of(k)].1@,
    )
}

/// In sorted entries a key stands at one index only, which is where the map
/// looks.
proof fn entry_at<K: Key, V: View>(e: Seq<(K, V)>, i: int)
    requires
        ascending::<K>(entry_keys(e)),
        0 <= i < e.len(),
    ensures
        entry_map(e).contains_key(e[i].0@),
        entry_map(e)[e[i].0@] == e[i].1@,
        entry_keys(e).index_of(e[i].0@) == i,
{
    let s = entry_keys(e);
    let k = e[i].0@;
    assert(s[i] == k);
    assert(s.contains(k));
    let j = s.index_of(k);
    assert(0 <= j < s.len() && s[j] == k);
    if i < j {
        assert(K::below(s[i], s[j]));
        K::below_irreflexive(k);
    }
    if j < i {
        assert(K::below(s[j], s[i]));
        K::below_irreflexive(k);
    }
}

/// What `entry_at` says, for a map known by its entries.
proof fn entry_map_is<K: Key, V: View>(e: Seq<(K, V)>, m: Map<K::V, V::V>)
    requires
        ascending::<K>(entry_keys(e)),
        forall|i: int|
            0 <= i < e.len() ==> m.contains_key((#[trigger] e[i]).0@) && m[e[i].0@] == e[i].1@,
        forall|k: K::V| #[trigger] m.contains_key(k) ==> entry_keys(e).contains(k),
    ensures
        entry_map(e) == m,
{
    let s = entry_keys(e);
    assert forall|k: K::V| entry_map(e).contains_key(k) <==> m.contains_key(k) by {
        if s.contains(k) {
            let i = s.index_of(k);
            assert(s[i] == e[i].0@);
        }
    }
    assert forall|k: K::V| m.contains_key(k) implies entry_map(e)[k] == m[k] by {
        let i = s.index_of(k);
        assert(s.contains(k));
        assert(s[i] == k && s[i] == e[i].0@);
        entry_at(e, i);
    }
    assert(entry_map(e) =~= m);
}

impl<K: Key, V: View> View for Table<K, V> {
    type V = Map<K::V, V::V>;

    closed spec fn view(&self) -> Map<K::V, V::V> {
        entry_map(self.entries@)
    }
}

impl<K: Key, V: View> Table<K, V> {
    #[verifier::type_invariant]
    spec fn sorted(self) -> bool {
        ascending::<K>(entry_keys(self.entries@))
    }

    /// An empty table.
    pub fn new() -> (r: Table<K, V>)
        ensures
            r@ == Map::<K::V, V::V>::empty(),
    {
        let r: Table<K, V> = Table { entries: Vec::new() };
        proof {
            entry_map_is(r.entries@, Map::<K::V, V::V>::empty());
        }
        r
    }

    proof fn listed(e: Seq<(K, V)>)
        requires
            ascending::<K>(entry_keys(e)),
        ensures
            in_order::<K, V::V>(entry_map(e)) == entry_keys(e),
    {
        assert(lists_keys::<K, V::V>(entry_keys(e), entry_map(e)));
        in_order_is::<K, V::V>(entry_keys(e), entry_map(e));
    }

    /// How many entries there are. A walk visits each of them once, in
    /// ascending order of the keys.
    pub fn len(&self) -> (r: usize)
        ensures
            r == in_order::<K, V::V>(self@).len(),
            lists_keys::<K, V::V>(in_order::<K, V::V>(self@), self@),
            self@.dom().finite(),
            r == 0 <==> self@ == Map::<K::V, V::V>::empty(),
    {
        proof {
            use_type_invariant(self);
            Self::listed(self.entries@);
            let keys = entry_keys(self.entries@);
            assert(lists_keys::<K, V::V>(keys, self@));
            vstd::seq_lib::seq_to_set_is_finite(keys);
            assert(self@.dom() =~= keys.to_set()) by {
                assert forall|k: K::V| self@.dom().contains(k) <==> keys.to_set().contains(k) by {
                    assert(self@.contains_key(k) <==> keys.contains(k));
                }
            }
            if self.entries@.len() > 0 {
                entry_at(self.entries@, 0);
            } else {
                entry_map_is(self.entries@, Map::<K::V, V::V>::empty());
            }
        }
        self.entries.len()
    }

    /// The key at position `i` of a walk.
    pub fn key_at(&self, i: usize) -> (r: &K)
        requires
            i < in_order::<K, V::V>(self@).len(),
        ensures
            r@ == in_order::<K, V::V>(self@)[i as int],
            self@.contains_key(r@),
    {
        proof {
            use_type_invariant(self);
            Self::listed(self.entries@);
            entry_at(self.entries@, i as int);
        }
        &self.entries[i].0
    }

    /// The value at position `i` of a walk.
    pub fn value_at(&self, i: usize) -> (r: &V)
        requires
            i < in_order::<K, V::V>(self@).len(),
        ensures
            r@ == values_in_order::<K, V::V>(self@)[i as int],
            r@ == self@[in_order::<K, V::V>(self@)[i as int]],
            self@.contains_key(in_order::<K, V::V>(self@)[i as int]),
    {
        proof {
            use_type_invariant(self);
            Self::listed(self.entries@);
            entry_at(self.entries@, i as int);
        }
        &self.entries[i].1
    }

    /// Where `key` stands, or else where it would.
    fn find(entries: &Vec<(K, V)>, key: &K) -> (r: (bool, usize))
        requires
            ascending::<K>(entry_keys(entries@)),
        ensures
            r.1 <= entries.len(),
            r.0 ==> r.1 < entries.len() && entries@[r.1 as int].0@ == key@,
            forall|i: int|
                0 <= i < r.1 ==> K::below((#[trigger] entries@[i]).0@, key@),
            !r.0 ==> forall|i: int|
                r.1 <= i < entries.len() ==> K::below(key@, (#[trigger] entries@[i]).0@),
            !r.0 ==> !entry_keys(entries@).contains(key@),
    {
        let mut lo: usize = 0;
        let mut hi: usize = entries.len();
        let ghost s = entry_keys(entries@);
        while lo < hi
            invariant
                lo <= hi <= entries.len(),
                s == entry_keys(entries@),
                ascending::<K>(s),
                forall|i: int| 0 <= i < lo ==> K::below((#[trigger] entries@[i]).0@, key@),
                forall|i: int|
                    hi <= i < entries.len() ==> K::below(key@, (#[trigger] entries@[i]).0@),
            decreases hi - lo,
        {
            let mid: usize = lo + (hi - lo) / 2;
            match entries[mid].0.rank(key) {
                Rank::Below => {
                    proof {
                        assert forall|i: int| 0 <= i < mid + 1 implies K::below(
                            (#[trigger] entries@[i]).0@,
                            key@,
                        ) by {
                            if i < mid {
                                assert(K::below(s[i], s[mid as int]));
                                K::below_transitive(s[i], s[mid as int], key@);
                            }
                        }
                    }
                    lo = mid + 1;
                },
                Rank::Same => {
                    proof {
                        assert forall|i: int| 0 <= i < mid implies K::below(
                            (#[trigger] entries@[i]).0@,
                            key@,
                        ) by {
                            assert(K::below(s[i], s[mid as int]));
                        }
                    }
                    return (true, mid);
                },
                Rank::Above => {
                    proof {
                        assert forall|i: int| mid <= i < entries.len() implies K::below(
                            key@,
                            (#[trigger] entries@[i]).0@,
                        ) by {
                            if i > mid {
                                assert(K::below(s[mid as int], s[i]));
                                K::below_transitive(key@, s[mid as int], s[i]);
                            }
                        }
                    }
                    hi = mid;
                },
            }
        }
        proof {
            if s.contains(key@) {
                let i = choose|i: int| 0 <= i < s.len() && s[i] == key@;
                assert(entries@[i].0@ == key@);
                K::below_irreflexive(key@);
            }
        }
        (false, lo)
    }

    /// The value under `key`.
    pub fn get(&self, key: &K) -> (r: Option<&V>)
        ensures
            match r {
                Some(v) => self@.contains_key(key@) && v@ == self@[key@],
                None => !self@.contains_key(key@),
            },
    {
        proof {
            use_type_invariant(self);
        }
        let (found, at) = Self::find(&self.entries, key);
        if found {
            proof {
                entry_at(self.entries@, at as int);
            }
            Some(&self.entries[at].1)
        } else {
            None
        }
    }

    /// Whether there is an entry under `key`.
    pub fn contains(&self, key: &K) -> (r: bool)
        ensures
            r == self@.contains_key(key@),
    {
        self.get(key).is_some()
    }

    /// Puts `value` under `key`, in place of what was there.
    pub fn insert(&mut self, key: K, value: V)
        ensures
            final(self)@ == old(self)@.insert(key@, value@),
    {
        proof {
            use_type_invariant(&*self);
        }
        let ghost e = self.entries@;
        let ghost m = self@.insert(key@, value@);
        let mut entries: Vec<(K, V)> = Vec::new();
        std::mem::swap(&mut entries, &mut self.entries);
        let (found, at) = Self::find(&entries, &key);
        let ghost s = entry_keys(e);
        let ghost kv = key@;
        if found {
            entries.set(at, (key, value));
            proof {
                let e2 = entries@;
                assert(entry_keys(e2) =~= s);
                assert forall|i: int| 0 <= i < e2.len() implies m.contains_key(
                    (#[trigger] e2[i]).0@,
                ) && m[e2[i].0@] == e2[i].1@ by {
                    entry_at(e, i);
                    if i != at {
                        assert(e2[i] == e[i]);
                        assert(s[i] == e[i].0@);
                        if e[i].0@ == kv {
                            entry_at(e, at as int);
                        }
                    }
                }
                entry_at(e, at as int);
                entry_map_is(e2, m);
            }
        } else {
            entries.insert(at, (key, value));
            proof {
                let e2 = entries@;
                let s2 = entry_keys(e2);
                assert(s2 =~= s.insert(at as int, kv));
                assert forall|i: int, j: int| 0 <= i < j < s2.len() implies K::below(
                    #[trigger] s2[i],
                    #[trigger] s2[j],
                ) by {
                    let i1 = if i < at { i } else { i - 1 };
                    let j1 = if j < at { j } else { j - 1 };
                    if i == at {
                        assert(s2[j] == e[j1].0@);
                    } else if j == at {
                        assert(s2[i] == e[i1].0@);
                    } else {
                        assert(K::below(s[i1], s[j1]));
                    }
                }
                assert forall|i: int| 0 <= i < e2.len() implies m.contains_key(
                    (#[trigger] e2[i]).0@,
                ) && m[e2[i].0@] == e2[i].1@ by {
                    if i != at {
                        let i1 = if i < at { i } else { i - 1 };
                        assert(e2[i] == e[i1]);
                        entry_at(e, i1);
                        assert(s[i1] == e[i1].0@);
                        assert(s.contains(s[i1]));
                    }
                }
                assert forall|k: K::V| #[trigger] m.contains_key(k) implies s2.contains(k) by {
                    if k == kv {
                        assert(s2[at as int] == kv);
                    } else {
                        let i = s.index_of(k);
                        assert(s.contains(k));
                        let i2 = if i < at { i } else { i + 1 };
                        assert(s2[i2] == k);
                    }
                }
                entry_map_is(e2, m);
            }
        }
        self.entries = entries;
    }

    /// Takes out the entry under `key`, if there is one.
    pub fn remove(&mut self, key: &K) -> (r: Option<V>)
        ensures
            final(self)@ == old(self)@.remove(key@),
            match r {
                Some(v) => old(self)@.contains_key(key@) && v@ == old(self)@[key@],
                None => !old(self)@.contains_key(key@),
            },
    {
        proof {
            use_type_invariant(&*self);
        }
        let ghost e = self.entries@;
        let ghost m = self@.remove(key@);
        let mut entries: Vec<(K, V)> = Vec::new();
        std::mem::swap(&mut entries, &mut self.entries);
        let (found, at) = Self::find(&entries, key);
        let ghost s = entry_keys(e);
        let r: Option<V>;
        if found {
            let (k, v) = entries.remove(at);
            r = Some(v);
            proof {
                entry_at(e, at as int);
                let e2 = entries@;
                let s2 = entry_keys(e2);
                assert(e2 =~= e.remove(at as int));
                assert(s2 =~= s.remove(at as int));
                assert forall|i: int, j: int| 0 <= i < j < s2.len() implies K::below(
                    #[trigger] s2[i],
                    #[trigger] s2[j],
                ) by {
                    let i1 = if i < at { i } else { i + 1 };
                    let j1 = if j < at { j } else { j + 1 };
                    assert(K::below(s[i1], s[j1]));
                }
                assert forall|i: int| 0 <= i < e2.len() implies m.contains_key(
                    (#[trigger] e2[i]).0@,
                ) && m[e2[i].0@] == e2[i].1@ by {
                    let i1 = if i < at { i } else { i + 1 };
                    assert(e2[i] == e[i1]);
                    entry_at(e, i1);
                    assert(s[i1] == e[i1].0@);
                }
                assert forall|k: K::V| #[trigger] m.contains_key(k) implies s2.contains(k) by {
                    let i = s.index_of(k);
                    assert(s.contains(k));
                    let i2 = if i < at { i } else { i - 1 };
                    assert(s2[i2] == k);
                }
                entry_map_is(e2, m);
            }
        } else {
            r = None;
            proof {
                assert(m =~= entry_map(e));
            }
        }
        self.entries = entries;
        r
    }

    /// Takes out every entry.
    pub fn clear(&mut self)
        ensures
            final(self)@ == Map::<K::V, V::V>::empty(),
    {
        *self = Table::new();
    }

    /// Keeps the entries on which `test` answers yes; `keep` says what it
    /// answers.
    pub fn retain<F: Fn(&K, &V) -> bool>(&mut self, test: F, keep: Ghost<spec_fn(K::V, V::V) -> bool>)
        requires
            forall|k: &K, v: &V| #[trigger] call_requires(test, (k, v)),
            forall|k: &K, v: &V, b: bool| #[trigger]
                call_ensures(test, (k, v), b) ==> b == (keep@)(k@, v@),
        ensures
            final(self)@ == kept(old(self)@, keep@),
    {
        let mut taken: Table<K, V> = Table::new();
        std::mem::swap(&mut taken, self);
        proof {
            use_type_invariant(&taken);
        }
        let ghost e = taken.entries@;
        let ghost s = entry_keys(e);
        let ghost m = kept(entry_map(e), keep@);
        let mut entries: Vec<(K, V)> = taken.entries;
        let mut rest: Vec<(K, V)> = Vec::new();
        while entries.len() > 0
            invariant
                entries.len() + rest.len() == e.len(),
                forall|i: int| 0 <= i < entries.len() ==> #[trigger] entries@[i] == e[i],
                forall|i: int|
                    0 <= i < rest.len() ==> #[trigger] rest@[i] == e[e.len() - 1 - i],
            decreases entries.len(),
        {
            if let Some(entry) = entries.pop() {
                rest.push(entry);
            }
        }
        let mut done: Vec<(K, V)> = Vec::new();
        let ghost mut n: int = 0;
        proof {
            assert(entry_keys(done@) =~= Seq::<K::V>::empty());
        }
        while rest.len() > 0
            invariant
                n + rest.len() == e.len(),
                n >= 0,
                s == entry_keys(e),
                ascending::<K>(s),
                m == kept(entry_map(e), keep@),
                forall|i: int|
                    0 <= i < rest.len() ==> #[trigger] rest@[i] == e[e.len() - 1 - i],
                forall|k: &K, v: &V| #[trigger] call_requires(test, (k, v)),
                forall|k: &K, v: &V, b: bool| #[trigger]
                    call_ensures(test, (k, v), b) ==> b == (keep@)(k@, v@),
                ascending::<K>(entry_keys(done@)),
                forall|j: int|
                    0 <= j < done.len() ==> m.contains_key((#[trigger] done@[j]).0@)
                        && m[done@[j].0@] == done@[j].1@ && (exists|i: int|
                        0 <= i < n && #[trigger] e[i] == done@[j]),
                forall|i: int|
                    0 <= i < n && m.contains_key((#[trigger] e[i]).0@) ==> entry_keys(
                        done@,
                    ).contains(e[i].0@),
            decreases rest.len(),
        {
            let ghost before = done@;
            if let Some((k, v)) = rest.pop() {
                proof {
                    entry_at(e, n);
                }
                if test(&k, &v) {
                    done.push((k, v));
                    proof {
                        let s2 = entry_keys(done@);
                        assert(s2 =~= entry_keys(before).push(e[n].0@));
                        assert forall|i: int, j: int| 0 <= i < j < s2.len() implies K::below(
                            #[trigger] s2[i],
                            #[trigger] s2[j],
                        ) by {
                            if j == before.len() {
                                assert(done@[i] == before[i]);
                                let p = choose|p: int| 0 <= p < n && #[trigger] e[p] == before[i];
                                assert(K::below(s[p], s[n]));
                            } else {
                                assert(K::below(entry_keys(before)[i], entry_keys(before)[j]));
                            }
                        }
                        assert forall|j: int| 0 <= j < done.len() implies m.contains_key(
                            (#[trigger] done@[j]).0@,
                        ) && m[done@[j].0@] == done@[j].1@ && (exists|i: int|
                            0 <= i < n + 1 && #[trigger] e[i] == done@[j]) by {
                            if j < before.len() {
                                assert(done@[j] == before[j]);
                                let p = choose|p: int| 0 <= p < n && #[trigger] e[p] == before[j];
                                assert(e[p] == done@[j]);
                            } else {
                                assert(e[n] == done@[j]);
                            }
                        }
                        assert forall|i: int|
                            0 <= i < n + 1 && m.contains_key((#[trigger] e[i]).0@) implies s2.contains(
                            e[i].0@,
                        ) by {
                            if i < n {
                                let q = entry_keys(before).index_of(e[i].0@);
                                assert(entry_keys(before).contains(e[i].0@));
                                assert(s2[q] == e[i].0@);
                            } else {
                                assert(s2[before.len() as int] == e[i].0@);
                            }
                        }
                    }
                }
                proof {
                    n = n + 1;
                }
            }
        }
        proof {
            assert forall|k: K::V| #[trigger] m.contains_key(k) implies entry_keys(
                done@,
            ).contains(k) by {
                let i = s.index_of(k);
                assert(s.contains(k));
                assert(e[i].0@ == k);
            }
            entry_map_is(done@, m);
        }
        self.entries = done;
    }
}

impl<K: Key> Table<K, Vec<u8>> {
    /// Puts every item in, one after the other.
    pub fn put_each(&mut self, items: &Vec<(K, Vec<u8>)>)
        ensures
            final(self)@ == put_all(old(self)@, views::views(items@)),
    {
        let ghost m = self@;
        let ghost all = views::views(items@);
        let mut i: usize = 0;
        proof {
            assert(all.take(0) =~= Seq::<(K::V, Seq<u8>)>::empty());
        }
        while i < items.len()
            invariant
                i <= items.len(),
                all == views::views(items@),
                self@ == put_all(m, all.take(i as int)),
            decreases items.len() - i,
        {
            self.insert(items[i].0.duplicate(), items[i].1.clone());
            proof {
                assert(all.take(i + 1).drop_last() =~= all.take(i as int));
                assert(all.take(i + 1).last() == all[i as int]);
            }
            i = i + 1;
        }
        proof {
            assert(all.take(i as int) =~= all);
        }
    }

    /// The entries in the order of their keys.
    pub fn entries_copied(&self) -> (r: Vec<(K, Vec<u8>)>)
        ensures
            views::views(r@) == entries_in_order::<K, Seq<u8>>(self@),
    {
        let n: usize = self.len();
        let mut r: Vec<(K, Vec<u8>)> = Vec::new();
        let ghost all = entries_in_order::<K, Seq<u8>>(self@);
        let mut i: usize = 0;
        proof {
            assert(all.take(0) =~= Seq::<(K::V, Seq<u8>)>::empty());
        }
        while i < n
            invariant
                i <= n,
                n == in_order::<K, Seq<u8>>(self@).len(),
                all == entries_in_order::<K, Seq<u8>>(self@),
                views::views(r@) == all.take(i as int),
            decreases n - i,
        {
            r.push((self.key_at(i).duplicate(), self.value_at(i).clone()));
            proof {
                assert(all.take(i + 1) =~= all.take(i as int).push(all[i as int]));
            }
            i = i + 1;
        }
        proof {
            assert(all.take(i as int) =~= all);
        }
        r
    }

    /// The values in the order of their keys.
    pub fn values_copied(&self) -> (r: Vec<Vec<u8>>)
        ensures
            views::views(r@) == values_in_order::<K, Seq<u8>>(self@),
    {
        let n: usize = self.len();
        let mut r: Vec<Vec<u8>> = Vec::new();
        let ghost all = values_in_order::<K, Seq<u8>>(self@);
        let mut i: usize = 0;
        proof {
            assert(all.take(0) =~= Seq::<Seq<u8>>::empty());
        }
        while i < n
            invariant
                i <= n,
                n == in_order::<K, Seq<u8>>(self@).len(),
                all == values_in_order::<K, Seq<u8>>(self@),
                views::views(r@) == all.take(i as int),
            decreases n - i,
        {
            r.push(self.value_at(i).clone());
            proof {
                assert(all.take(i + 1) =~= all.take(i as int).push(all[i as int]));
            }
            i = i + 1;
        }
        proof {
            assert(all.take(i as int) =~= all);
        }
        r
    }
}

} // verus!
