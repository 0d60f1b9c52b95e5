//! The protocol's plain encodings: variable-length integers, big-endian
//! integers, and small whole numbers as single-precision floats.

use vstd::prelude::*;

verus! {

/// The variable-length encoding of `n`: groups of seven bits, lowest first,
/// every byte but the last one marked by its high bit.
pub open spec fn varint(n: u32) -> Seq<u8>
    decreases n,
{
    if n < 128 {
        seq![n as u8]
    } else {
        seq![(n % 128 + 128) as u8] + varint(n / 128)
    }
}

/// The number that groups of seven bits stand for, lowest first.
pub open spec fn groups(b: Seq<u8>) -> nat
    decreases b.len(),
{
    if b.len() == 0 {
        0
    } else {
        (b[0] % 128) as nat + 128 * groups(b.skip(1))
    }
}

/// How many bytes the integer at the front of `b` takes: it ends with the
/// first unmarked byte, or with the fifth one. `None` where the bytes run out.
pub open spec fn varint_end(b: Seq<u8>) -> Option<nat> {
    if b.len() >= 1 && b[0] < 128 {
        Some(1)
    } else if b.len() >= 2 && b[1] < 128 {
        Some(2)
    } else if b.len() >= 3 && b[2] < 128 {
        Some(3)
    } else if b.len() >= 4 && b[3] < 128 {
        Some(4)
    } else if b.len() >= 5 {
        Some(5)
    } else {
        None
    }
}

/// The integer at the front of `b` and how many bytes it takes. Bits beyond
/// the thirty-second are lost.
pub open spec fn read_varint(b: Seq<u8>) -> Option<(u32, nat)> {
    match varint_end(b) {
        Some(n) => Some(((groups(b.take(n as int)) % 0x1_0000_0000) as u32, n)),
        None => None,
    }
}

/// The signed number with the same thirty-two bits as `n`.
pub open spec fn signed(n: u32) -> i32 {
    if n < 0x8000_0000 {
        n as i32
    } else {
        (n - 0x1_0000_0000) as i32
    }
}

/// The unsigned number with the same thirty-two bits as `n`.
pub open spec fn unsigned(n: i32) -> u32 {
    if n >= 0 {
        n as u32
    } else {
        (n + 0x1_0000_0000) as u32
    }
}

/// The integer that four bytes, highest first, stand for.
pub open spec fn be_u32(b: Seq<u8>, at: int) -> u32 {
    (b[at] * 0x100_0000 + b[at + 1] * 0x1_0000 + b[at + 2] * 0x100 + b[at + 3]) as u32
}

/// The integer that eight bytes, highest first, stand for.
pub open spec fn be_u64(b: Seq<u8>, at: int) -> u64 {
    (be_u32(b, at) * 0x1_0000_0000 + be_u32(b, at + 4)) as u64
}

/// Four bytes, highest first.
pub open spec fn be4(n: u32) -> Seq<u8> {
    seq![
        (n / 0x100_0000) as u8,
        (n / 0x1_0000 % 0x100) as u8,
        (n / 0x100 % 0x100) as u8,
        (n % 0x100) as u8,
    ]
}

/// Eight bytes, highest first.
pub open spec fn be8(n: u64) -> Seq<u8> {
    be4((n / 0x1_0000_0000) as u32) + be4((n % 0x1_0000_0000) as u32)
}

/// The weight of the highest bit of a byte that is not zero.
pub open spec fn top_bit(n: u8) -> int {
    if n >= 128 {
        7
    } else if n >= 64 {
        6
    } else if n >= 32 {
        5
    } else if n >= 16 {
        4
    } else if n >= 8 {
        3
    } else if n >= 4 {
        2
    } else if n >= 2 {
        1
    } else {
        0
    }
}

/// 2 to the power `e`, for the exponents that occur in a single-precision
/// significand.
pub open spec fn two_to(e: int) -> int
    decreases e,
{
    if e <= 0 {
        1
    } else {
        2 * two_to(e - 1)
    }
}

/// The bits of the single-precision float that equals `n`.
pub open spec fn float_bits(n: u8) -> u32 {
    if n == 0 {
        0
    } else {
        ((127 + top_bit(n)) * 0x80_0000 + (n - two_to(top_bit(n))) * two_to(23 - top_bit(n))) as u32
    }
}

/// The byte nearest to zero that a single-precision float with these bits
/// covers: the fraction is cut off, what lies below 0 counts as 0 and what
/// lies above 255 as 255, and what is not a number as 0.
pub open spec fn float_to_byte(bits: u32) -> u8 {
    let exponent = bits / 0x80_0000;
    let fraction = bits % 0x80_0000;
    if exponent >= 256 || exponent < 127 {
        0
    } else if exponent == 255 && fraction != 0 {
        0
    } else if exponent >= 135 {
        255
    } else {
        ((0x80_0000 + fraction) / two_to(150 - exponent)) as u8
    }
}

/// What is read from the front of an encoded integer is that integer.
pub proof fn varint_roundtrip(n: u32, rest: Seq<u8>)
    ensures
        read_varint(varint(n) + rest) == Some((n, varint(n).len())),
        1 <= varint(n).len() <= 5,
{
    reveal_with_fuel(varint, 6);
    reveal_with_fuel(groups, 6);
    let v = varint(n);
    let b = v + rest;
    let n1 = n / 128;
    let n2 = n1 / 128;
    let n3 = n2 / 128;
    let n4 = n3 / 128;
    assert(n4 < 16);
    let k = v.len() as int;
    assert(1 <= k <= 5);
    assert(b.take(k) =~= v);
    assert forall|i: int| 0 <= i < k implies b[i] == v[i] by {}
    if k == 1 {
        assert(v =~= seq![n as u8]);
        assert(v.skip(1) =~= Seq::<u8>::empty());
    } else if k == 2 {
        assert(v =~= seq![(n % 128 + 128) as u8, n1 as u8]);
    } else if k == 3 {
        assert(v =~= seq![(n % 128 + 128) as u8, (n1 % 128 + 128) as u8, n2 as u8]);
    } else if k == 4 {
        assert(v =~= seq![
            (n % 128 + 128) as u8,
            (n1 % 128 + 128) as u8,
            (n2 % 128 + 128) as u8,
            n3 as u8,
        ]);
    } else {
        assert(v =~= seq![
            (n % 128 + 128) as u8,
            (n1 % 128 + 128) as u8,
            (n2 % 128 + 128) as u8,
            (n3 % 128 + 128) as u8,
            n4 as u8,
        ]);
    }
    assert(groups(v) == n as nat) by {
        groups_of_varint(n);
    }
}

proof fn groups_of_varint(n: u32)
    ensures
        groups(varint(n)) == n as nat,
    decreases n,
{
    let v = varint(n);
    if n < 128 {
        assert(v.skip(1) =~= Seq::<u8>::empty());
        assert(groups(v.skip(1)) == 0);
    } else {
        assert(v.skip(1) =~= varint(n / 128));
        groups_of_varint(n / 128);
        assert(v[0] == (n % 128 + 128) as u8);
    }
}

/// The last byte of an encoded integer is not marked.
pub proof fn varint_last(n: u32)
    ensures
        varint(n).len() > 0,
        varint(n).last() < 128,
    decreases n,
{
    if n >= 128 {
        varint_last(n / 128);
        assert(varint(n).last() == varint(n / 128).last());
    }
}

/// The signed and the unsigned reading of thirty-two bits undo each other.
pub proof fn signed_roundtrip(n: i32)
    ensures
        signed(unsigned(n)) == n,
{
}

/// What is read back from big-endian bytes is the integer written.
pub proof fn big_endian_roundtrip(n: u64, m: u32)
    ensures
        be_u32(be4(m), 0) == m,
        be_u64(be8(n), 0) == n,
{
    let hi = (n / 0x1_0000_0000) as u32;
    let lo = (n % 0x1_0000_0000) as u32;
    be4_sum(m);
    be4_sum(hi);
    be4_sum(lo);
    let b = be8(n);
    assert(be_u32(b, 0) == be_u32(be4(hi), 0));
    assert(be_u32(b, 4) == be_u32(be4(lo), 0)) by {
        assert(b[4] == be4(lo)[0]);
        assert(b[5] == be4(lo)[1]);
        assert(b[6] == be4(lo)[2]);
        assert(b[7] == be4(lo)[3]);
    }
}

proof fn be4_sum(n: u32)
    ensures
        be_u32(be4(n), 0) == n,
{
    let a = n / 0x100_0000;
    let b = n / 0x1_0000 % 0x100;
    let c = n / 0x100 % 0x100;
    let d = n % 0x100;
    assert(a * 0x100_0000 + b * 0x1_0000 + c * 0x100 + d == n);
    let s = be4(n);
    assert(s[0] == a as u8 && s[1] == b as u8 && s[2] == c as u8 && s[3] == d as u8);
}

proof fn scale(e: int)
    requires
        0 <= e <= 7,
    ensures
        two_to(e) * two_to(23 - e) == 0x80_0000,
        two_to(23 - e) > 0,
    decreases e,
{
    reveal_with_fuel(two_to, 24);
    if e > 0 {
        scale(e - 1);
        let a = two_to(e - 1);
        let b = two_to(23 - e);
        assert((2 * a) * b == a * (2 * b)) by (nonlinear_arith);
    }
}

/// A byte sent as a float is read back as that byte.
pub proof fn float_byte_roundtrip(n: u8)
    ensures
        float_to_byte(float_bits(n)) == n,
{
    reveal_with_fuel(two_to, 24);
    if n > 0 {
        let e = top_bit(n);
        let low = n - two_to(e);
        assert(0 <= low < two_to(e));
        let w = two_to(23 - e);
        scale(e);
        assert(two_to(e) * w == 0x80_0000);
        assert(0 <= low * w < 0x80_0000 && 0x80_0000 + low * w == n * w) by (nonlinear_arith)
            requires
                0 <= low < two_to(e),
                low == n - two_to(e),
                w > 0,
                two_to(e) * w == 0x80_0000,
        ;
        let bits = float_bits(n);
        assert(bits == (127 + e) * 0x80_0000 + low * w);
        assert(bits / 0x80_0000 == 127 + e);
        assert(bits % 0x80_0000 == low * w);
        assert((n * w) / w == n) by (nonlinear_arith)
            requires
                w > 0,
        ;
    }
}

/// Appends the variable-length encoding of `n`.
pub fn write_varint(out: &mut Vec<u8>, n: u32)
    ensures
        final(out)@ == old(out)@ + varint(n),
{
    let ghost start = out@;
    let mut left: u32 = n;
    while left >= 128
        invariant
            out@ + varint(left) == start + varint(n),
        decreases left,
    {
        let ghost before = out@;
        out.push((left % 128 + 128) as u8);
        proof {
            assert(varint(left) == seq![(left % 128 + 128) as u8] + varint(left / 128));
            assert(before + varint(left) =~= out@ + varint(left / 128));
        }
        left = left / 128;
    }
    out.push(left as u8);
    proof {
        assert(out@ =~= start + varint(n));
    }
}

/// Reads the integer at the front of `b`.
pub fn take_varint(b: &[u8]) -> (r: Option<(u32, usize)>)
    ensures
        match r {
            Some((n, used)) => read_varint(b@) == Some((n, used as nat)) && 1 <= used <= b.len(),
            None => read_varint(b@) is None,
        },
{
    proof {
        assert(b@.skip(0) =~= b@);
    }
    take_varint_at(b, 0)
}

/// Reads the integer that starts at `at`.
pub fn take_varint_at(b: &[u8], at: usize) -> (r: Option<(u32, usize)>)
    requires
        at <= b.len(),
    ensures
        match r {
            Some((n, used)) => read_varint(b@.skip(at as int)) == Some((n, used as nat)) && 1
                <= used <= b.len() - at,
            None => read_varint(b@.skip(at as int)) is None,
        },
{
    let ghost s = b@.skip(at as int);
    let mut sum: u64 = 0;
    let mut weight: u64 = 1;
    let mut i: usize = 0;
    proof {
        assert(s.take(0) =~= Seq::<u8>::empty());
        reveal_with_fuel(groups, 2);
    }
    while i < 5 && i < b.len() - at
        invariant
            i <= 5,
            at <= b.len(),
            i <= b.len() - at,
            s == b@.skip(at as int),
            weight == weight_of(i as int),
            sum == groups(s.take(i as int)),
            sum < weight,
            forall|j: int| 0 <= j < i ==> #[trigger] s[j] >= 128,
        decreases 5 - i,
    {
        let byte: u8 = b[at + i];
        proof {
            assert(byte == s[i as int]);
            groups_push(s.take(i as int), byte);
            assert(s.take(i + 1) =~= s.take(i as int).push(byte));
            reveal_with_fuel(weight_of, 7);
        }
        let low: u64 = (byte % 128) as u64;
        assert(low * weight <= 127 * weight) by (nonlinear_arith)
            requires
                low <= 127,
        ;
        assert(weight <= 0x1000_0000);
        sum = sum + low * weight;
        weight = weight * 128;
        i = i + 1;
        if byte < 128 {
            return Some(((sum % 0x1_0000_0000) as u32, i));
        }
    }
    if i == 5 {
        Some(((sum % 0x1_0000_0000) as u32, 5))
    } else {
        None
    }
}

spec fn weight_of(i: int) -> int
    decreases i,
{
    if i <= 0 {
        1
    } else {
        128 * weight_of(i - 1)
    }
}

proof fn groups_push(s: Seq<u8>, byte: u8)
    ensures
        groups(s.push(byte)) == groups(s) + (byte % 128) * weight_of(s.len() as int),
    decreases s.len(),
{
    let t = s.push(byte);
    if s.len() == 0 {
        assert(t.skip(1) =~= Seq::<u8>::empty());
        assert(groups(t.skip(1)) == 0);
    } else {
        assert(t.skip(1) =~= s.skip(1).push(byte));
        groups_push(s.skip(1), byte);
        let w = weight_of(s.len() - 1);
        let d = (byte % 128) as int;
        assert(128 * (d * w) == d * (128 * w)) by (nonlinear_arith);
    }
}

/// The signed number with the same thirty-two bits as `n`.
pub fn to_signed(n: u32) -> (r: i32)
    ensures
        r == signed(n),
{
    if n < 0x8000_0000 {
        n as i32
    } else {
        -((0xffff_ffff - n) as i32) - 1
    }
}

/// The unsigned number with the same thirty-two bits as `n`.
pub fn to_unsigned(n: i32) -> (r: u32)
    ensures
        r == unsigned(n),
{
    if n >= 0 {
        n as u32
    } else {
        0xffff_ffff - ((-(n + 1)) as u32)
    }
}

/// Reads four bytes, highest first.
pub fn read_be_u32(b: &[u8], at: usize) -> (r: u32)
    requires
        at + 4 <= b.len(),
    ensures
        r == be_u32(b@, at as int),
{
    (b[at] as u32) * 0x100_0000 + (b[at + 1] as u32) * 0x1_0000 + (b[at + 2] as u32) * 0x100 + (b[at
        + 3] as u32)
}

/// Reads eight bytes, highest first.
pub fn read_be_u64(b: &[u8], at: usize) -> (r: u64)
    requires
        at + 8 <= b.len(),
    ensures
        r == be_u64(b@, at as int),
{
    (read_be_u32(b, at) as u64) * 0x1_0000_0000 + (read_be_u32(b, at + 4) as u64)
}

/// Appends four bytes, highest first.
pub fn write_be_u32(out: &mut Vec<u8>, n: u32)
    ensures
        final(out)@ == old(out)@ + be4(n),
{
    let ghost start = out@;
    out.push((n / 0x100_0000) as u8);
    out.push((n / 0x1_0000 % 0x100) as u8);
    out.push((n / 0x100 % 0x100) as u8);
    out.push((n % 0x100) as u8);
    proof {
        assert(out@ =~= start + be4(n));
    }
}

/// Appends eight bytes, highest first.
pub fn write_be_u64(out: &mut Vec<u8>, n: u64)
    ensures
        final(out)@ == old(out)@ + be8(n),
{
    let ghost start = out@;
    write_be_u32(out, (n / 0x1_0000_0000) as u32);
    write_be_u32(out, (n % 0x1_0000_0000) as u32);
    proof {
        assert(out@ =~= start + be8(n));
    }
}

/// The bits of the single-precision float that equals `n`.
pub fn byte_to_float(n: u8) -> (r: u32)
    ensures
        r == float_bits(n),
{
    proof {
        reveal_with_fuel(two_to, 24);
        let low = n - two_to(top_bit(n));
        let w = two_to(23 - top_bit(n));
        if n >= 128 {
            assert(low * w == low * 0x1_0000) by (nonlinear_arith) requires w == 0x1_0000;
        } else if n >= 64 {
            assert(low * w == low * 0x2_0000) by (nonlinear_arith) requires w == 0x2_0000;
        } else if n >= 32 {
            assert(low * w == low * 0x4_0000) by (nonlinear_arith) requires w == 0x4_0000;
        } else if n >= 16 {
            assert(low * w == low * 0x8_0000) by (nonlinear_arith) requires w == 0x8_0000;
        } else if n >= 8 {
            assert(low * w == low * 0x10_0000) by (nonlinear_arith) requires w == 0x10_0000;
        } else if n >= 4 {
            assert(low * w == low * 0x20_0000) by (nonlinear_arith) requires w == 0x20_0000;
        } else if n >= 2 {
            assert(low * w == low * 0x40_0000) by (nonlinear_arith) requires w == 0x40_0000;
        } else if n == 1 {
            assert(low * w == 0) by (nonlinear_arith) requires low == 0;
        }
    }
    let v: u32 = n as u32;
    if n >= 128 {
        134 * 0x80_0000 + (v - 128) * 0x1_0000
    } else if n >= 64 {
        133 * 0x80_0000 + (v - 64) * 0x2_0000
    } else if n >= 32 {
        132 * 0x80_0000 + (v - 32) * 0x4_0000
    } else if n >= 16 {
        131 * 0x80_0000 + (v - 16) * 0x8_0000
    } else if n >= 8 {
        130 * 0x80_0000 + (v - 8) * 0x10_0000
    } else if n >= 4 {
        129 * 0x80_0000 + (v - 4) * 0x20_0000
    } else if n >= 2 {
        128 * 0x80_0000 + (v - 2) * 0x40_0000
    } else if n == 1 {
        127 * 0x80_0000
    } else {
        0
    }
}

/// The byte that a single-precision float with these bits is cut down to.
pub fn float_byte(bits: u32) -> (r: u8)
    ensures
        r == float_to_byte(bits),
{
    proof {
        reveal_with_fuel(two_to, 25);
    }
    let exponent: u32 = bits / 0x80_0000;
    let fraction: u32 = bits % 0x80_0000;
    if exponent >= 256 || exponent < 127 {
        0
    } else if exponent == 255 && fraction != 0 {
        0
    } else if exponent >= 135 {
        255
    } else {
        let unit: u32 = if exponent == 127 {
            0x80_0000
        } else if exponent == 128 {
            0x40_0000
        } else if exponent == 129 {
            0x20_0000
        } else if exponent == 130 {
            0x10_0000
        } else if exponent == 131 {
            0x8_0000
        } else if exponent == 132 {
            0x4_0000
        } else if exponent == 133 {
            0x2_0000
        } else {
            0x1_0000
        };
        ((0x80_0000 + fraction) / unit) as u8
    }
}

} // verus!
