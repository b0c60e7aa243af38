//! Fixed-width big-endian integer encodings and byte-string helpers.

use vstd::prelude::*;

verus! {

/// The `width` low-order base-256 digits of `value`, most significant first.
pub open spec fn be_bytes(value: nat, width: nat) -> Seq<u8>
    decreases width,
{
    if width == 0 {
        Seq::empty()
    } else {
        be_bytes(value / 256, (width - 1) as nat).push((value % 256) as u8)
    }
}

/// The number whose big-endian base-256 digits are `bytes`.
pub open spec fn be_value(bytes: Seq<u8>) -> nat
    decreases bytes.len(),
{
    if bytes.len() == 0 {
        0
    } else {
        be_value(bytes.drop_last()) * 256 + bytes.last() as nat
    }
}

/// 256 raised to the power `width`.
pub open spec fn pow256(width: nat) -> nat
    decreases width,
{
    if width == 0 {
        1
    } else {
        256 * pow256((width - 1) as nat)
    }
}

/// A big-endian encoding has exactly the width that was asked for.
pub proof fn lemma_be_bytes_len(value: nat, width: nat)
    ensures
        be_bytes(value, width).len() == width,
    decreases width,
{
    if width > 0 {
        lemma_be_bytes_len(value / 256, (width - 1) as nat);
    }
}

/// Decoding an encoding gives the value back, as long as the value fits the width.
pub proof fn lemma_be_round_trip(value: nat, width: nat)
    requires
        value < pow256(width),
    ensures
        be_value(be_bytes(value, width)) == value,
    decreases width,
{
    if width > 0 {
        let rest = be_bytes(value / 256, (width - 1) as nat);
        let last = (value % 256) as u8;
        assert(value / 256 < pow256((width - 1) as nat));
        lemma_be_round_trip(value / 256, (width - 1) as nat);
        assert(rest.push(last).drop_last() =~= rest);
        assert(rest.push(last).last() == last);
    }
}

/// Encoding a decoded byte string of the same width gives the bytes back.
pub proof fn lemma_be_bytes_of_value(bytes: Seq<u8>)
    ensures
        be_bytes(be_value(bytes), bytes.len()) == bytes,
        be_value(bytes) < pow256(bytes.len()),
    decreases bytes.len(),
{
    if bytes.len() > 0 {
        let front = bytes.drop_last();
        lemma_be_bytes_of_value(front);
        let v = be_value(front) * 256 + bytes.last() as nat;
        assert(v / 256 == be_value(front));
        assert(v % 256 == bytes.last() as nat);
        assert(front.push(bytes.last()) =~= bytes);
    }
}

/// Two values below the width's range with the same encoding are the same value.
pub proof fn lemma_be_bytes_injective(a: nat, b: nat, width: nat)
    requires
        a < pow256(width),
        b < pow256(width),
        be_bytes(a, width) == be_bytes(b, width),
    ensures
        a == b,
{
    lemma_be_round_trip(a, width);
    lemma_be_round_trip(b, width);
}

/// The unsigned number that stands for a signed 64-bit value in two's complement.
pub open spec fn twos_complement_64(value: int) -> nat {
    if value >= 0 {
        value as nat
    } else {
        (value + 0x1_0000_0000_0000_0000) as nat
    }
}

/// The signed value that an unsigned 64-bit pattern stands for in two's complement.
pub open spec fn from_twos_complement_64(bits: nat) -> int {
    if bits < 0x8000_0000_0000_0000 {
        bits as int
    } else {
        bits - 0x1_0000_0000_0000_0000
    }
}

/// The ranges of the widths that the encodings use.
pub proof fn lemma_pow256_values()
    ensures
        pow256(1) == 0x100,
        pow256(2) == 0x1_0000,
        pow256(4) == 0x1_0000_0000,
        pow256(8) == 0x1_0000_0000_0000_0000,
        pow256(16) == 0x1_0000_0000_0000_0000_0000_0000_0000_0000,
{
    reveal_with_fuel(pow256, 17);
}

/// A wider encoding has the larger range.
pub proof fn lemma_pow256_monotonic(a: nat, b: nat)
    requires
        a <= b,
    ensures
        0 < pow256(a) <= pow256(b),
    decreases b,
{
    if b > 0 {
        if a < b {
            lemma_pow256_monotonic(a, (b - 1) as nat);
        } else {
            lemma_pow256_monotonic((a - 1) as nat, (b - 1) as nat);
        }
    }
}

/// The number whose big-endian digits are the `width` bytes of `bytes` from
/// `pos` on, or `None` where `bytes` ends before them.
pub fn read_be(bytes: &[u8], pos: usize, width: usize) -> (value: Option<u128>)
    requires
        width <= 16,
    ensures
        value is Some <==> pos + width <= bytes@.len(),
        value matches Some(v) ==> v as nat == be_value(bytes@.subrange(pos as int, pos + width)),
{
    let len = bytes.len();
    if pos > len || len - pos < width {
        return None;
    }
    let mut acc: u128 = 0;
    let mut i: usize = 0;
    while i < width
        invariant
            i <= width <= 16,
            pos + width <= bytes@.len(),
            bytes@.len() == len,
            acc as nat == be_value(bytes@.subrange(pos as int, pos + i)),
            acc < pow256(i as nat),
        decreases width - i,
    {
        proof {
            lemma_pow256_monotonic(i as nat, 15);
            lemma_pow256_values();
            reveal_with_fuel(pow256, 16);
            let next = bytes@.subrange(pos as int, pos + i + 1);
            assert(next.drop_last() =~= bytes@.subrange(pos as int, pos + i));
            assert(next.last() == bytes@[pos + i]);
            assert(pow256(16) == 256 * pow256(15));
        }
        acc = acc * 256 + bytes[pos + i] as u128;
        i = i + 1;
    }
    Some(acc)
}

/// The signed value of a 64-bit pattern in two's complement.
pub fn from_twos_complement(bits: u64) -> (value: i64)
    ensures
        value as int == from_twos_complement_64(bits as nat),
{
    if bits < 0x8000_0000_0000_0000u64 {
        bits as i64
    } else {
        ((bits - 0x8000_0000_0000_0000u64) as i64) + i64::MIN
    }
}

/// Writes `value` as `width` big-endian bytes at the end of `out`.
pub fn push_be(out: &mut Vec<u8>, value: u128, width: usize)
    requires
        width <= 16,
    ensures
        final(out)@ == old(out)@ + be_bytes(value as nat, width as nat),
{
    let ghost start = out@;
    let mut digits: Vec<u8> = Vec::new();
    let mut rest: u128 = value;
    let mut i: usize = 0;
    // digits holds the low-order bytes, least significant first
    while i < width
        invariant
            i <= width,
            digits@.len() == i,
            forall|w: nat| #[trigger] be_bytes(value as nat, w + i as nat) == be_bytes(rest as nat, w) + digits@.reverse(),
        decreases width - i,
    {
        let ghost prev = digits@;
        let ghost prev_rest = rest;
        digits.push((rest % 256) as u8);
        rest = rest / 256;
        i = i + 1;
        proof {
            assert forall|w: nat| #[trigger] be_bytes(value as nat, w + i as nat) == be_bytes(rest as nat, w) + digits@.reverse() by {
                assert(be_bytes(value as nat, (w + 1) + (i - 1) as nat) == be_bytes(prev_rest as nat, w + 1) + prev.reverse());
                assert(be_bytes(prev_rest as nat, w + 1) == be_bytes(rest as nat, w).push((prev_rest % 256) as u8));
                assert(digits@.reverse() =~= seq![(prev_rest % 256) as u8] + prev.reverse());
                assert(be_bytes(rest as nat, w).push((prev_rest % 256) as u8) + prev.reverse() =~= be_bytes(rest as nat, w) + digits@.reverse());
            }
        }
    }
    proof {
        assert(be_bytes(value as nat, 0 + i as nat) == be_bytes(rest as nat, 0) + digits@.reverse());
        assert(be_bytes(rest as nat, 0) + digits@.reverse() =~= digits@.reverse());
    }
    let mut j: usize = width;
    while j > 0
        invariant
            j <= width,
            digits@.len() == width,
            out@ == start + digits@.reverse().subrange(0, width - j),
        decreases j,
    {
        j = j - 1;
        out.push(digits[j]);
        proof {
            let r = digits@.reverse();
            assert(r[width - j - 1] == digits@[j as int]);
            assert(r.subrange(0, width - j) =~= r.subrange(0, width - j - 1).push(r[width - j - 1]));
        }
    }
    proof {
        assert(digits@.reverse().subrange(0, width as int) =~= digits@.reverse());
    }
}

/// Whether two byte strings hold the same bytes.
pub fn bytes_eq(a: &[u8], b: &[u8]) -> (same: bool)
    ensures
        same == (a@ == b@),
{
    if a.len() != b.len() {
        return false;
    }
    let mut i: usize = 0;
    while i < a.len()
        invariant
            i <= a.len(),
            a.len() == b.len(),
            forall|k: int| 0 <= k < i ==> a@[k] == b@[k],
        decreases a.len() - i,
    {
        if a[i] != b[i] {
            return false;
        }
        i = i + 1;
    }
    proof {
        assert(a@ =~= b@);
    }
    true
}

} // verus!
