//! Unsigned 64-bit integers as eight bytes, most significant byte first.

use vstd::prelude::*;

verus! {

/// The number that a byte string denotes when its bytes are read as base-256
/// digits, most significant digit first.
pub open spec fn be_value(bytes: Seq<u8>) -> nat
    decreases bytes.len(),
{
    if bytes.len() == 0 {
        0
    } else {
        256 * be_value(bytes.drop_last()) + bytes.last() as nat
    }
}

/// The last `width` base-256 digits of `value`, most significant digit first.
pub open spec fn be_digits(value: nat, width: nat) -> Seq<u8>
    decreases width,
{
    if width == 0 {
        Seq::empty()
    } else {
        be_digits(value / 256, (width - 1) as nat).push((value % 256) as u8)
    }
}

/// 256 to the power `n`: the number of byte strings of length `n`.
pub open spec fn radix_power(n: nat) -> nat
    decreases n,
{
    if n == 0 {
        1
    } else {
        256 * radix_power((n - 1) as nat)
    }
}

/// The eight bytes that carry a `u64` on the wire.
pub open spec fn u64_be(value: u64) -> Seq<u8> {
    be_digits(value as nat, 8)
}

/// A numeral has as many digits as its width.
pub proof fn lemma_be_digits_len(value: nat, width: nat)
    ensures
        be_digits(value, width).len() == width,
    decreases width,
{
    if width > 0 {
        lemma_be_digits_len(value / 256, (width - 1) as nat);
    }
}

/// A byte string of length `n` denotes a number below 256 to the `n`.
pub proof fn lemma_be_value_bound(bytes: Seq<u8>)
    ensures
        be_value(bytes) < radix_power(bytes.len()),
    decreases bytes.len(),
{
    if bytes.len() > 0 {
        lemma_be_value_bound(bytes.drop_last());
    }
}

/// Eight bytes denote a number that a `u64` holds.
pub proof fn lemma_be_value_fits_u64(bytes: Seq<u8>)
    requires
        bytes.len() <= 8,
    ensures
        be_value(bytes) <= u64::MAX,
        bytes.len() < 8 ==> be_value(bytes) < 0x0100_0000_0000_0000,
{
    lemma_be_value_bound(bytes);
    reveal_with_fuel(radix_power, 9);
}

/// Writing a number that fits in `width` digits and reading the digits back
/// gives the number.
pub proof fn lemma_value_of_digits(value: nat, width: nat)
    requires
        value < radix_power(width),
    ensures
        be_value(be_digits(value, width)) == value,
    decreases width,
{
    if width > 0 {
        let rest = be_digits(value / 256, (width - 1) as nat);
        lemma_value_of_digits(value / 256, (width - 1) as nat);
        assert(rest.push((value % 256) as u8).drop_last() =~= rest);
    }
}

/// The eight-byte encoding of a `u64` is eight bytes long and denotes it.
pub proof fn lemma_u64_be_round_trip(value: u64)
    ensures
        u64_be(value).len() == 8,
        be_value(u64_be(value)) == value,
{
    lemma_be_digits_len(value as nat, 8);
    reveal_with_fuel(radix_power, 9);
    lemma_value_of_digits(value as nat, 8);
}

/// Reads the eight bytes of `data` that start at `start` as a big-endian
/// number.
pub fn read_u64(data: &Vec<u8>, start: usize) -> (value: u64)
    requires
        start + 8 <= data.len(),
    ensures
        value == be_value(data@.subrange(start as int, start + 8)),
{
    let mut value: u64 = 0;
    let mut taken: usize = 0;
    while taken < 8
        invariant
            taken <= 8,
            start + 8 <= data.len(),
            value == be_value(data@.subrange(start as int, start + taken)),
        decreases 8 - taken,
    {
        let ghost before = data@.subrange(start as int, start + taken);
        let ghost after = data@.subrange(start as int, start + taken + 1);
        proof {
            lemma_be_value_fits_u64(before);
            assert(after.drop_last() =~= before);
        }
        value = value * 256 + data[start + taken] as u64;
        taken = taken + 1;
    }
    value
}

/// Appends the eight big-endian bytes of `value` to `out`.
pub fn write_u64(out: &mut Vec<u8>, value: u64)
    ensures
        final(out)@ == old(out)@ + u64_be(value),
{
    let r1: u64 = value / 256;
    let r2: u64 = r1 / 256;
    let r3: u64 = r2 / 256;
    let r4: u64 = r3 / 256;
    let r5: u64 = r4 / 256;
    let r6: u64 = r5 / 256;
    let r7: u64 = r6 / 256;
    out.push((r7 % 256) as u8);
    out.push((r6 % 256) as u8);
    out.push((r5 % 256) as u8);
    out.push((r4 % 256) as u8);
    out.push((r3 % 256) as u8);
    out.push((r2 % 256) as u8);
    out.push((r1 % 256) as u8);
    out.push((value % 256) as u8);
    proof {
        reveal_with_fuel(be_digits, 9);
        assert(out@ =~= old(out)@ + u64_be(value));
    }
}

} // verus!
