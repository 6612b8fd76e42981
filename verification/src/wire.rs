//! Little-endian integer fields, as every multi-byte integer of the format
//! is stored.

use vstd::prelude::*;

verus! {

/// The two bytes at `at`, read as a little-endian integer.
pub open spec fn le_u16(bytes: Seq<u8>, at: int) -> u16 {
    (bytes[at] as int + 256 * (bytes[at + 1] as int)) as u16
}

/// The four bytes at `at`, read as a little-endian integer.
pub open spec fn le_u32(bytes: Seq<u8>, at: int) -> u32 {
    (bytes[at] as int + 256 * (bytes[at + 1] as int) + 65536 * (bytes[at + 2] as int) + 16777216
        * (bytes[at + 3] as int)) as u32
}

/// The four bytes that store `value` in little-endian order.
pub open spec fn u32_le_bytes(value: u32) -> Seq<u8> {
    seq![
        (value % 256) as u8,
        (value / 256 % 256) as u8,
        (value / 65536 % 256) as u8,
        (value / 16777216) as u8,
    ]
}

/// Reading back what `u32_le_bytes` wrote gives the value, wherever in a
/// buffer the four bytes stand.
pub proof fn lemma_le_u32_of_bytes(value: u32, before: Seq<u8>, after: Seq<u8>)
    ensures
        le_u32(before + u32_le_bytes(value) + after, before.len() as int) == value,
{
    let all = before + u32_le_bytes(value) + after;
    let at = before.len() as int;
    assert(all[at] == u32_le_bytes(value)[0]);
    assert(all[at + 1] == u32_le_bytes(value)[1]);
    assert(all[at + 2] == u32_le_bytes(value)[2]);
    assert(all[at + 3] == u32_le_bytes(value)[3]);
}

/// The four base-256 digits of a number below 2^32 are its four bytes.
proof fn lemma_base_256_digits(b0: int, b1: int, b2: int, b3: int)
    requires
        0 <= b0 < 256,
        0 <= b1 < 256,
        0 <= b2 < 256,
        0 <= b3 < 256,
    ensures
        0 <= b0 + 256 * b1 + 65536 * b2 + 16777216 * b3 <= u32::MAX,
        (b0 + 256 * b1 + 65536 * b2 + 16777216 * b3) % 256 == b0,
        (b0 + 256 * b1 + 65536 * b2 + 16777216 * b3) / 256 % 256 == b1,
        (b0 + 256 * b1 + 65536 * b2 + 16777216 * b3) / 65536 % 256 == b2,
        (b0 + 256 * b1 + 65536 * b2 + 16777216 * b3) / 16777216 == b3,
{
    let v = b0 + 256 * b1 + 65536 * b2 + 16777216 * b3;
    let high1 = b1 + 256 * b2 + 65536 * b3;
    let high2 = b2 + 256 * b3;
    assert(v == 256 * high1 + b0);
    assert(v / 256 == high1);
    assert(v == 65536 * high2 + (b0 + 256 * b1));
    assert(v / 65536 == high2);
    assert(v == 16777216 * b3 + (b0 + 256 * b1 + 65536 * b2));
    assert(high1 == 256 * high2 + b1);
    assert(high2 == 256 * b3 + b2);
}

/// Writing the integer read at `at` gives back the four bytes that stand
/// there.
pub proof fn lemma_bytes_of_le_u32(bytes: Seq<u8>, at: int)
    requires
        0 <= at,
        at + 4 <= bytes.len(),
    ensures
        u32_le_bytes(le_u32(bytes, at)) == bytes.subrange(at, at + 4),
{
    lemma_base_256_digits(
        bytes[at] as int,
        bytes[at + 1] as int,
        bytes[at + 2] as int,
        bytes[at + 3] as int,
    );
    assert(u32_le_bytes(le_u32(bytes, at)) =~= bytes.subrange(at, at + 4));
}

/// Reads the little-endian `u32` at `at`.
pub(crate) fn read_le_u32(bytes: &[u8], at: usize) -> (value: u32)
    requires
        at + 4 <= bytes@.len(),
    ensures
        value == le_u32(bytes@, at as int),
{
    let b0: u32 = bytes[at] as u32;
    let b1: u32 = bytes[at + 1] as u32;
    let b2: u32 = bytes[at + 2] as u32;
    let b3: u32 = bytes[at + 3] as u32;
    b0 + 256 * b1 + 65536 * b2 + 16777216 * b3
}

/// Appends the four little-endian bytes of `value` to `out`.
pub(crate) fn write_le_u32(out: &mut Vec<u8>, value: u32)
    ensures
        final(out)@ == old(out)@ + u32_le_bytes(value),
{
    out.push((value % 256) as u8);
    out.push((value / 256 % 256) as u8);
    out.push((value / 65536 % 256) as u8);
    out.push((value / 16777216) as u8);
    assert(out@ =~= old(out)@ + u32_le_bytes(value));
}

} // verus!
