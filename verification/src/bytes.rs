//! Bytes as they travel: numbers most significant byte first, and the XOR
//! that a frame's checksum is.

use vstd::prelude::*;

verus! {

/// The four bytes of `value`, most significant first.
pub open spec fn be_bytes(value: u32) -> Seq<u8> {
    seq![
        (value / 0x100_0000) as u8,
        (value / 0x1_0000 % 0x100) as u8,
        (value / 0x100 % 0x100) as u8,
        (value % 0x100) as u8,
    ]
}

/// The number that four bytes are, most significant first.
pub open spec fn be_value(bytes: Seq<u8>) -> u32 {
    (bytes[0] * 0x100_0000 + bytes[1] * 0x1_0000 + bytes[2] * 0x100 + bytes[3]) as u32
}

/// The three low bytes of `value`, most significant first.
pub open spec fn low_bytes(value: u32) -> Seq<u8> {
    be_bytes(value).skip(1)
}

/// The number that three bytes are, most significant first.
pub open spec fn low_value(bytes: Seq<u8>) -> u32 {
    (bytes[0] * 0x1_0000 + bytes[1] * 0x100 + bytes[2]) as u32
}

/// The XOR of all the bytes.
pub open spec fn xor_of(bytes: Seq<u8>) -> u8
    decreases bytes.len(),
{
    if bytes.len() == 0 {
        0
    } else {
        xor_of(bytes.drop_last()) ^ bytes.last()
    }
}

/// The four bytes of `value`, most significant first.
pub(crate) fn to_be(value: u32) -> (bytes: Vec<u8>)
    ensures
        bytes@ == be_bytes(value),
{
    let mut bytes: Vec<u8> = Vec::with_capacity(4);
    bytes.push((value / 0x100_0000) as u8);
    bytes.push((value / 0x1_0000 % 0x100) as u8);
    bytes.push((value / 0x100 % 0x100) as u8);
    bytes.push((value % 0x100) as u8);
    bytes
}

/// Puts the three low bytes of `value` at the end of `out`.
pub(crate) fn push_low(out: &mut Vec<u8>, value: u32)
    ensures
        final(out)@ == old(out)@ + low_bytes(value),
{
    out.push((value / 0x1_0000 % 0x100) as u8);
    out.push((value / 0x100 % 0x100) as u8);
    out.push((value % 0x100) as u8);
}

/// The number that the three bytes from `at` on are.
pub(crate) fn from_low(bytes: &[u8], at: usize) -> (value: u32)
    requires
        at + 3 <= bytes@.len(),
    ensures
        value == low_value(bytes@.subrange(at as int, at + 3)),
{
    bytes[at] as u32 * 0x1_0000 + bytes[at + 1] as u32 * 0x100 + bytes[at + 2] as u32
}

/// The number that four bytes are.
pub(crate) fn from_be(bytes: &[u8]) -> (value: u32)
    requires
        bytes@.len() == 4,
    ensures
        value == be_value(bytes@),
{
    bytes[0] as u32 * 0x100_0000 + bytes[1] as u32 * 0x1_0000 + bytes[2] as u32 * 0x100
        + bytes[3] as u32
}

/// Puts `more` at the end of `out`.
pub(crate) fn push_all(out: &mut Vec<u8>, more: &[u8])
    ensures
        final(out)@ == old(out)@ + more@,
{
    out.extend_from_slice(more);
    assert(out@ =~= old(out)@ + more@);
}

/// Four bytes read back as the number they were written from.
pub proof fn be_reads_back(value: u32)
    ensures
        be_value(be_bytes(value)) == value,
        be_bytes(value).len() == 4,
{
}

/// Three bytes read back as the number they were written from, less what
/// three bytes cannot hold.
pub proof fn low_reads_back(value: u32)
    ensures
        low_value(low_bytes(value)) == value % 0x100_0000,
        low_bytes(value).len() == 3,
{
}

/// The XOR of one byte is that byte, and of none is zero; the XOR of two runs
/// of bytes, one after the other, is the XOR of theirs.
pub proof fn xor_of_both(byte: u8, first: Seq<u8>, second: Seq<u8>)
    ensures
        xor_of(Seq::empty()) == 0,
        xor_of(seq![byte]) == byte,
        xor_of(first + second) == xor_of(first) ^ xor_of(second),
    decreases second.len(),
{
    assert(seq![byte].drop_last() =~= Seq::<u8>::empty());
    assert(xor_of(seq![byte].drop_last()) == 0);
    assert(0u8 ^ byte == byte) by (bit_vector);
    let a = xor_of(first);
    if second.len() == 0 {
        assert(first + second =~= first);
        assert(a ^ 0u8 == a) by (bit_vector);
    } else {
        xor_of_both(byte, first, second.drop_last());
        assert((first + second).drop_last() =~= first + second.drop_last());
        let b = xor_of(second.drop_last());
        let c = second.last();
        assert((a ^ b) ^ c == a ^ (b ^ c)) by (bit_vector);
    }
}

/// The bytes of a number, weighed by their places, are the number; and any
/// bytes are the number they weigh.
pub proof fn bytes_weigh_their_number(value: u32, a: u8, b: u8, c: u8, d: u8)
    ensures
        be_bytes(value).len() == 4,
        be_bytes(value)[0] * 0x100_0000 + be_bytes(value)[1] * 0x1_0000 + be_bytes(value)[2] * 0x100
            + be_bytes(value)[3] == value,
        low_bytes(value).len() == 3,
        low_bytes(value)[0] * 0x1_0000 + low_bytes(value)[1] * 0x100 + low_bytes(value)[2] == value
            % 0x100_0000,
        be_value(seq![a, b, c, d]) == a * 0x100_0000 + b * 0x1_0000 + c * 0x100 + d,
        low_value(seq![b, c, d]) == b * 0x1_0000 + c * 0x100 + d,
{
}

/// Changing one byte, and no other, changes the XOR.
pub proof fn xor_tells_one_byte(bytes: Seq<u8>, at: int, byte: u8)
    requires
        0 <= at < bytes.len(),
        bytes[at] != byte,
    ensures
        xor_of(bytes.update(at, byte)) != xor_of(bytes),
    decreases bytes.len(),
{
    let changed = bytes.update(at, byte);
    let a = xor_of(bytes.drop_last());
    let b = xor_of(changed.drop_last());
    let c = bytes.last();
    let d = changed.last();
    if at == bytes.len() - 1 {
        assert(changed.drop_last() =~= bytes.drop_last());
        assert(c != d ==> a ^ c != a ^ d) by (bit_vector);
    } else {
        assert(changed.drop_last() =~= bytes.drop_last().update(at, byte));
        xor_tells_one_byte(bytes.drop_last(), at, byte);
        assert(a != b ==> a ^ c != b ^ c) by (bit_vector);
    }
}

} // verus!
