//! Little-endian integers inside byte strings.
//!
//! Every packet this stack builds or reads is little-endian, so the same few
//! facts about two, three and four byte fields are needed everywhere.

use vstd::prelude::*;
use vstd::slice::slice_subrange;

verus! {

/// The two bytes of `value`, low byte first.
pub open spec fn le16(value: u16) -> Seq<u8> {
    seq![(value % 256) as u8, (value / 256) as u8]
}

/// The three low bytes of `value`, low byte first.
pub open spec fn le24(value: u32) -> Seq<u8> {
    seq![(value % 256) as u8, (value / 256 % 256) as u8, (value / 65536 % 256) as u8]
}

/// The four bytes of `value`, low byte first.
pub open spec fn le32(value: u32) -> Seq<u8> {
    seq![
        (value % 256) as u8,
        (value / 256 % 256) as u8,
        (value / 65536 % 256) as u8,
        (value / 16777216) as u8,
    ]
}

/// The 16-bit field that starts at `at`.
pub open spec fn u16_at(data: Seq<u8>, at: int) -> u16 {
    (data[at] + 256 * data[at + 1]) as u16
}

/// The 24-bit field that starts at `at`.
pub open spec fn u24_at(data: Seq<u8>, at: int) -> u32 {
    (data[at] + 256 * data[at + 1] + 65536 * data[at + 2]) as u32
}

/// The 32-bit field that starts at `at`.
pub open spec fn u32_at(data: Seq<u8>, at: int) -> u32 {
    (data[at] + 256 * data[at + 1] + 65536 * data[at + 2] + 16777216 * data[at + 3]) as u32
}

/// `data` cut into pieces of exactly `size` bytes; a shorter tail is left out.
pub open spec fn records(data: Seq<u8>, size: nat) -> Seq<Seq<u8>>
    decreases data.len(),
{
    if size == 0 || data.len() < size {
        Seq::empty()
    } else {
        seq![data.take(size as int)] + records(data.skip(size as int), size)
    }
}

/// What the byte vectors in `list` hold.
pub open spec fn views(list: Seq<Vec<u8>>) -> Seq<Seq<u8>> {
    Seq::new(list.len(), |i: int| list[i]@)
}

/// A 16-bit value is read back from its two bytes.
pub proof fn lemma_u16_round_trip(value: u16)
    ensures
        u16_at(le16(value), 0) == value,
{
}

/// A 24-bit value is read back from its three bytes.
pub proof fn lemma_u24_round_trip(value: u32)
    requires
        value < 0x100_0000,
    ensures
        u24_at(le24(value), 0) == value,
{
}

/// A 32-bit value is read back from its four bytes.
pub proof fn lemma_u32_round_trip(value: u32)
    ensures
        u32_at(le32(value), 0) == value,
{
}

/// Reads the 16-bit field at `at`.
pub fn read_u16(data: &[u8], at: usize) -> (value: u16)
    requires
        at + 1 < data@.len(),
    ensures
        value == u16_at(data@, at as int),
{
    data[at] as u16 + 256 * (data[at + 1] as u16)
}

/// Reads the 24-bit field at `at`.
pub fn read_u24(data: &[u8], at: usize) -> (value: u32)
    requires
        at + 2 < data@.len(),
    ensures
        value == u24_at(data@, at as int),
{
    data[at] as u32 + 256 * (data[at + 1] as u32) + 65536 * (data[at + 2] as u32)
}

/// Reads the 32-bit field at `at`.
pub fn read_u32(data: &[u8], at: usize) -> (value: u32)
    requires
        at + 3 < data@.len(),
    ensures
        value == u32_at(data@, at as int),
{
    data[at] as u32 + 256 * (data[at + 1] as u32) + 65536 * (data[at + 2] as u32) + 16777216 * (
    data[at + 3] as u32)
}

/// Appends a 16-bit field.
pub fn push_u16(out: &mut Vec<u8>, value: u16)
    ensures
        final(out)@ == old(out)@ + le16(value),
{
    out.push((value % 256) as u8);
    out.push((value / 256) as u8);
    assert(out@ =~= old(out)@ + le16(value));
}

/// Appends the three low bytes of `value`.
pub fn push_u24(out: &mut Vec<u8>, value: u32)
    ensures
        final(out)@ == old(out)@ + le24(value),
{
    out.push((value % 256) as u8);
    out.push((value / 256 % 256) as u8);
    out.push((value / 65536 % 256) as u8);
    assert(out@ =~= old(out)@ + le24(value));
}

/// Appends a 32-bit field.
pub fn push_u32(out: &mut Vec<u8>, value: u32)
    ensures
        final(out)@ == old(out)@ + le32(value),
{
    out.push((value % 256) as u8);
    out.push((value / 256 % 256) as u8);
    out.push((value / 65536 % 256) as u8);
    out.push((value / 16777216) as u8);
    assert(out@ =~= old(out)@ + le32(value));
}

/// Appends a run of bytes.
pub fn push_bytes(out: &mut Vec<u8>, data: &[u8])
    ensures
        final(out)@ == old(out)@ + data@,
{
    out.extend_from_slice(data);
    assert(out@ =~= old(out)@ + data@);
}

/// The bytes from `from` to the end.
pub fn tail(data: &[u8], from: usize) -> (rest: &[u8])
    requires
        from <= data@.len(),
    ensures
        rest@ == data@.skip(from as int),
{
    let rest = slice_subrange(data, from, data.len());
    assert(rest@ =~= data@.skip(from as int));
    rest
}

/// The bytes from `from` up to but not including `to`.
pub fn range(data: &[u8], from: usize, to: usize) -> (part: &[u8])
    requires
        from <= to <= data@.len(),
    ensures
        part@ == data@.subrange(from as int, to as int),
{
    slice_subrange(data, from, to)
}

/// A fresh vector with the same bytes.
pub fn copy_bytes(data: &[u8]) -> (out: Vec<u8>)
    ensures
        out@ == data@,
{
    let mut out: Vec<u8> = Vec::new();
    push_bytes(&mut out, data);
    assert(out@ =~= data@);
    out
}

/// Whether two byte strings are equal.
pub fn same_bytes(a: &[u8], b: &[u8]) -> (same: bool)
    ensures
        same == (a@ == b@),
{
    if a.len() != b.len() {
        return false;
    }
    let mut i: usize = 0;
    while i < a.len()
        invariant
            i <= a@.len(),
            a@.len() == b@.len(),
            forall|j: int| 0 <= j < i ==> a@[j] == b@[j],
        decreases a@.len() - i,
    {
        if a[i] != b[i] {
            return false;
        }
        i = i + 1;
    }
    assert(a@ =~= b@);
    true
}

/// The low byte comes first: a field is worth its first byte, 256 times its
/// second, 65536 times its third and so on.
pub proof fn the_low_byte_comes_first(short: u16, long: u32)
    ensures
        le16(short).len() == 2 && le16(short)[0] + 256 * le16(short)[1] == short,
        le24(long).len() == 3 && le24(long)[0] + 256 * le24(long)[1] + 65536 * le24(long)[2] == long
            % 0x100_0000,
        le32(long).len() == 4 && le32(long)[0] + 256 * le32(long)[1] + 65536 * le32(long)[2]
            + 16777216 * le32(long)[3] == long,
{
}

} // verus!
