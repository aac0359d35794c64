//! Byte strings: fixed-width integers, copying and concatenation.
use vstd::prelude::*;
use crate::text::starts_with;

verus! {

/// The contents of each byte string.
pub open spec fn views(list: Seq<Vec<u8>>) -> Seq<Seq<u8>> {
    list.map_values(|v: Vec<u8>| v@)
}

/// The contents of a byte string that may be absent.
pub open spec fn optional_bytes(bytes: Option<Vec<u8>>) -> Option<Seq<u8>> {
    match bytes {
        Some(b) => Some(b@),
        None => None,
    }
}

/// The byte strings laid out one after the other.
pub open spec fn concat(list: Seq<Seq<u8>>) -> Seq<u8>
    decreases list.len(),
{
    if list.len() == 0 {
        Seq::empty()
    } else {
        concat(list.drop_last()) + list.last()
    }
}

/// `x` as two bytes, the most significant first.
pub open spec fn be16(x: u16) -> Seq<u8> {
    seq![(x / 256) as u8, (x % 256) as u8]
}

/// `x` as four bytes, the most significant first.
pub open spec fn be32(x: u32) -> Seq<u8> {
    seq![
        (x / 0x100_0000) as u8,
        (x / 0x1_0000 % 256) as u8,
        (x / 256 % 256) as u8,
        (x % 256) as u8,
    ]
}

/// `x` as two bytes, the least significant first.
pub open spec fn le16(x: u16) -> Seq<u8> {
    seq![(x % 256) as u8, (x / 256) as u8]
}

/// `x` as four bytes, the least significant first.
pub open spec fn le32(x: u32) -> Seq<u8> {
    seq![
        (x % 256) as u8,
        (x / 256 % 256) as u8,
        (x / 0x1_0000 % 256) as u8,
        (x / 0x100_0000) as u8,
    ]
}

/// Appends `tail` to `out`.
pub fn append_bytes(out: &mut Vec<u8>, tail: &[u8])
    ensures
        final(out)@ == old(out)@ + tail@,
{
    let ghost before = out@;
    out.extend_from_slice(tail);
    assert(out@ =~= before + tail@);
}

/// A copy of `data[start..end]`.
pub fn copy_range(data: &[u8], start: usize, end: usize) -> (out: Vec<u8>)
    requires
        start <= end <= data@.len(),
    ensures
        out@ == data@.subrange(start as int, end as int),
{
    let mut out: Vec<u8> = Vec::new();
    append_bytes(&mut out, &data[start..end]);
    assert(out@ =~= data@.subrange(start as int, end as int));
    out
}

/// A copy of `data`.
pub fn copy_bytes(data: &[u8]) -> (out: Vec<u8>)
    ensures
        out@ == data@,
{
    let mut out: Vec<u8> = Vec::new();
    append_bytes(&mut out, data);
    assert(out@ =~= data@);
    out
}

/// Whether two byte strings are equal.
pub fn same_bytes(a: &[u8], b: &[u8]) -> (same: bool)
    ensures
        same == (a@ == b@),
{
    if a.len() != b.len() {
        return false;
    }
    let mut i: usize = 0;
    while i < a.len()
        invariant
            i <= a@.len() == b@.len(),
            forall|j: int| 0 <= j < i ==> a@[j] == b@[j],
        decreases a@.len() - i,
    {
        if a[i] != b[i] {
            return false;
        }
        i += 1;
    }
    assert(a@ =~= b@);
    true
}

/// Whether `data` begins with `head`.
pub fn same_bytes_at_start(data: &[u8], head: &[u8]) -> (same: bool)
    ensures
        same == starts_with(data@, head@),
{
    if data.len() < head.len() {
        return false;
    }
    let front = &data[0..head.len()];
    assert(front@ =~= data@.subrange(0, head@.len() as int));
    same_bytes(front, head)
}

/// Appends `x`, the most significant byte first.
pub fn push_be16(out: &mut Vec<u8>, x: u16)
    ensures
        final(out)@ == old(out)@ + be16(x),
{
    let ghost before = out@;
    out.push((x / 256) as u8);
    out.push((x % 256) as u8);
    assert(out@ =~= before + be16(x));
}

/// Appends `x`, the most significant byte first.
pub fn push_be32(out: &mut Vec<u8>, x: u32)
    ensures
        final(out)@ == old(out)@ + be32(x),
{
    let ghost before = out@;
    out.push((x / 0x100_0000) as u8);
    out.push((x / 0x1_0000 % 256) as u8);
    out.push((x / 256 % 256) as u8);
    out.push((x % 256) as u8);
    assert(out@ =~= before + be32(x));
}

/// Appends `x`, the least significant byte first.
pub fn push_le16(out: &mut Vec<u8>, x: u16)
    ensures
        final(out)@ == old(out)@ + le16(x),
{
    let ghost before = out@;
    out.push((x % 256) as u8);
    out.push((x / 256) as u8);
    assert(out@ =~= before + le16(x));
}

/// Appends `x`, the least significant byte first.
pub fn push_le32(out: &mut Vec<u8>, x: u32)
    ensures
        final(out)@ == old(out)@ + le32(x),
{
    let ghost before = out@;
    out.push((x % 256) as u8);
    out.push((x / 256 % 256) as u8);
    out.push((x / 0x1_0000 % 256) as u8);
    out.push((x / 0x100_0000) as u8);
    assert(out@ =~= before + le32(x));
}

/// The number whose two bytes stand at `at`, the least significant first.
pub fn read_le16(data: &[u8], at: usize) -> (x: u16)
    requires
        at + 2 <= data@.len(),
    ensures
        le16(x) == data@.subrange(at as int, at + 2),
{
    let low: u8 = data[at];
    let x: u16 = (data[at + 1] as u16) * 256 + (low as u16);
    assert(le16(x) =~= data@.subrange(at as int, at + 2));
    x
}

proof fn lemma_four_bytes(x: int, b0: int, b1: int, b2: int, b3: int)
    requires
        0 <= b0 < 256,
        0 <= b1 < 256,
        0 <= b2 < 256,
        0 <= b3 < 256,
        x == b3 * 0x100_0000 + b2 * 0x1_0000 + b1 * 256 + b0,
    ensures
        x % 256 == b0,
        x / 256 % 256 == b1,
        x / 0x1_0000 % 256 == b2,
        x / 0x100_0000 == b3,
{
    assert(x / 256 == b3 * 0x1_0000 + b2 * 256 + b1);
    assert(x / 0x1_0000 == b3 * 256 + b2);
}

/// The number whose four bytes stand at `at`, the least significant first.
pub fn read_le32(data: &[u8], at: usize) -> (x: u32)
    requires
        at + 4 <= data@.len(),
    ensures
        le32(x) == data@.subrange(at as int, at + 4),
{
    let b0: u32 = data[at] as u32;
    let b1: u32 = data[at + 1] as u32;
    let b2: u32 = data[at + 2] as u32;
    let b3: u32 = data[at + 3] as u32;
    let x: u32 = b3 * 0x100_0000 + b2 * 0x1_0000 + b1 * 256 + b0;
    proof {
        lemma_four_bytes(x as int, b0 as int, b1 as int, b2 as int, b3 as int);
    }
    assert(le32(x) =~= data@.subrange(at as int, at + 4));
    x
}

/// The number whose four bytes stand at `at`, the most significant first.
pub fn read_be32(data: &[u8], at: usize) -> (x: u32)
    requires
        at + 4 <= data@.len(),
    ensures
        be32(x) == data@.subrange(at as int, at + 4),
{
    let b3: u32 = data[at] as u32;
    let b2: u32 = data[at + 1] as u32;
    let b1: u32 = data[at + 2] as u32;
    let b0: u32 = data[at + 3] as u32;
    let x: u32 = b3 * 0x100_0000 + b2 * 0x1_0000 + b1 * 256 + b0;
    proof {
        lemma_four_bytes(x as int, b0 as int, b1 as int, b2 as int, b3 as int);
    }
    assert(be32(x) =~= data@.subrange(at as int, at + 4));
    x
}

/// The bytes of a number determine it.
pub proof fn integer_bytes_are_distinct(a: u16, b: u16, x: u32, y: u32)
    ensures
        be16(a) == be16(b) ==> a == b,
        le16(a) == le16(b) ==> a == b,
        be32(x) == be32(y) ==> x == y,
        le32(x) == le32(y) ==> x == y,
{
    if be16(a) == be16(b) {
        assert(be16(a)[0] == be16(b)[0] && be16(a)[1] == be16(b)[1]);
    }
    if le16(a) == le16(b) {
        assert(le16(a)[0] == le16(b)[0] && le16(a)[1] == le16(b)[1]);
    }
    if be32(x) == be32(y) {
        let p = be32(x);
        let q = be32(y);
        assert(p[0] == q[0] && p[1] == q[1] && p[2] == q[2] && p[3] == q[3]);
        lemma_four_parts(x);
        lemma_four_parts(y);
    }
    if le32(x) == le32(y) {
        let p = le32(x);
        let q = le32(y);
        assert(p[0] == q[0] && p[1] == q[1] && p[2] == q[2] && p[3] == q[3]);
        lemma_four_parts(x);
        lemma_four_parts(y);
    }
}

proof fn lemma_four_parts(x: u32)
    ensures
        x == (x / 0x100_0000) * 0x100_0000 + (x / 0x1_0000 % 256) * 0x1_0000 + (x / 256 % 256) * 256
            + x % 256,
        x / 0x100_0000 < 256,
{
    assert(x / 256 / 256 == x / 0x1_0000);
    assert(x / 0x1_0000 / 256 == x / 0x100_0000);
}

/// Concatenation distributes over appending lists.
pub proof fn lemma_concat_append(a: Seq<Seq<u8>>, b: Seq<Seq<u8>>)
    ensures
        concat(a + b) == concat(a) + concat(b),
    decreases b.len(),
{
    if b.len() == 0 {
        assert(a + b =~= a);
        assert(concat(a) + concat(b) =~= concat(a));
    } else {
        assert((a + b).drop_last() =~= a + b.drop_last());
        lemma_concat_append(a, b.drop_last());
        assert(concat(a + b) =~= concat(a) + concat(b));
    }
}

/// The bytes of a number, weighed by their places, add up to it.
pub(crate) proof fn lemma_integer_bytes(a: u16, x: u32)
    ensures
        be16(a)[0] * 256 + be16(a)[1] == a,
        le16(a)[1] * 256 + le16(a)[0] == a,
        be32(x)[0] * 0x100_0000 + be32(x)[1] * 0x1_0000 + be32(x)[2] * 256 + be32(x)[3] == x,
        le32(x)[3] * 0x100_0000 + le32(x)[2] * 0x1_0000 + le32(x)[1] * 256 + le32(x)[0] == x,
{
    lemma_four_parts(x);
}

} // verus!
