//! H.264 byte streams in Annex B form: start codes, NAL units and access units.
use vstd::prelude::*;
use vstd::arithmetic::power2::pow2;
use crate::bytes::{append_bytes, concat, copy_range, views};

verus! {

// ---------------------------------------------------------------------------
// Start codes and NAL units
// ---------------------------------------------------------------------------
/// The three-byte start code `00 00 01` stands at `i`.
pub open spec fn short_code_at(data: Seq<u8>, i: int) -> bool {
    &&& 0 <= i
    &&& i + 3 <= data.len()
    &&& data[i] == 0
    &&& data[i + 1] == 0
    &&& data[i + 2] == 1
}

/// The four-byte start code `00 00 00 01` stands at `i`.
pub open spec fn long_code_at(data: Seq<u8>, i: int) -> bool {
    &&& 0 <= i
    &&& i + 4 <= data.len()
    &&& data[i] == 0
    &&& data[i + 1] == 0
    &&& data[i + 2] == 0
    &&& data[i + 3] == 1
}

/// A start code begins at `i`: a long one, or a short one that is not the tail
/// of a long one.
pub open spec fn starts_unit(data: Seq<u8>, i: int) -> bool {
    long_code_at(data, i) || (short_code_at(data, i) && !long_code_at(data, i - 1))
}

/// The positions below `n` at which a start code begins, in increasing order.
pub open spec fn starts_below(data: Seq<u8>, n: int) -> Seq<usize>
    decreases n,
{
    if n <= 0 {
        Seq::empty()
    } else if starts_unit(data, n - 1) {
        starts_below(data, n - 1).push((n - 1) as usize)
    } else {
        starts_below(data, n - 1)
    }
}

/// The positions at which a start code begins, in increasing order.
pub open spec fn start_codes(data: Seq<u8>) -> Seq<usize> {
    starts_below(data, data.len() as int)
}

/// The bytes from the `k`-th start code up to the next one, or to the end.
pub open spec fn nal_unit(data: Seq<u8>, k: int) -> Seq<u8> {
    let starts = start_codes(data);
    data.subrange(
        starts[k] as int,
        if k + 1 < starts.len() {
            starts[k + 1] as int
        } else {
            data.len() as int
        },
    )
}

/// The NAL units of `data`, each with its start code.
pub open spec fn nal_units(data: Seq<u8>) -> Seq<Seq<u8>> {
    Seq::new(start_codes(data).len(), |k: int| nal_unit(data, k))
}

fn has_short_code(data: &[u8], at: usize) -> (found: bool)
    requires
        at <= data@.len(),
    ensures
        found == short_code_at(data@, at as int),
{
    data.len() - at >= 3 && data[at] == 0 && data[at + 1] == 0 && data[at + 2] == 1
}

fn has_long_code(data: &[u8], at: usize) -> (found: bool)
    requires
        at <= data@.len(),
    ensures
        found == long_code_at(data@, at as int),
{
    data.len() - at >= 4 && data[at] == 0 && data[at + 1] == 0 && data[at + 2] == 0 && data[at + 3]
        == 1
}

proof fn lemma_no_starts(data: Seq<u8>, from: int, to: int)
    requires
        0 <= from <= to,
        forall|i: int| from <= i < to ==> !starts_unit(data, i),
    ensures
        starts_below(data, to) == starts_below(data, from),
    decreases to - from,
{
    if from < to {
        lemma_no_starts(data, from, to - 1);
    }
}

/// The positions at which a start code begins.
pub fn annex_b_start_codes(data: &[u8]) -> (starts: Vec<usize>)
    ensures
        starts@ == start_codes(data@),
{
    let total: usize = data.len();
    let mut starts: Vec<usize> = Vec::new();
    let mut index: usize = 0;
    while total >= 3 && index <= total - 3
        invariant
            index <= total == data@.len(),
            starts@ == starts_below(data@, index as int),
            !long_code_at(data@, index - 1),
        decreases total - index,
    {
        if has_short_code(data, index) {
            starts.push(index);
            proof {
                lemma_no_starts(data@, index + 1, index + 3);
            }
            index += 3;
        } else if has_long_code(data, index) {
            starts.push(index);
            proof {
                assert(starts_unit(data@, index as int));
                lemma_no_starts(data@, index + 1, index + 4);
            }
            index += 4;
        } else {
            index += 1;
        }
    }
    proof {
        lemma_no_starts(data@, index as int, total as int);
    }
    starts
}

pub(crate) proof fn lemma_starts_below(data: Seq<u8>, n: int)
    requires
        n <= data.len() <= usize::MAX,
    ensures
        forall|k: int|
            0 <= k < starts_below(data, n).len() ==> 0 <= #[trigger] starts_below(data, n)[k] < n
                && starts_unit(data, starts_below(data, n)[k] as int),
        forall|j: int, k: int|
            0 <= j < k < starts_below(data, n).len() ==> starts_below(data, n)[j] < starts_below(
                data,
                n,
            )[k],
        forall|i: int|
            0 <= i < n && #[trigger] starts_unit(data, i) ==> starts_below(data, n).contains(
                i as usize,
            ),
    decreases n,
{
    if n > 0 {
        lemma_starts_below(data, n - 1);
        let shorter = starts_below(data, n - 1);
        let all = starts_below(data, n);
        assert forall|i: int| 0 <= i < n && #[trigger] starts_unit(data, i) implies all.contains(
            i as usize,
        ) by {
            if i == n - 1 {
                assert(all[all.len() - 1] == i);
            } else {
                let k = choose|k: int| 0 <= k < shorter.len() && shorter[k] == i as usize;
                assert(all[k] == i as usize);
            }
        }
    }
}

/// Start codes are reported at increasing positions, at every position where one
/// begins and nowhere else.
pub proof fn start_codes_are_exactly_the_starts(data: Seq<u8>)
    requires
        data.len() <= usize::MAX,
    ensures
        forall|j: int, k: int|
            0 <= j < k < start_codes(data).len() ==> start_codes(data)[j] < start_codes(data)[k],
        forall|i: int|
            0 <= i < data.len() ==> (#[trigger] starts_unit(data, i) <==> start_codes(
                data,
            ).contains(i as usize)),
{
    lemma_starts_below(data, data.len() as int);
}

/// Splits `data` at its start codes; what stands before the first is dropped.
pub fn split_annex_b_units(data: &[u8]) -> (units: Vec<Vec<u8>>)
    ensures
        views(units@) == nal_units(data@),
{
    let starts = annex_b_start_codes(data);
    let total: usize = data.len();
    proof {
        lemma_starts_below(data@, data@.len() as int);
    }
    let mut units: Vec<Vec<u8>> = Vec::new();
    let mut index: usize = 0;
    while index < starts.len()
        invariant
            total == data@.len(),
            starts@ == start_codes(data@),
            index <= starts@.len(),
            views(units@) =~= nal_units(data@).take(index as int),
            forall|k: int| 0 <= k < starts@.len() ==> 0 <= #[trigger] starts@[k] < data@.len(),
            forall|j: int, k: int| 0 <= j < k < starts@.len() ==> starts@[j] < starts@[k],
        decreases starts@.len() - index,
    {
        let end: usize = if index + 1 < starts.len() {
            starts[index + 1]
        } else {
            total
        };
        let unit = copy_range(data, starts[index], end);
        let ghost before = units@;
        units.push(unit);
        assert(views(units@) =~= views(before).push(nal_unit(data@, index as int)));
        index += 1;
    }
    units
}

/// The number of start codes in `data`.
pub fn h264_nal_unit_count(data: &[u8]) -> (count: usize)
    ensures
        count == nal_units(data@).len(),
{
    let starts = annex_b_start_codes(data);
    starts.len()
}

/// The position at which the `k`-th unit begins, or the end of the data.
spec fn unit_bound(data: Seq<u8>, k: int) -> int {
    if k < start_codes(data).len() {
        start_codes(data)[k] as int
    } else {
        data.len() as int
    }
}

proof fn lemma_units_join(data: Seq<u8>, a: int, b: int)
    requires
        data.len() <= usize::MAX,
        0 <= a <= b <= nal_units(data).len(),
        a < nal_units(data).len(),
    ensures
        0 <= unit_bound(data, a) <= unit_bound(data, b) <= data.len(),
        concat(nal_units(data).subrange(a, b)) == data.subrange(
            unit_bound(data, a),
            unit_bound(data, b),
        ),
    decreases b - a,
{
    let units = nal_units(data);
    lemma_starts_below(data, data.len() as int);
    if a == b {
        assert(units.subrange(a, a) =~= Seq::empty());
        assert(concat(units.subrange(a, a)) =~= data.subrange(
            unit_bound(data, a),
            unit_bound(data, a),
        ));
    } else {
        lemma_units_join(data, a, b - 1);
        assert(units.subrange(a, b).drop_last() =~= units.subrange(a, b - 1));
        assert(units.subrange(a, b).last() == nal_unit(data, b - 1));
        assert(concat(units.subrange(a, b)) =~= data.subrange(
            unit_bound(data, a),
            unit_bound(data, b),
        ));
    }
}

/// The NAL units, laid out one after the other, are the data from its first
/// start code on: nothing is lost, moved or repeated.
pub proof fn nal_units_cover_the_data(data: Seq<u8>)
    requires
        data.len() <= usize::MAX,
    ensures
        nal_units(data).len() > 0 ==> concat(nal_units(data)) == data.skip(
            start_codes(data)[0] as int,
        ),
{
    let units = nal_units(data);
    if units.len() > 0 {
        lemma_units_join(data, 0, units.len() as int);
        assert(units.subrange(0, units.len() as int) =~= units);
        assert(data.subrange(start_codes(data)[0] as int, data.len() as int) =~= data.skip(
            start_codes(data)[0] as int,
        ));
    }
}

/// The number of positions below `n` at which the bytes `00 00 01` stand.
pub open spec fn short_codes_below(data: Seq<u8>, n: int) -> nat
    decreases n,
{
    if n <= 0 {
        0
    } else {
        short_codes_below(data, n - 1) + if short_code_at(data, n - 1) {
            1nat
        } else {
            0
        }
    }
}

proof fn lemma_short_codes(data: Seq<u8>, n: int)
    requires
        0 <= n <= data.len(),
    ensures
        starts_below(data, n).len() == short_codes_below(data, n) + if long_code_at(data, n - 1) {
            1nat
        } else {
            0
        },
    decreases n,
{
    if n > 0 {
        lemma_short_codes(data, n - 1);
    }
}

/// There are as many NAL units as there are places where `00 00 01` stands: a long
/// start code counts once.
pub proof fn nal_units_are_counted_by_their_codes(data: Seq<u8>)
    ensures
        nal_units(data).len() == short_codes_below(data, data.len() as int),
{
    lemma_short_codes(data, data.len() as int);
}

proof fn lemma_starts_prefix(data: Seq<u8>, from: int, to: int)
    requires
        0 <= from <= to,
    ensures
        starts_below(data, from).len() <= starts_below(data, to).len(),
        starts_below(data, to).take(starts_below(data, from).len() as int) == starts_below(
            data,
            from,
        ),
    decreases to - from,
{
    if from < to {
        lemma_starts_prefix(data, from, to - 1);
        let n = starts_below(data, from).len() as int;
        assert(starts_below(data, to).take(n) =~= starts_below(data, to - 1).take(n));
    } else {
        assert(starts_below(data, to).take(starts_below(data, to).len() as int) =~= starts_below(
            data,
            to,
        ));
    }
}

proof fn lemma_starts_before_unit(data: Seq<u8>, k: int)
    requires
        data.len() <= usize::MAX,
        0 <= k <= start_codes(data).len(),
    ensures
        0 <= unit_bound(data, k) <= data.len(),
        starts_below(data, unit_bound(data, k)) == start_codes(data).take(k),
{
    let starts = start_codes(data);
    lemma_starts_below(data, data.len() as int);
    if k == starts.len() {
        assert(starts.take(k) =~= starts);
    } else {
        let p = starts[k] as int;
        let below = starts_below(data, p);
        let m = below.len() as int;
        lemma_starts_below(data, p);
        lemma_starts_prefix(data, p, data.len() as int);
        if m > k {
            assert(starts.take(m)[k] == below[k]);
        }
        if m < k {
            assert(starts_unit(data, starts[m] as int));
            let j = choose|j: int| 0 <= j < below.len() && below[j] == starts[m];
            assert(starts.take(m)[j] == below[j]);
        }
    }
}

/// From one start code up to another, or to the end, start codes begin where they
/// do in the whole: none is cut and none is made.
proof fn lemma_part_starts_unit(data: Seq<u8>, s: int, e: int, i: int)
    requires
        0 <= s <= e <= data.len(),
        starts_unit(data, s),
        e == data.len() || starts_unit(data, e),
        0 <= i < e - s,
    ensures
        starts_unit(data.subrange(s, e), i) == starts_unit(data, s + i),
{
    let part = data.subrange(s, e);
    assert forall|j: int| 0 <= j < e - s implies #[trigger] part[j] == data[s + j] by {}
    if i > 0 {
        assert(long_code_at(data, s + i - 1) ==> starts_unit(data, s + i - 1));
        assert(long_code_at(part, i - 1) == long_code_at(data, s + i - 1));
    }
}

proof fn lemma_part_starts(data: Seq<u8>, s: int, e: int, n: int)
    requires
        data.len() <= usize::MAX,
        0 <= s <= e <= data.len(),
        starts_unit(data, s),
        e == data.len() || starts_unit(data, e),
        0 <= n <= e - s,
    ensures
        starts_below(data, s + n).len() == starts_below(data, s).len() + starts_below(
            data.subrange(s, e),
            n,
        ).len(),
        forall|k: int|
            0 <= k < starts_below(data.subrange(s, e), n).len() ==> starts_below(data, s + n)[(
            starts_below(data, s).len() + k)] == s + #[trigger] starts_below(
                data.subrange(s, e),
                n,
            )[k],
    decreases n,
{
    if n > 0 {
        lemma_part_starts(data, s, e, n - 1);
        lemma_part_starts_unit(data, s, e, n - 1);
    }
}

/// The units from the `a`-th up to the `b`-th, laid out one after the other, split
/// into those units again.
proof fn lemma_units_of_part(data: Seq<u8>, a: int, b: int)
    requires
        data.len() <= usize::MAX,
        0 <= a < b <= nal_units(data).len(),
    ensures
        nal_units(concat(nal_units(data).subrange(a, b))) == nal_units(data).subrange(a, b),
{
    let starts = start_codes(data);
    let s = unit_bound(data, a);
    let e = unit_bound(data, b);
    let part = data.subrange(s, e);
    lemma_units_join(data, a, b);
    lemma_starts_below(data, data.len() as int);
    lemma_starts_before_unit(data, a);
    lemma_starts_before_unit(data, b);
    lemma_part_starts(data, s, e, e - s);
    let inner = start_codes(part);
    assert(inner.len() == b - a);
    assert forall|k: int| 0 <= k < inner.len() implies s + #[trigger] inner[k] == starts[a
        + k] by {
        assert(starts_below(data, e)[a + k] == s + inner[k]);
        assert(starts.take(b)[a + k] == starts[a + k]);
    }
    assert forall|k: int| 0 <= k < inner.len() implies #[trigger] nal_unit(part, k) == nal_unit(
        data,
        a + k,
    ) by {
        assert(s + inner[k] == starts[a + k]);
        if k + 1 < inner.len() {
            assert(s + inner[k + 1] == starts[a + k + 1]);
        }
        assert(nal_unit(part, k) =~= nal_unit(data, a + k));
    }
    assert(nal_units(part) =~= nal_units(data).subrange(a, b));
}

/// A NAL unit holds one start code, at its beginning: it is one unit, itself. A zero
/// byte right before `00 00 01` belongs to that start code, not to the unit before.
pub proof fn nal_units_hold_one_start_code(data: Seq<u8>, k: int)
    requires
        data.len() <= usize::MAX,
        0 <= k < nal_units(data).len(),
    ensures
        nal_units(nal_units(data)[k]) == seq![nal_units(data)[k]],
        start_codes(nal_units(data)[k]) == seq![0usize],
        short_codes_below(nal_units(data)[k], nal_units(data)[k].len() as int) == 1,
        begins_with_code(nal_units(data)[k]),
        start_codes(data)[k] > 0 && short_code_at(nal_units(data)[k], 0)
            ==> data[start_codes(data)[k] - 1] != 0,
{
    let unit = nal_units(data)[k];
    let one = nal_units(data).subrange(k, k + 1);
    lemma_starts_below(data, data.len() as int);
    assert(one =~= seq![unit]);
    assert(one.drop_last() =~= Seq::<Seq<u8>>::empty());
    assert(concat(Seq::<Seq<u8>>::empty()) =~= Seq::<u8>::empty());
    assert(concat(one) =~= unit);
    lemma_units_of_part(data, k, k + 1);
    lemma_unit_begins_with_code(data, k);
    lemma_starts_below(unit, unit.len() as int);
    assert(starts_unit(unit, 0));
    assert(start_codes(unit) =~= seq![0usize]);
    nal_units_are_counted_by_their_codes(unit);
}

/// NAL units that are laid out one after the other split into the same units again.
pub proof fn joined_nal_units_split_again(data: Seq<u8>)
    requires
        data.len() <= usize::MAX,
    ensures
        nal_units(concat(nal_units(data))) == nal_units(data),
{
    let units = nal_units(data);
    if units.len() > 0 {
        lemma_units_of_part(data, 0, units.len() as int);
        assert(units.subrange(0, units.len() as int) =~= units);
    } else {
        assert(units =~= Seq::empty());
        assert(nal_units(concat(units)) =~= units);
    }
}

// ---------------------------------------------------------------------------
// NAL unit contents
// ---------------------------------------------------------------------------
/// The number of bytes of the start code that `unit` begins with.
pub open spec fn header_offset(unit: Seq<u8>) -> Option<nat> {
    if long_code_at(unit, 0) {
        Some(4)
    } else if short_code_at(unit, 0) {
        Some(3)
    } else {
        None
    }
}

/// The type that the header byte after the start code names.
pub open spec fn unit_type(unit: Seq<u8>) -> Option<u8> {
    match header_offset(unit) {
        Some(n) if n < unit.len() => Some((unit[n as int] % 32) as u8),
        _ => None,
    }
}

/// The number of bytes of the start code that `unit` begins with.
pub fn nal_header_offset(unit: &[u8]) -> (offset: Option<usize>)
    ensures
        match offset {
            Some(n) => header_offset(unit@) == Some(n as nat),
            None => header_offset(unit@) is None,
        },
{
    if has_long_code(unit, 0) {
        Some(4)
    } else if has_short_code(unit, 0) {
        Some(3)
    } else {
        None
    }
}

/// The type of a NAL unit, from the low five bits of its header byte.
pub fn nal_unit_type(unit: &[u8]) -> (kind: Option<u8>)
    ensures
        kind == unit_type(unit@),
{
    match nal_header_offset(unit) {
        Some(offset) => {
            if offset < unit.len() {
                let header: u8 = unit[offset];
                assert(header & 0x1f == header % 32) by (bit_vector);
                Some(header & 0x1f)
            } else {
                None
            }
        },
        None => None,
    }
}

/// The payload without its emulation prevention bytes, and the number of zero
/// bytes that it ends with, counted since the last byte taken out.
pub open spec fn rbsp_scan(payload: Seq<u8>) -> (Seq<u8>, nat)
    decreases payload.len(),
{
    if payload.len() == 0 {
        (Seq::empty(), 0)
    } else {
        let (kept, zeros) = rbsp_scan(payload.drop_last());
        let byte = payload.last();
        if zeros >= 2 && byte == 3 {
            (kept, 0)
        } else {
            (
                kept.push(byte),
                if byte == 0 {
                    zeros + 1
                } else {
                    0
                },
            )
        }
    }
}

/// The payload without each `03` that follows two zero bytes.
pub open spec fn rbsp(payload: Seq<u8>) -> Seq<u8> {
    rbsp_scan(payload).0
}

/// Takes the emulation prevention bytes out of a NAL unit's payload.
pub fn rbsp_without_emulation_prevention(payload: &[u8]) -> (out: Vec<u8>)
    ensures
        out@ == rbsp(payload@),
{
    let mut out: Vec<u8> = Vec::new();
    let mut zero_run: u8 = 0;
    let mut i: usize = 0;
    while i < payload.len()
        invariant
            i <= payload@.len(),
            out@ == rbsp_scan(payload@.take(i as int)).0,
            ({
                let zeros = rbsp_scan(payload@.take(i as int)).1;
                zero_run == if zeros < 255 {
                    zeros as int
                } else {
                    255
                }
            }),
        decreases payload@.len() - i,
    {
        assert(payload@.take(i + 1).drop_last() =~= payload@.take(i as int));
        let byte: u8 = payload[i];
        if zero_run >= 2 && byte == 0x03 {
            zero_run = 0;
        } else {
            out.push(byte);
            zero_run = if byte == 0 {
                zero_run.saturating_add(1)
            } else {
                0
            };
        }
        i += 1;
    }
    assert(payload@.take(i as int) =~= payload@);
    out
}

/// The `i`-th bit of `data`, the most significant bit of each byte first.
pub open spec fn bit_at(data: Seq<u8>, i: int) -> bool {
    (data[i / 8] >> ((7 - i % 8) as u8)) & 1 != 0
}

/// The number that the `count` bits from bit `from` on stand for.
pub open spec fn bits_value(data: Seq<u8>, from: int, count: nat) -> nat
    decreases count,
{
    if count == 0 {
        0
    } else {
        2 * bits_value(data, from, (count - 1) as nat) + if bit_at(data, from + count - 1) {
            1nat
        } else {
            0
        }
    }
}

/// The first bit at or after `from` that is set.
pub open spec fn first_set_bit(data: Seq<u8>, from: int) -> Option<int>
    decreases 8 * data.len() - from,
{
    if from < 0 || from >= 8 * data.len() {
        None
    } else if bit_at(data, from) {
        Some(from)
    } else {
        first_set_bit(data, from + 1)
    }
}

/// The unsigned Exp-Golomb number that `data` begins with: after `z` zero bits
/// and a one, `z` more bits add to `2^z - 1`. More than 31 zero bits, or too
/// little data, make no number.
pub open spec fn exp_golomb(data: Seq<u8>) -> Option<nat> {
    match first_set_bit(data, 0) {
        Some(z) if z < 32 && 2 * z + 1 <= 8 * data.len() => Some(
            (pow2(z as nat) - 1 + bits_value(data, z + 1, z as nat)) as nat,
        ),
        _ => None,
    }
}

/// Reads bits of a byte string, the most significant bit of each byte first.
struct BitReader<'a> {
    data: &'a [u8],
    bit_index: usize,
}

impl<'a> BitReader<'a> {
    /// A reader at the first bit.
    fn new(data: &'a [u8]) -> (reader: Self)
        ensures
            reader.data@ == data@,
            reader.bit_index == 0,
    {
        Self { data, bit_index: 0 }
    }

    /// The next bit, where there is one.
    fn read_bit(&mut self) -> (bit: Option<bool>)
        requires
            old(self).bit_index < usize::MAX,
        ensures
            final(self).data@ == old(self).data@,
            match bit {
                Some(b) => {
                    &&& old(self).bit_index < 8 * old(self).data@.len()
                    &&& b == bit_at(old(self).data@, old(self).bit_index as int)
                    &&& final(self).bit_index == old(self).bit_index + 1
                },
                None => {
                    &&& old(self).bit_index >= 8 * old(self).data@.len()
                    &&& final(self).bit_index == old(self).bit_index
                },
            },
    {
        let index: usize = self.bit_index / 8;
        if index >= self.data.len() {
            return None;
        }
        let byte: u8 = self.data[index];
        let shift: u8 = 7 - (self.bit_index % 8) as u8;
        let bit: u8 = (byte >> shift) & 1;
        self.bit_index += 1;
        Some(bit != 0)
    }

    /// The number that the next `count` bits stand for, where there are as many.
    fn read_bits(&mut self, count: u32) -> (value: Option<u32>)
        requires
            count < 32,
            old(self).bit_index + count <= usize::MAX,
        ensures
            final(self).data@ == old(self).data@,
            match value {
                Some(v) => {
                    &&& old(self).bit_index + count <= 8 * old(self).data@.len() || count == 0
                    &&& v == bits_value(
                        old(self).data@,
                        old(self).bit_index as int,
                        count as nat,
                    )
                    &&& v < pow2(count as nat)
                    &&& final(self).bit_index == old(self).bit_index + count
                },
                None => old(self).bit_index + count > 8 * old(self).data@.len() && count > 0,
            },
    {
        let mut value: u32 = 0;
        let mut done: u32 = 0;
        proof {
            vstd::arithmetic::power2::lemma2_to64();
        }
        while done < count
            invariant
                done <= count < 32,
                old(self).bit_index + count <= usize::MAX,
                self.data@ == old(self).data@,
                self.bit_index == old(self).bit_index + done,
                done > 0 ==> self.bit_index <= 8 * self.data@.len(),
                value == bits_value(self.data@, old(self).bit_index as int, done as nat),
                value < pow2(done as nat),
            decreases count - done,
        {
            proof {
                vstd::arithmetic::power2::lemma_pow2_unfold((done + 1) as nat);
                if done + 1 < 31 {
                    vstd::arithmetic::power2::lemma_pow2_strictly_increases((done + 1) as nat, 31);
                }
                vstd::arithmetic::power2::lemma2_to64();
            }
            match self.read_bit() {
                Some(bit) => {
                    value = value * 2 + if bit {
                        1
                    } else {
                        0
                    };
                },
                None => {
                    return None;
                },
            }
            done += 1;
        }
        Some(value)
    }
}

/// The unsigned Exp-Golomb number that `data` begins with.
pub fn read_unsigned_exp_golomb(data: &[u8]) -> (number: Option<u32>)
    ensures
        match number {
            Some(n) => exp_golomb(data@) == Some(n as nat),
            None => exp_golomb(data@) is None,
        },
{
    let mut reader = BitReader::new(data);
    let mut leading_zero_bits: u32 = 0;
    let mut power: u32 = 1;
    proof {
        vstd::arithmetic::power2::lemma2_to64();
    }
    loop
        invariant_except_break
            leading_zero_bits < 32,
            reader.data@ == data@,
            reader.bit_index == leading_zero_bits,
            power == pow2(leading_zero_bits as nat),
            first_set_bit(data@, 0) == first_set_bit(data@, leading_zero_bits as int),
        ensures
            leading_zero_bits < 32,
            reader.data@ == data@,
            reader.bit_index == leading_zero_bits + 1,
            power == pow2(leading_zero_bits as nat),
            first_set_bit(data@, 0) == Some(leading_zero_bits as int),
        decreases 32 - leading_zero_bits,
    {
        match reader.read_bit() {
            Some(bit) => {
                if bit {
                    break;
                }
            },
            None => {
                return None;
            },
        }
        proof {
            lemma_first_set_bit_bound(data@, leading_zero_bits + 1);
            vstd::arithmetic::power2::lemma_pow2_unfold((leading_zero_bits + 1) as nat);
            vstd::arithmetic::power2::lemma2_to64();
            if leading_zero_bits < 30 {
                vstd::arithmetic::power2::lemma_pow2_strictly_increases(
                    (leading_zero_bits + 1) as nat,
                    31,
                );
            }
        }
        leading_zero_bits += 1;
        if leading_zero_bits >= 32 {
            return None;
        }
        power = power * 2;
    }
    proof {
        vstd::arithmetic::power2::lemma2_to64();
        if leading_zero_bits < 31 {
            vstd::arithmetic::power2::lemma_pow2_strictly_increases(leading_zero_bits as nat, 31);
        }
        lemma_first_set_bit_bound(data@, 0);
    }
    match reader.read_bits(leading_zero_bits) {
        Some(suffix) => Some(power - 1 + suffix),
        None => None,
    }
}

proof fn lemma_first_set_bit_bound(data: Seq<u8>, from: int)
    ensures
        match first_set_bit(data, from) {
            Some(i) => from <= i < 8 * data.len(),
            None => true,
        },
    decreases 8 * data.len() - from,
{
    if 0 <= from < 8 * data.len() && !bit_at(data, from) {
        lemma_first_set_bit_bound(data, from + 1);
    }
}

/// The number of the first macroblock of the slice that `unit` carries, where
/// the unit begins with a start code and its header holds such a number.
pub open spec fn first_mb(unit: Seq<u8>) -> Option<nat> {
    match header_offset(unit) {
        Some(n) => exp_golomb(rbsp(unit.skip(n as int + 1))),
        None => None,
    }
}

/// The number of the first macroblock of the slice that `unit` carries.
pub fn h264_first_mb_in_slice(unit: &[u8]) -> (number: Option<u32>)
    requires
        header_offset(unit@) matches Some(n) ==> n < unit@.len(),
    ensures
        match number {
            Some(n) => first_mb(unit@) == Some(n as nat),
            None => first_mb(unit@) is None,
        },
{
    match nal_header_offset(unit) {
        Some(offset) => {
            let payload = copy_range(unit, offset + 1, unit.len());
            assert(payload@ =~= unit@.skip(offset + 1));
            let stripped = rbsp_without_emulation_prevention(&payload);
            read_unsigned_exp_golomb(&stripped)
        },
        None => None,
    }
}

// ---------------------------------------------------------------------------
// Access units
// ---------------------------------------------------------------------------
/// The unit carries a slice of a picture.
pub open spec fn is_picture(unit: Seq<u8>) -> bool {
    unit_type(unit) == Some(1u8) || unit_type(unit) == Some(5u8)
}

/// The unit is one of those that stand before a picture: supplemental
/// information, a parameter set or a delimiter.
pub open spec fn is_header(unit: Seq<u8>) -> bool {
    match unit_type(unit) {
        Some(kind) => 6 <= kind <= 9,
        None => false,
    }
}

/// The unit opens a new access unit after one that already holds a picture: it
/// is a header, or a slice that is not known to go on with the same picture.
pub open spec fn opens_access_unit(unit: Seq<u8>) -> bool {
    ||| is_header(unit)
    ||| is_picture(unit) && (first_mb(unit) is None || first_mb(unit) == Some(0nat))
}

/// Access units in the making.
pub struct Grouping {
    /// The access units that are complete.
    pub frames: Seq<Seq<u8>>,
    /// The units gathered for the next one.
    pub current: Seq<u8>,
    /// Whether a slice is among those.
    pub has_picture: bool,
}

/// The access units that the first units of a stream make.
pub open spec fn group_units(units: Seq<Seq<u8>>) -> Grouping
    decreases units.len(),
{
    if units.len() == 0 {
        Grouping { frames: Seq::empty(), current: Seq::empty(), has_picture: false }
    } else {
        let before = group_units(units.drop_last());
        let unit = units.last();
        if before.has_picture && opens_access_unit(unit) {
            Grouping {
                frames: before.frames.push(before.current),
                current: unit,
                has_picture: is_picture(unit),
            }
        } else {
            Grouping {
                frames: before.frames,
                current: before.current + unit,
                has_picture: before.has_picture || is_picture(unit),
            }
        }
    }
}

/// The access units of `data`: each holds the units of one picture, with the
/// headers that stand before it.
pub open spec fn access_units(data: Seq<u8>) -> Seq<Seq<u8>> {
    let grouping = group_units(nal_units(data));
    if grouping.current.len() > 0 {
        grouping.frames.push(grouping.current)
    } else {
        grouping.frames
    }
}

/// Splits `data` into its access units.
pub fn split_annex_b_access_units(data: &[u8]) -> (frames: Vec<Vec<u8>>)
    ensures
        views(frames@) == access_units(data@),
{
    let units = split_annex_b_units(data);
    let mut frames: Vec<Vec<u8>> = Vec::new();
    let mut current: Vec<u8> = Vec::new();
    let mut current_has_picture = false;
    let ghost all = nal_units(data@);
    let mut i: usize = 0;
    while i < units.len()
        invariant
            views(units@) == all,
            i <= units@.len(),
            ({
                let grouping = group_units(all.take(i as int));
                &&& views(frames@) =~= grouping.frames
                &&& current@ == grouping.current
                &&& current_has_picture == grouping.has_picture
            }),
        decreases units@.len() - i,
    {
        let unit = &units[i];
        assert(unit@ == all[i as int]);
        assert(all.take(i + 1).drop_last() =~= all.take(i as int));
        let kind = nal_unit_type(unit);
        let starts_picture = match kind {
            Some(k) => k == 1 || k == 5,
            None => false,
        };
        let starts_header = match kind {
            Some(k) => 6 <= k && k <= 9,
            None => false,
        };
        let starts_new_picture = if starts_picture {
            match h264_first_mb_in_slice(unit) {
                Some(number) => number == 0,
                None => true,
            }
        } else {
            false
        };
        if current_has_picture && (starts_header || starts_new_picture) {
            let ghost before = frames@;
            frames.push(current);
            assert(views(frames@) =~= views(before).push(current@));
            current = Vec::new();
            current_has_picture = false;
            append_bytes(&mut current, unit);
            assert(current@ =~= unit@);
        } else {
            append_bytes(&mut current, unit);
        }
        current_has_picture = current_has_picture || starts_picture;
        i += 1;
    }
    assert(all.take(i as int) =~= all);
    if current.len() > 0 {
        let ghost before = frames@;
        frames.push(current);
        assert(views(frames@) =~= views(before).push(current@));
    }
    frames
}

proof fn lemma_group_units(units: Seq<Seq<u8>>)
    requires
        forall|k: int| 0 <= k < units.len() ==> #[trigger] units[k].len() > 0,
    ensures
        ({
            let grouping = group_units(units);
            &&& concat(grouping.frames) + grouping.current == concat(units)
            &&& grouping.has_picture ==> grouping.current.len() > 0
            &&& units.len() > 0 ==> grouping.current.len() > 0
            &&& forall|k: int|
                0 <= k < grouping.frames.len() ==> #[trigger] grouping.frames[k].len() > 0
        }),
    decreases units.len(),
{
    let grouping = group_units(units);
    if units.len() == 0 {
        assert(concat(grouping.frames) + grouping.current =~= concat(units));
    } else {
        let before = group_units(units.drop_last());
        let unit = units.last();
        assert forall|k: int| 0 <= k < units.drop_last().len() implies #[trigger] units.drop_last(
        )[k].len() > 0 by {
            assert(units[k].len() > 0);
        }
        lemma_group_units(units.drop_last());
        assert(units[units.len() - 1].len() > 0);
        if before.has_picture && opens_access_unit(unit) {
            assert(grouping.frames.drop_last() =~= before.frames);
        }
        assert(concat(grouping.frames) + grouping.current =~= concat(units));
    }
}

proof fn lemma_units_nonempty(data: Seq<u8>)
    requires
        data.len() <= usize::MAX,
    ensures
        forall|k: int| 0 <= k < nal_units(data).len() ==> #[trigger] nal_units(data)[k].len() > 0,
{
    lemma_starts_below(data, data.len() as int);
}

/// Access units keep every byte from the first start code on, in order, and
/// none of them is empty.
pub proof fn access_units_cover_the_data(data: Seq<u8>)
    requires
        data.len() <= usize::MAX,
    ensures
        concat(access_units(data)) == concat(nal_units(data)),
        start_codes(data).len() > 0 ==> concat(access_units(data)) == data.skip(
            start_codes(data)[0] as int,
        ),
        access_units(data).len() > 0 <==> start_codes(data).len() > 0,
        forall|k: int|
            0 <= k < access_units(data).len() ==> #[trigger] access_units(data)[k].len() > 0,
{
    let units = nal_units(data);
    let grouping = group_units(units);
    lemma_units_nonempty(data);
    lemma_group_units(units);
    nal_units_cover_the_data(data);
    if grouping.current.len() > 0 {
        assert(access_units(data).drop_last() =~= grouping.frames);
    } else {
        assert(concat(grouping.frames) + grouping.current =~= concat(grouping.frames));
    }
}

/// `s` begins with a start code.
pub open spec fn begins_with_code(s: Seq<u8>) -> bool {
    long_code_at(s, 0) || short_code_at(s, 0)
}

proof fn lemma_unit_begins_with_code(data: Seq<u8>, k: int)
    requires
        data.len() <= usize::MAX,
        0 <= k < nal_units(data).len(),
    ensures
        begins_with_code(nal_units(data)[k]),
{
    lemma_starts_below(data, data.len() as int);
    let starts = start_codes(data);
    let s = starts[k] as int;
    assert(starts_unit(data, s));
    if k + 1 < starts.len() {
        let e = starts[k + 1] as int;
        assert(starts_unit(data, e));
        assert(s < e);
        if long_code_at(data, s) {
            assert(!starts_unit(data, s + 1));
            assert(!starts_unit(data, s + 2));
            assert(!starts_unit(data, s + 3));
        } else {
            assert(!starts_unit(data, s + 1));
            assert(!starts_unit(data, s + 2));
        }
    }
}

proof fn lemma_groups_begin_with_code(units: Seq<Seq<u8>>)
    requires
        forall|k: int| 0 <= k < units.len() ==> begins_with_code(#[trigger] units[k]),
    ensures
        units.len() > 0 ==> begins_with_code(group_units(units).current),
        forall|k: int|
            0 <= k < group_units(units).frames.len() ==> begins_with_code(
                #[trigger] group_units(units).frames[k],
            ),
    decreases units.len(),
{
    if units.len() > 0 {
        let before = group_units(units.drop_last());
        let unit = units.last();
        assert forall|k: int| 0 <= k < units.drop_last().len() implies begins_with_code(
            #[trigger] units.drop_last()[k],
        ) by {
            assert(begins_with_code(units[k]));
        }
        lemma_groups_begin_with_code(units.drop_last());
        assert(begins_with_code(units[units.len() - 1]));
        if units.len() == 1 {
            assert(units.drop_last() =~= Seq::empty());
            assert(before.current + unit =~= unit);
        }
    }
}

/// Every access unit begins with a start code.
pub proof fn access_units_begin_with_start_codes(data: Seq<u8>, k: int)
    requires
        data.len() <= usize::MAX,
        0 <= k < access_units(data).len(),
    ensures
        begins_with_code(access_units(data)[k]),
{
    assert forall|k: int| 0 <= k < nal_units(data).len() implies begins_with_code(
        #[trigger] nal_units(data)[k],
    ) by {
        lemma_unit_begins_with_code(data, k);
    }
    lemma_groups_begin_with_code(nal_units(data));
    if nal_units(data).len() == 0 {
        assert(group_units(nal_units(data)).current.len() == 0);
    }
}

/// A slice that goes on with the picture before it stays in that picture's
/// access unit.
pub proof fn continuing_slices_stay_together(units: Seq<Seq<u8>>, slice: Seq<u8>)
    requires
        is_picture(slice),
        first_mb(slice) matches Some(n) && n > 0,
    ensures
        group_units(units.push(slice)).frames == group_units(units).frames,
        group_units(units.push(slice)).current == group_units(units).current + slice,
{
    assert(units.push(slice).drop_last() =~= units);
}

/// The units of each access unit that is complete, and those of the next one.
pub open spec fn unit_lists(units: Seq<Seq<u8>>) -> (Seq<Seq<Seq<u8>>>, Seq<Seq<u8>>)
    decreases units.len(),
{
    if units.len() == 0 {
        (Seq::empty(), Seq::empty())
    } else {
        let (groups, current) = unit_lists(units.drop_last());
        let unit = units.last();
        if has_picture(current) && opens_access_unit(unit) {
            (groups.push(current), seq![unit])
        } else {
            (groups, current.push(unit))
        }
    }
}

/// One of the units is a slice.
pub open spec fn has_picture(units: Seq<Seq<u8>>) -> bool {
    exists|i: int| 0 <= i < units.len() && is_picture(#[trigger] units[i])
}

/// The units belong to one picture: after the first slice there is no unit that
/// would open another access unit.
pub open spec fn is_one_picture(units: Seq<Seq<u8>>) -> bool {
    forall|i: int, j: int|
        0 <= i < j < units.len() && is_picture(#[trigger] units[i]) ==> !opens_access_unit(
            #[trigger] units[j],
        )
}

/// The units of several groups, one after the other.
pub open spec fn flat(groups: Seq<Seq<Seq<u8>>>) -> Seq<Seq<u8>>
    decreases groups.len(),
{
    if groups.len() == 0 {
        Seq::empty()
    } else {
        flat(groups.drop_last()) + groups.last()
    }
}

/// The bytes of each group.
pub open spec fn group_bytes(groups: Seq<Seq<Seq<u8>>>) -> Seq<Seq<u8>> {
    groups.map_values(|g: Seq<Seq<u8>>| concat(g))
}

proof fn lemma_picture_push(units: Seq<Seq<u8>>, unit: Seq<u8>)
    ensures
        has_picture(units.push(unit)) == (has_picture(units) || is_picture(unit)),
{
    let all = units.push(unit);
    if has_picture(units) {
        let i = choose|i: int| 0 <= i < units.len() && is_picture(#[trigger] units[i]);
        assert(is_picture(all[i]));
    }
    if is_picture(unit) {
        assert(is_picture(all[units.len() as int]));
    }
    if has_picture(all) {
        let i = choose|i: int| 0 <= i < all.len() && is_picture(#[trigger] all[i]);
        if i < units.len() {
            assert(is_picture(units[i]));
        }
    }
}

proof fn lemma_unit_lists(units: Seq<Seq<u8>>)
    ensures
        ({
            let (groups, current) = unit_lists(units);
            let grouping = group_units(units);
            &&& grouping.frames == group_bytes(groups)
            &&& grouping.current == concat(current)
            &&& grouping.has_picture == has_picture(current)
            &&& flat(groups) + current == units
            &&& is_one_picture(current)
            &&& forall|k: int|
                0 <= k < groups.len() ==> has_picture(#[trigger] groups[k]) && is_one_picture(
                    groups[k],
                )
        }),
    decreases units.len(),
{
    let (groups, current) = unit_lists(units);
    let grouping = group_units(units);
    if units.len() == 0 {
        assert(grouping.frames =~= group_bytes(groups));
        assert(flat(groups) + current =~= units);
    } else {
        lemma_unit_lists(units.drop_last());
        let (before, gathered) = unit_lists(units.drop_last());
        let unit = units.last();
        if has_picture(gathered) && opens_access_unit(unit) {
            assert(group_bytes(groups) =~= group_bytes(before).push(concat(gathered)));
            assert(groups.drop_last() =~= before);
            assert(seq![unit].drop_last() =~= Seq::<Seq<u8>>::empty());
            assert(concat(Seq::<Seq<u8>>::empty()) =~= Seq::<u8>::empty());
            assert(concat(seq![unit]) =~= unit);
            assert(units.drop_last().push(unit) =~= units);
            assert(flat(groups) + current =~= units);
            if is_picture(unit) {
                assert(is_picture(current[0]));
            }
        } else {
            lemma_picture_push(gathered, unit);
            assert(current.drop_last() =~= gathered);
            assert(units.drop_last().push(unit) =~= units);
            assert(flat(groups) + current =~= (flat(groups) + gathered).push(unit));
            assert forall|i: int, j: int|
                0 <= i < j < current.len() && is_picture(
                    #[trigger] current[i],
                ) implies !opens_access_unit(#[trigger] current[j]) by {
                assert(current[i] == gathered[i]);
                if j < gathered.len() {
                    assert(current[j] == gathered[j]);
                } else {
                    assert(has_picture(gathered));
                }
            }
        }
    }
}

/// Access units are made of whole NAL units, kept in order, and each belongs to one
/// picture: every access unit but the last holds a slice, and in each of them
/// nothing that would open another access unit follows a slice. So headers stand
/// with the picture after them, and the slices of one picture stand together.
pub proof fn access_units_belong_to_one_picture(data: Seq<u8>)
    requires
        data.len() <= usize::MAX,
    ensures
        ({
            let (groups, current) = unit_lists(nal_units(data));
            &&& flat(groups) + current == nal_units(data)
            &&& access_units(data) == if nal_units(data).len() > 0 {
                group_bytes(groups.push(current))
            } else {
                Seq::empty()
            }
            &&& is_one_picture(current)
            &&& forall|k: int|
                0 <= k < groups.len() ==> has_picture(#[trigger] groups[k]) && is_one_picture(
                    groups[k],
                )
        }),
{
    let units = nal_units(data);
    let (groups, current) = unit_lists(units);
    lemma_unit_lists(units);
    lemma_units_nonempty(data);
    lemma_group_units(units);
    if units.len() > 0 {
        assert(group_bytes(groups.push(current)) =~= group_bytes(groups).push(concat(current)));
    } else {
        assert(access_units(data) =~= Seq::empty());
    }
}

proof fn lemma_flat_part(groups: Seq<Seq<Seq<u8>>>, k: int) -> (from: int)
    requires
        0 <= k < groups.len(),
    ensures
        0 <= from <= from + groups[k].len() <= flat(groups).len(),
        flat(groups).subrange(from, from + groups[k].len()) == groups[k],
    decreases groups.len(),
{
    let before = flat(groups.drop_last());
    if k == groups.len() - 1 {
        assert(flat(groups).subrange(before.len() as int, flat(groups).len() as int)
            =~= groups.last());
        before.len() as int
    } else {
        let from = lemma_flat_part(groups.drop_last(), k);
        assert(flat(groups).subrange(from, from + groups[k].len()) =~= before.subrange(
            from,
            from + groups[k].len(),
        ));
        from
    }
}

proof fn lemma_one_picture_stays_together(units: Seq<Seq<u8>>)
    requires
        is_one_picture(units),
    ensures
        group_units(units).frames == Seq::<Seq<u8>>::empty(),
        group_units(units).current == concat(units),
        group_units(units).has_picture == has_picture(units),
    decreases units.len(),
{
    if units.len() > 0 {
        let before = units.drop_last();
        assert forall|i: int, j: int|
            0 <= i < j < before.len() && is_picture(
                #[trigger] before[i],
            ) implies !opens_access_unit(#[trigger] before[j]) by {
            assert(before[i] == units[i] && before[j] == units[j]);
        }
        lemma_one_picture_stays_together(before);
        assert(before.push(units.last()) =~= units);
        lemma_picture_push(before, units.last());
        if has_picture(before) {
            let i = choose|i: int| 0 <= i < before.len() && is_picture(#[trigger] before[i]);
            assert(is_picture(units[i]));
            assert(!opens_access_unit(units[units.len() - 1]));
        }
    }
}

/// An access unit is one access unit, itself.
pub proof fn access_units_are_whole(data: Seq<u8>, k: int)
    requires
        data.len() <= usize::MAX,
        0 <= k < access_units(data).len(),
    ensures
        access_units(access_units(data)[k]) == seq![access_units(data)[k]],
{
    let units = nal_units(data);
    let (groups, current) = unit_lists(units);
    let lists = groups.push(current);
    let frame = access_units(data)[k];
    access_units_belong_to_one_picture(data);
    access_units_cover_the_data(data);
    assert(units.len() > 0);
    assert(lists.drop_last() =~= groups);
    assert(flat(lists) =~= units);
    let list = lists[k];
    assert(group_bytes(lists)[k] == concat(list));
    assert(is_one_picture(list));
    let from = lemma_flat_part(lists, k);
    assert(frame == concat(list) && frame.len() > 0);
    if list.len() == 0 {
        assert(concat(list) =~= Seq::<u8>::empty());
    }
    lemma_units_of_part(data, from, from + list.len());
    lemma_one_picture_stays_together(list);
    assert(access_units(frame) =~= seq![frame]);
}

/// Access units that are laid out one after the other split into the same access
/// units again.
pub proof fn joined_access_units_split_again(data: Seq<u8>)
    requires
        data.len() <= usize::MAX,
    ensures
        access_units(concat(access_units(data))) == access_units(data),
{
    access_units_cover_the_data(data);
    joined_nal_units_split_again(data);
}

// ---------------------------------------------------------------------------
// Where access units begin
// ---------------------------------------------------------------------------
/// The type that a unit has by its bytes: the low five bits of the byte after the
/// start code, whose last byte is the one that is not zero. A unit that ends with its
/// start code has none.
pub open spec fn type_number(unit: Seq<u8>) -> int {
    let at: int = if unit[2] == 1 {
        3
    } else {
        4
    };
    if at < unit.len() {
        (unit[at] % 32) as int
    } else {
        -1
    }
}

/// An access unit begins at the `j`-th unit: the access units before it hold exactly
/// the bytes of the units before it.
pub open spec fn begins_at(frames: Seq<Seq<u8>>, units: Seq<Seq<u8>>, j: int) -> bool {
    exists|m: int|
        0 <= m < frames.len() && #[trigger] concat(frames.take(m)) == concat(units.take(j))
}

/// The `j`-th unit stands inside an access unit that began before it.
pub open spec fn stands_inside(frames: Seq<Seq<u8>>, units: Seq<Seq<u8>>, j: int) -> bool {
    exists|m: int|
        0 <= m < frames.len() && concat(frames.take(m)).len() < concat(units.take(j)).len() && concat(
            units.take(j),
        ).len() < #[trigger] concat(frames.take(m + 1)).len()
}

/// The `j`-th unit comes after a slice, a unit of type 1 or 5, with no unit of type 6
/// to 9 between them.
pub open spec fn follows_slice(units: Seq<Seq<u8>>, j: int) -> bool {
    exists|i: int|
        {
            &&& 0 <= i < j
            &&& #[trigger] type_number(units[i]) == 1 || type_number(units[i]) == 5
            &&& forall|h: int| i < h < j ==> !(6 <= #[trigger] type_number(units[h]) <= 9)
        }
}

proof fn lemma_type_number(unit: Seq<u8>)
    requires
        begins_with_code(unit),
    ensures
        unit_type(unit) == if type_number(unit) >= 0 {
            Some(type_number(unit) as u8)
        } else {
            None
        },
        type_number(unit) < 32,
{
}

proof fn lemma_group_step(units: Seq<Seq<u8>>, j: int)
    requires
        0 <= j < units.len(),
    ensures
        ({
            let before = group_units(units.take(j));
            let after = group_units(units.take(j + 1));
            let unit = units[j];
            if before.has_picture && opens_access_unit(unit) {
                &&& after.frames == before.frames.push(before.current)
                &&& after.current == unit
                &&& after.has_picture == is_picture(unit)
            } else {
                &&& after.frames == before.frames
                &&& after.current == before.current + unit
                &&& after.has_picture == (before.has_picture || is_picture(unit))
            }
        }),
{
    assert(units.take(j + 1).drop_last() =~= units.take(j));
}

/// The groups that the first `j` units make are those that all units begin with.
proof fn lemma_group_prefix(units: Seq<Seq<u8>>, j: int, n: int)
    requires
        0 <= j <= n <= units.len(),
    ensures
        ({
            let before = group_units(units.take(j));
            let after = group_units(units.take(n));
            let all = after.frames.push(after.current);
            let m = before.frames.len() as int;
            &&& m < all.len()
            &&& all.take(m) == before.frames
            &&& all[m].len() >= before.current.len()
        }),
    decreases n - j,
{
    let before = group_units(units.take(j));
    let after = group_units(units.take(n));
    let all = after.frames.push(after.current);
    let m = before.frames.len() as int;
    if j == n {
        assert(all.take(m) =~= before.frames);
    } else {
        lemma_group_prefix(units, j, n - 1);
        lemma_group_step(units, n - 1);
        let shorter = group_units(units.take(n - 1));
        let list = shorter.frames.push(shorter.current);
        assert(all.take(m) =~= list.take(m));
    }
}

proof fn lemma_units_are_coded(data: Seq<u8>, k: int)
    requires
        data.len() <= usize::MAX,
        0 <= k < nal_units(data).len(),
    ensures
        begins_with_code(nal_units(data)[k]),
        nal_units(data)[k].len() > 0,
        unit_type(nal_units(data)[k]) == if type_number(nal_units(data)[k]) >= 0 {
            Some(type_number(nal_units(data)[k]) as u8)
        } else {
            None
        },
{
    lemma_unit_begins_with_code(data, k);
    lemma_units_nonempty(data);
    lemma_type_number(nal_units(data)[k]);
}

proof fn lemma_has_picture(data: Seq<u8>, i: int, j: int)
    requires
        data.len() <= usize::MAX,
        0 <= i < j <= nal_units(data).len(),
        type_number(nal_units(data)[i]) == 1 || type_number(nal_units(data)[i]) == 5,
        forall|h: int| i < h < j ==> !(6 <= #[trigger] type_number(nal_units(data)[h]) <= 9),
    ensures
        group_units(nal_units(data).take(j)).has_picture,
    decreases j,
{
    let units = nal_units(data);
    lemma_units_are_coded(data, j - 1);
    lemma_group_step(units, j - 1);
    if i < j - 1 {
        lemma_has_picture(data, i, j - 1);
        assert(!(6 <= type_number(units[j - 1]) <= 9));
    }
}

proof fn lemma_list_nonempty(units: Seq<Seq<u8>>, j: int)
    requires
        0 <= j <= units.len(),
        forall|k: int| 0 <= k < units.len() ==> #[trigger] units[k].len() > 0,
    ensures
        concat(group_units(units.take(j)).frames) + group_units(units.take(j)).current == concat(
            units.take(j),
        ),
        j > 0 ==> group_units(units.take(j)).current.len() > 0,
{
    assert forall|k: int| 0 <= k < units.take(j).len() implies #[trigger] units.take(j)[k].len()
        > 0 by {
        assert(units[k].len() > 0);
    }
    lemma_group_units(units.take(j));
}

proof fn lemma_access_list(data: Seq<u8>)
    requires
        data.len() <= usize::MAX,
        nal_units(data).len() > 0,
    ensures
        ({
            let grouping = group_units(nal_units(data));
            access_units(data) == grouping.frames.push(grouping.current)
        }),
{
    lemma_units_nonempty(data);
    lemma_group_units(nal_units(data));
}

proof fn lemma_begins(data: Seq<u8>, j: int)
    requires
        data.len() <= usize::MAX,
        0 < j < nal_units(data).len(),
        group_units(nal_units(data).take(j)).has_picture,
        opens_access_unit(nal_units(data)[j]),
    ensures
        begins_at(access_units(data), nal_units(data), j),
{
    let units = nal_units(data);
    let frames = access_units(data);
    let n = units.len() as int;
    lemma_units_nonempty(data);
    lemma_group_step(units, j);
    lemma_list_nonempty(units, j);
    lemma_group_prefix(units, j + 1, n);
    lemma_access_list(data);
    assert(units.take(n) =~= units);
    let before = group_units(units.take(j));
    let after = group_units(units.take(j + 1));
    let m = after.frames.len() as int;
    assert(frames.take(m) == after.frames);
    assert(after.frames.drop_last() =~= before.frames);
    assert(concat(frames.take(m)) == concat(units.take(j)));
}

proof fn lemma_stays(data: Seq<u8>, j: int)
    requires
        data.len() <= usize::MAX,
        0 < j < nal_units(data).len(),
        !group_units(nal_units(data).take(j)).has_picture || !opens_access_unit(
            nal_units(data)[j],
        ),
    ensures
        stands_inside(access_units(data), nal_units(data), j),
{
    let units = nal_units(data);
    let frames = access_units(data);
    let n = units.len() as int;
    lemma_units_nonempty(data);
    lemma_group_step(units, j);
    lemma_list_nonempty(units, j);
    lemma_group_prefix(units, j + 1, n);
    lemma_access_list(data);
    assert(units.take(n) =~= units);
    let before = group_units(units.take(j));
    let after = group_units(units.take(j + 1));
    let m = after.frames.len() as int;
    assert(units[j].len() > 0);
    assert(frames.take(m) == before.frames);
    assert(frames.take(m + 1).drop_last() =~= frames.take(m));
    assert(concat(frames.take(m + 1)) == concat(frames.take(m)) + frames[m]);
    assert(concat(units.take(j)).len() == concat(before.frames).len() + before.current.len());
    assert(concat(frames.take(m + 1)).len() > concat(units.take(j)).len());
}

/// A unit of type 6, 7, 8 or 9, that is supplemental information, a parameter set or a
/// delimiter, that comes after a slice begins an access unit: it goes with the picture
/// after it.
pub proof fn headers_after_a_slice_begin_access_units(
    data: &[u8],
    units: Vec<Vec<u8>>,
    frames: Vec<Vec<u8>>,
    j: int,
)
    requires
        call_ensures(split_annex_b_units, (data,), units),
        call_ensures(split_annex_b_access_units, (data,), frames),
        data@.len() <= usize::MAX,
        0 <= j < units@.len(),
        6 <= type_number(units@[j]@) <= 9,
        follows_slice(views(units@), j),
    ensures
        begins_at(views(frames@), views(units@), j),
{
    let all = nal_units(data@);
    assert(views(units@)[j] == units@[j]@);
    lemma_units_are_coded(data@, j);
    let i = choose|i: int|
        {
            &&& 0 <= i < j
            &&& #[trigger] type_number(all[i]) == 1 || type_number(all[i]) == 5
            &&& forall|h: int| i < h < j ==> !(6 <= #[trigger] type_number(all[h]) <= 9)
        };
    lemma_has_picture(data@, i, j);
    lemma_begins(data@, j);
}

/// A slice that comes after another begins an access unit where its number of the
/// first macroblock is zero, which the first bit after its header tells by being set.
pub proof fn first_slices_begin_access_units(
    data: &[u8],
    units: Vec<Vec<u8>>,
    frames: Vec<Vec<u8>>,
    j: int,
)
    requires
        call_ensures(split_annex_b_units, (data,), units),
        call_ensures(split_annex_b_access_units, (data,), frames),
        data@.len() <= usize::MAX,
        0 <= j < units@.len(),
        type_number(units@[j]@) == 1 || type_number(units@[j]@) == 5,
        slice_byte(units@[j]@) >= 0x80,
        follows_slice(views(units@), j),
    ensures
        begins_at(views(frames@), views(units@), j),
{
    let all = nal_units(data@);
    assert(views(units@)[j] == units@[j]@);
    lemma_units_are_coded(data@, j);
    let i = choose|i: int|
        {
            &&& 0 <= i < j
            &&& #[trigger] type_number(all[i]) == 1 || type_number(all[i]) == 5
            &&& forall|h: int| i < h < j ==> !(6 <= #[trigger] type_number(all[h]) <= 9)
        };
    lemma_has_picture(data@, i, j);
    lemma_slice_number(all[j]);
    lemma_begins(data@, j);
}

/// The byte after the header of a slice, or -1 where there is none.
pub open spec fn slice_byte(unit: Seq<u8>) -> int {
    let at: int = if unit[2] == 1 {
        4
    } else {
        5
    };
    if at < unit.len() {
        unit[at] as int
    } else {
        -1
    }
}

/// What the first byte of Exp-Golomb data says: up to three zero bits, a one, and as
/// many bits more.
proof fn lemma_first_byte(data: Seq<u8>)
    requires
        data.len() > 0,
        data[0] >= 0x10,
    ensures
        exp_golomb(data) == Some(
            (if data[0] >= 0x80 {
                0
            } else if data[0] >= 0x40 {
                data[0] / 32 - 1
            } else if data[0] >= 0x20 {
                data[0] / 8 - 1
            } else {
                data[0] / 2 - 1
            }) as nat,
        ),
{
    let b = data[0];
    vstd::arithmetic::power2::lemma2_to64();
    reveal_with_fuel(first_set_bit, 5);
    reveal_with_fuel(bits_value, 4);
    assert(((b >> 7u8) & 1 != 0) == (b >= 0x80)) by (bit_vector);
    assert(bit_at(data, 0) == (b >= 0x80));
    if b >= 0x80 {
    } else if b >= 0x40 {
        assert((b >> 6u8) & 1 != 0 && b / 32 == 2 + ((b >> 5u8) & 1)) by (bit_vector)
            requires
                0x40 <= b < 0x80,
        ;
        assert((b >> 5u8) & 1 == 0 || (b >> 5u8) & 1 == 1) by (bit_vector);
        assert(bit_at(data, 1));
        assert(bit_at(data, 2) == ((b >> 5u8) & 1 != 0));
    } else if b >= 0x20 {
        assert((b >> 6u8) & 1 == 0 && (b >> 5u8) & 1 != 0 && b / 8 == 4 + 2 * ((b >> 4u8) & 1) + ((b
            >> 3u8) & 1)) by (bit_vector)
            requires
                0x20 <= b < 0x40,
        ;
        assert((b >> 4u8) & 1 == 0 || (b >> 4u8) & 1 == 1) by (bit_vector);
        assert((b >> 3u8) & 1 == 0 || (b >> 3u8) & 1 == 1) by (bit_vector);
        assert(!bit_at(data, 1));
        assert(bit_at(data, 2));
        assert(bit_at(data, 3) == ((b >> 4u8) & 1 != 0));
        assert(bit_at(data, 4) == ((b >> 3u8) & 1 != 0));
    } else {
        assert((b >> 6u8) & 1 == 0 && (b >> 5u8) & 1 == 0 && (b >> 4u8) & 1 != 0 && b / 2 == 8 + 4 * ((
        b >> 3u8) & 1) + 2 * ((b >> 2u8) & 1) + ((b >> 1u8) & 1)) by (bit_vector)
            requires
                0x10 <= b < 0x20,
        ;
        assert((b >> 3u8) & 1 == 0 || (b >> 3u8) & 1 == 1) by (bit_vector);
        assert((b >> 2u8) & 1 == 0 || (b >> 2u8) & 1 == 1) by (bit_vector);
        assert((b >> 1u8) & 1 == 0 || (b >> 1u8) & 1 == 1) by (bit_vector);
        assert(!bit_at(data, 1));
        assert(!bit_at(data, 2));
        assert(bit_at(data, 3));
        assert(bit_at(data, 4) == ((b >> 3u8) & 1 != 0));
        assert(bit_at(data, 5) == ((b >> 2u8) & 1 != 0));
        assert(bit_at(data, 6) == ((b >> 1u8) & 1 != 0));
    }
}

proof fn lemma_rbsp_keeps_first(payload: Seq<u8>)
    requires
        payload.len() > 0,
    ensures
        rbsp(payload).len() > 0,
        rbsp(payload)[0] == payload[0],
        rbsp_scan(payload).1 <= payload.len(),
    decreases payload.len(),
{
    reveal_with_fuel(rbsp_scan, 2);
    if payload.len() > 1 {
        lemma_rbsp_keeps_first(payload.drop_last());
    }
}

proof fn lemma_slice_number(unit: Seq<u8>)
    requires
        begins_with_code(unit),
        slice_byte(unit) >= 0x10,
    ensures
        first_mb(unit) is Some,
        first_mb(unit) == Some(0nat) <==> slice_byte(unit) >= 0x80,
{
    let n = header_offset(unit)->0 as int;
    let payload = unit.skip(n + 1);
    assert(payload[0] == slice_byte(unit));
    lemma_rbsp_keeps_first(payload);
    lemma_first_byte(rbsp(payload));
}

/// A unit whose type is none of 1, 5 and 6 to 9 never begins an access unit, and
/// neither does a slice of which the byte after the header is from 10 to 7f: its number
/// of the first macroblock is not zero, so it goes on with the picture before it.
pub proof fn other_units_stay_in_their_access_unit(
    data: &[u8],
    units: Vec<Vec<u8>>,
    frames: Vec<Vec<u8>>,
    j: int,
)
    requires
        call_ensures(split_annex_b_units, (data,), units),
        call_ensures(split_annex_b_access_units, (data,), frames),
        data@.len() <= usize::MAX,
        0 < j < units@.len(),
        ({
            let kind = type_number(units@[j]@);
            ||| kind != 1 && kind != 5 && !(6 <= kind <= 9)
            ||| (kind == 1 || kind == 5) && 0x10 <= slice_byte(units@[j]@) < 0x80
        }),
    ensures
        stands_inside(views(frames@), views(units@), j),
{
    let all = nal_units(data@);
    assert(views(units@)[j] == units@[j]@);
    lemma_units_are_coded(data@, j);
    if 0x10 <= slice_byte(all[j]) < 0x80 {
        lemma_slice_number(all[j]);
    }
    lemma_stays(data@, j);
}

/// Before the first slice of the stream no unit but the first begins an access unit:
/// headers stand with the picture after them.
pub proof fn leading_units_stay_together(
    data: &[u8],
    units: Vec<Vec<u8>>,
    frames: Vec<Vec<u8>>,
    j: int,
)
    requires
        call_ensures(split_annex_b_units, (data,), units),
        call_ensures(split_annex_b_access_units, (data,), frames),
        data@.len() <= usize::MAX,
        0 < j < units@.len(),
        forall|i: int|
            0 <= i < j ==> type_number((#[trigger] units@[i])@) != 1 && type_number(units@[i]@) != 5,
    ensures
        stands_inside(views(frames@), views(units@), j),
{
    let all = nal_units(data@);
    assert forall|i: int| 0 <= i < j implies type_number(#[trigger] all[i]) != 1 && type_number(
        all[i],
    ) != 5 by {
        assert(views(units@)[i] == units@[i]@);
    }
    assert(views(units@).len() == units@.len());
    lemma_no_picture(data@, j);
    lemma_stays(data@, j);
}

proof fn lemma_no_picture(data: Seq<u8>, j: int)
    requires
        data.len() <= usize::MAX,
        0 <= j <= nal_units(data).len(),
        forall|i: int|
            0 <= i < j ==> type_number(#[trigger] nal_units(data)[i]) != 1 && type_number(
                nal_units(data)[i],
            ) != 5,
    ensures
        !group_units(nal_units(data).take(j)).has_picture,
    decreases j,
{
    if j > 0 {
        lemma_no_picture(data, j - 1);
        lemma_units_are_coded(data, j - 1);
        lemma_group_step(nal_units(data), j - 1);
        assert(type_number(nal_units(data)[j - 1]) != 1);
    }
}

/// Headers that follow each other after a slice are not torn apart: after a unit of
/// type 6 to 9 the next unit does not begin an access unit.
pub proof fn units_after_a_header_stay_with_it(
    data: &[u8],
    units: Vec<Vec<u8>>,
    frames: Vec<Vec<u8>>,
    j: int,
)
    requires
        call_ensures(split_annex_b_units, (data,), units),
        call_ensures(split_annex_b_access_units, (data,), frames),
        data@.len() <= usize::MAX,
        0 < j < units@.len(),
        6 <= type_number(units@[j - 1]@) <= 9,
    ensures
        stands_inside(views(frames@), views(units@), j),
{
    let all = nal_units(data@);
    assert(views(units@)[j - 1] == units@[j - 1]@);
    assert(views(units@).len() == units@.len());
    lemma_units_are_coded(data@, j - 1);
    lemma_group_step(all, j - 1);
    lemma_stays(data@, j);
}

// ---------------------------------------------------------------------------
// Units by their bytes
// ---------------------------------------------------------------------------
/// Units begin with 00 00 01 or 00 00 00 01 and hold no other 00 00 01. Laid out one
/// after the other they are the data from some place on, before which there is no
/// 00 00 01; a zero byte right before 00 00 01 belongs to that start code.
pub proof fn units_are_cut_at_start_codes(data: &[u8], units: Vec<Vec<u8>>, count: usize)
    requires
        call_ensures(split_annex_b_units, (data,), units),
        call_ensures(h264_nal_unit_count, (data,), count),
        data@.len() <= usize::MAX,
    ensures
        count == units@.len(),
        forall|k: int|
            0 <= k < units@.len() ==> {
                let u = (#[trigger] units@[k])@;
                ||| u.len() >= 3 && u[0] == 0 && u[1] == 0 && u[2] == 1
                ||| u.len() >= 4 && u[0] == 0 && u[1] == 0 && u[2] == 0 && u[3] == 1
            },
        forall|k: int, i: int|
            0 <= k < units@.len() && 2 <= i && i + 2 < (#[trigger] units@[k])@.len() ==> !(units@[k]@[i]
                == 0 && units@[k]@[i + 1] == 0 && #[trigger] units@[k]@[i + 2] == 1),
        forall|k: int|
            0 < k < units@.len() && (#[trigger] units@[k])@[2] == 1 ==> units@[k - 1]@.last() != 0,
        exists|from: int|
            {
                &&& 0 <= from <= data@.len()
                &&& concat(views(units@)) == #[trigger] data@.skip(from)
                &&& forall|i: int|
                    0 <= i < from && i + 2 < data@.len() && (i + 2 < from || units@.len() == 0)
                        ==> !(data@[i] == 0 && data@[i + 1] == 0 && #[trigger] data@[i + 2] == 1)
            },
{
    let d = data@;
    let all = nal_units(d);
    assert(views(units@).len() == units@.len());
    lemma_starts_below(d, d.len() as int);
    assert forall|k: int| 0 <= k < units@.len() implies {
        let u = (#[trigger] units@[k])@;
        ||| u.len() >= 3 && u[0] == 0 && u[1] == 0 && u[2] == 1
        ||| u.len() >= 4 && u[0] == 0 && u[1] == 0 && u[2] == 0 && u[3] == 1
    } by {
        assert(views(units@)[k] == units@[k]@);
        lemma_unit_begins_with_code(d, k);
    }
    assert forall|k: int, i: int|
        0 <= k < units@.len() && 2 <= i && i + 2 < (#[trigger] units@[k])@.len() implies !(
    units@[k]@[i] == 0 && units@[k]@[i + 1] == 0 && #[trigger] units@[k]@[i + 2] == 1) by {
        assert(views(units@)[k] == units@[k]@);
        let u = units@[k]@;
        nal_units_hold_one_start_code(d, k);
        if u[i] == 0 && u[i + 1] == 0 && u[i + 2] == 1 {
            lemma_short_codes_found(u, i);
        }
    }
    assert forall|k: int| 0 < k < units@.len() && (#[trigger] units@[k])@[2] == 1 implies units@[k
        - 1]@.last() != 0 by {
        assert(views(units@)[k] == units@[k]@);
        assert(views(units@)[k - 1] == units@[k - 1]@);
        lemma_unit_begins_with_code(d, k);
        nal_units_hold_one_start_code(d, k);
        lemma_units_nonempty(d);
        assert(units@[k - 1]@.last() == d[start_codes(d)[k] - 1]);
    }
    if all.len() > 0 {
        nal_units_cover_the_data(d);
        let from = start_codes(d)[0] as int;
        assert(concat(views(units@)) == d.skip(from));
        assert forall|i: int| 0 <= i < from && i + 2 < from implies !(d[i] == 0 && d[i + 1] == 0
            && #[trigger] d[i + 2] == 1) by {
            if d[i] == 0 && d[i + 1] == 0 && d[i + 2] == 1 {
                let at = if long_code_at(d, i - 1) {
                    i - 1
                } else {
                    i
                };
                assert(starts_unit(d, at));
                let j = choose|j: int|
                    0 <= j < start_codes(d).len() && start_codes(d)[j] == at as usize;
                assert(start_codes(d)[0] <= start_codes(d)[j]);
            }
        }
    } else {
        let from = d.len() as int;
        assert(concat(views(units@)) =~= d.skip(from));
        assert forall|i: int| 0 <= i < from && i + 2 < d.len() implies !(d[i] == 0 && d[i + 1] == 0
            && #[trigger] d[i + 2] == 1) by {
            if d[i] == 0 && d[i + 1] == 0 && d[i + 2] == 1 {
                let at = if long_code_at(d, i - 1) {
                    i - 1
                } else {
                    i
                };
                assert(starts_unit(d, at));
                assert(start_codes(d).contains(at as usize));
            }
        }
    }
}

/// Two places where 00 00 01 stands count twice.
proof fn lemma_short_codes_found(u: Seq<u8>, i: int)
    requires
        begins_with_code(u),
        2 <= i,
        short_code_at(u, i),
    ensures
        short_codes_below(u, u.len() as int) >= 2,
{
    let a: int = if short_code_at(u, 0) {
        0
    } else {
        1
    };
    assert(short_code_at(u, a));
    lemma_count_grows(u, 0, a);
    assert(short_codes_below(u, a + 1) >= 1);
    lemma_count_grows(u, a + 1, i);
    assert(short_codes_below(u, i + 1) >= 2);
    lemma_count_grows(u, i + 1, u.len() as int);
}

proof fn lemma_count_grows(u: Seq<u8>, from: int, to: int)
    requires
        0 <= from <= to,
    ensures
        short_codes_below(u, from) <= short_codes_below(u, to),
    decreases to - from,
{
    if from < to {
        lemma_count_grows(u, from, to - 1);
    }
}

/// The type of a unit is the number in the low five bits of the byte after 00 00 01 or
/// 00 00 00 01; what does not begin so, or ends there, has none.
pub proof fn unit_types_follow_the_start_code(unit: &[u8], kind: Option<u8>)
    requires
        call_ensures(nal_unit_type, (unit,), kind),
    ensures
        ({
            let u = unit@;
            let short = u.len() >= 3 && u[0] == 0 && u[1] == 0 && u[2] == 1;
            let long = u.len() >= 4 && u[0] == 0 && u[1] == 0 && u[2] == 0 && u[3] == 1;
            &&& long && u.len() > 4 ==> kind == Some((u[4] % 32) as u8)
            &&& short && u.len() > 3 ==> kind == Some((u[3] % 32) as u8)
            &&& !short && !long ==> kind is None
            &&& long && u.len() == 4 || short && u.len() == 3 ==> kind is None
        }),
{
}

/// Exp-Golomb numbers by the first byte: 1xxxxxxx is 0, 01axxxxx is 1 or 2, 001abxxx is
/// 3 to 6 and 0001abcx is 7 to 14.
pub proof fn numbers_are_read_from_the_first_byte(data: &[u8], number: Option<u32>)
    requires
        call_ensures(read_unsigned_exp_golomb, (data,), number),
        data@.len() > 0,
        data@[0] >= 0x10,
    ensures
        number matches Some(n) && n == if data@[0] >= 0x80 {
            0
        } else if data@[0] >= 0x40 {
            data@[0] / 32 - 1
        } else if data@[0] >= 0x20 {
            data@[0] / 8 - 1
        } else {
            data@[0] / 2 - 1
        },
{
    lemma_first_byte(data@);
}

proof fn lemma_rbsp_unchanged(payload: Seq<u8>)
    requires
        forall|i: int|
            0 <= i && i + 2 < payload.len() ==> !(payload[i] == 0 && payload[i + 1] == 0
                && #[trigger] payload[i + 2] == 3),
    ensures
        rbsp_scan(payload).0 == payload,
        rbsp_scan(payload).1 >= 2 <==> payload.len() >= 2 && payload[payload.len() - 1] == 0
            && payload[payload.len() - 2] == 0,
        rbsp_scan(payload).1 >= 1 <==> payload.len() >= 1 && payload[payload.len() - 1] == 0,
    decreases payload.len(),
{
    if payload.len() > 0 {
        let before = payload.drop_last();
        assert forall|i: int| 0 <= i && i + 2 < before.len() implies !(before[i] == 0 && before[i
            + 1] == 0 && #[trigger] before[i + 2] == 3) by {
            assert(before[i] == payload[i] && before[i + 1] == payload[i + 1]);
            assert(before[i + 2] == payload[i + 2]);
        }
        lemma_rbsp_unchanged(before);
        let n = payload.len() - 3;
        if n >= 0 {
            assert(!(payload[n] == 0 && payload[n + 1] == 0 && payload[n + 2] == 3));
        }
        assert(before.push(payload.last()) =~= payload);
    }
}

/// A payload without 00 00 03 stays as it is, and where 03 follows such a payload that
/// ends with two zero bytes, the 03 is taken out.
pub proof fn only_emulation_prevention_is_taken_out(
    payload: &[u8],
    out: Vec<u8>,
    longer: &[u8],
    longer_out: Vec<u8>,
)
    requires
        call_ensures(rbsp_without_emulation_prevention, (payload,), out),
        call_ensures(rbsp_without_emulation_prevention, (longer,), longer_out),
        longer@ == payload@.push(3),
        forall|i: int|
            0 <= i && i + 2 < payload@.len() ==> !(payload@[i] == 0 && payload@[i + 1] == 0
                && #[trigger] payload@[i + 2] == 3),
    ensures
        out@ == payload@,
        longer_out@ == if payload@.len() >= 2 && payload@[payload@.len() - 1] == 0
            && payload@[payload@.len() - 2] == 0 {
            payload@
        } else {
            payload@.push(3)
        },
{
    lemma_rbsp_unchanged(payload@);
    assert(longer@.drop_last() =~= payload@);
}

/// The number of the first macroblock of a slice is read from the byte after its header;
/// for bytes from 10 on it is that of the Exp-Golomb code in that byte.
pub proof fn macroblock_numbers_follow_the_header(unit: &[u8], number: Option<u32>)
    requires
        call_ensures(h264_first_mb_in_slice, (unit,), number),
        begins_with_code(unit@),
        slice_byte(unit@) >= 0x10,
    ensures
        ({
            let b = slice_byte(unit@);
            number matches Some(n) && n == if b >= 0x80 {
                0
            } else if b >= 0x40 {
                b / 32 - 1
            } else if b >= 0x20 {
                b / 8 - 1
            } else {
                b / 2 - 1
            }
        }),
{
    let n = header_offset(unit@)->0 as int;
    let payload = unit@.skip(n + 1);
    assert(payload[0] == slice_byte(unit@));
    lemma_rbsp_keeps_first(payload);
    lemma_first_byte(rbsp(payload));
}

/// Start codes are told by the place of their first zero byte, in order.
pub proof fn start_codes_are_told_by_place(data: &[u8], starts: Vec<usize>, k: int)
    requires
        call_ensures(annex_b_start_codes, (data,), starts),
        data@.len() <= usize::MAX,
        0 <= k < starts@.len(),
    ensures
        ({
            let d = data@;
            let s = starts@[k] as int;
            &&& s + 2 < d.len() && d[s] == 0 && d[s + 1] == 0
            &&& d[s + 2] == 1 || (s + 3 < d.len() && d[s + 2] == 0 && d[s + 3] == 1)
            &&& k > 0 ==> starts@[k - 1] < starts@[k]
        }),
{
    lemma_starts_below(data@, data@.len() as int);
    assert(starts_unit(data@, starts@[k] as int));
}

/// Exp-Golomb data of one byte below 10 is cut off: it has at least four zero bits, after
/// which nine bits are needed. With a second byte the number is there, and above zero.
proof fn lemma_low_byte(data: Seq<u8>)
    requires
        data.len() > 0,
        data[0] < 0x10,
    ensures
        data.len() == 1 ==> exp_golomb(data) is None,
        data.len() >= 2 && data[0] > 0 ==> exp_golomb(data) is Some && exp_golomb(data)->0 > 0,
{
    let b = data[0];
    vstd::arithmetic::power2::lemma2_to64();
    assert((b >> 7u8) & 1 == 0 && (b >> 6u8) & 1 == 0 && (b >> 5u8) & 1 == 0 && (b >> 4u8) & 1 == 0)
        by (bit_vector)
        requires
            b < 0x10,
    ;
    assert(!bit_at(data, 0) && !bit_at(data, 1) && !bit_at(data, 2) && !bit_at(data, 3));
    reveal_with_fuel(first_set_bit, 9);
    assert(first_set_bit(data, 0) == first_set_bit(data, 4));
    lemma_first_set_bit_bound(data, 4);
    if b > 0 {
        assert((b >> 3u8) & 1 != 0 || (b >> 2u8) & 1 != 0 || (b >> 1u8) & 1 != 0 || (b >> 0u8) & 1
            != 0) by (bit_vector)
            requires
                0 < b < 0x10,
        ;
        assert(bit_at(data, 4) || bit_at(data, 5) || bit_at(data, 6) || bit_at(data, 7));
        assert(first_set_bit(data, 4) is Some);
        assert(4 <= first_set_bit(data, 4)->0 <= 7);
    }
}

proof fn lemma_rbsp_keeps_two(payload: Seq<u8>)
    requires
        payload.len() >= 2,
    ensures
        rbsp(payload).len() >= 2,
        rbsp(payload)[0] == payload[0],
    decreases payload.len(),
{
    lemma_rbsp_keeps_first(payload);
    reveal_with_fuel(rbsp_scan, 3);
    if payload.len() > 2 {
        lemma_rbsp_keeps_two(payload.drop_last());
    } else {
        lemma_rbsp_keeps_first(payload.drop_last());
    }
}

/// A slice that comes after another begins an access unit too where its number of the
/// first macroblock is cut off: where nothing follows its header, or a single byte below
/// 10.
pub proof fn slices_without_a_number_begin_access_units(
    data: &[u8],
    units: Vec<Vec<u8>>,
    frames: Vec<Vec<u8>>,
    j: int,
)
    requires
        call_ensures(split_annex_b_units, (data,), units),
        call_ensures(split_annex_b_access_units, (data,), frames),
        data@.len() <= usize::MAX,
        0 <= j < units@.len(),
        type_number(units@[j]@) == 1 || type_number(units@[j]@) == 5,
        slice_byte(units@[j]@) == -1 || slice_byte(units@[j]@) < 0x10 && units@[j]@.len() == (
        if units@[j]@[2] == 1 {
            5int
        } else {
            6
        }),
        follows_slice(views(units@), j),
    ensures
        begins_at(views(frames@), views(units@), j),
{
    let all = nal_units(data@);
    let unit = all[j];
    assert(views(units@)[j] == units@[j]@);
    lemma_units_are_coded(data@, j);
    let i = choose|i: int|
        {
            &&& 0 <= i < j
            &&& #[trigger] type_number(all[i]) == 1 || type_number(all[i]) == 5
            &&& forall|h: int| i < h < j ==> !(6 <= #[trigger] type_number(all[h]) <= 9)
        };
    lemma_has_picture(data@, i, j);
    let n = header_offset(unit)->0 as int;
    let payload = unit.skip(n + 1);
    if payload.len() == 0 {
        assert(rbsp(payload) =~= Seq::<u8>::empty());
    } else {
        assert(payload[0] == slice_byte(unit));
        assert(payload.drop_last() =~= Seq::<u8>::empty());
        reveal_with_fuel(rbsp_scan, 2);
        assert(rbsp(payload) =~= payload);
        lemma_low_byte(payload);
    }
    lemma_begins(data@, j);
}

/// A slice of which the byte after the header is from 1 to f, and is not the last, goes on
/// with the picture before it.
pub proof fn later_slices_stay_in_their_access_unit(
    data: &[u8],
    units: Vec<Vec<u8>>,
    frames: Vec<Vec<u8>>,
    j: int,
)
    requires
        call_ensures(split_annex_b_units, (data,), units),
        call_ensures(split_annex_b_access_units, (data,), frames),
        data@.len() <= usize::MAX,
        0 < j < units@.len(),
        type_number(units@[j]@) == 1 || type_number(units@[j]@) == 5,
        1 <= slice_byte(units@[j]@) < 0x10,
        units@[j]@.len() > (if units@[j]@[2] == 1 {
            5int
        } else {
            6
        }),
    ensures
        stands_inside(views(frames@), views(units@), j),
{
    let all = nal_units(data@);
    let unit = all[j];
    assert(views(units@)[j] == units@[j]@);
    lemma_units_are_coded(data@, j);
    let n = header_offset(unit)->0 as int;
    let payload = unit.skip(n + 1);
    assert(payload[0] == slice_byte(unit));
    lemma_rbsp_keeps_two(payload);
    lemma_low_byte(rbsp(payload));
    lemma_stays(data@, j);
}

/// The zero bytes before a 03 that was taken out do not count for a later one: whatever
/// byte follows right after is kept.
pub proof fn emulation_prevention_starts_over(
    payload: &[u8],
    byte: u8,
    longer: &[u8],
    out: Vec<u8>,
)
    requires
        call_ensures(rbsp_without_emulation_prevention, (longer,), out),
        longer@ == payload@.push(3).push(byte),
        payload@.len() >= 2,
        payload@[payload@.len() - 1] == 0 && payload@[payload@.len() - 2] == 0,
        forall|i: int|
            0 <= i && i + 2 < payload@.len() ==> !(payload@[i] == 0 && payload@[i + 1] == 0
                && #[trigger] payload@[i + 2] == 3),
    ensures
        out@ == payload@.push(byte),
{
    lemma_rbsp_unchanged(payload@);
    let middle = payload@.push(3);
    assert(middle.drop_last() =~= payload@);
    assert(rbsp_scan(middle) == (payload@, 0nat));
    assert(longer@.drop_last() =~= middle);
    assert(longer@.last() == byte);
}

} // verus!
