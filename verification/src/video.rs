//! Sources of encoded video frames.
use vstd::prelude::*;
use vstd::string::*;
use crate::bytes::{append_bytes, concat, copy_bytes, lemma_concat_append, views};
use crate::h264::{
    access_units, access_units_are_whole, access_units_begin_with_start_codes,
    access_units_cover_the_data,
    begins_with_code, split_annex_b_access_units, start_codes,
    start_codes_are_exactly_the_starts, starts_unit,
};
use crate::rtp::EncodedVideoFrame;

verus! {

/// Ticks of the video clock in a second.
pub const VIDEO_CLOCK_RATE: u32 = 90_000;

/// `fps`, or one where it is zero.
pub open spec fn effective_fps(fps: u32) -> u32 {
    if fps == 0 {
        1
    } else {
        fps
    }
}

/// `fps`, or one where it is zero.
pub fn at_least_one(fps: u32) -> (out: u32)
    ensures
        out == effective_fps(fps),
{
    if fps == 0 {
        1
    } else {
        fps
    }
}

/// Numbers the frames of a source and tells their times.
#[derive(Debug, PartialEq, Eq)]
pub struct FrameClock {
    /// The number of the next frame.
    pub frame_index: u32,
    /// Clock ticks from one frame to the next.
    pub timestamp_step: u32,
    /// Milliseconds from one frame to the next.
    pub frame_interval_ms: u64,
}

/// The time of frame number `index`, held at the largest time that fits.
pub open spec fn frame_time(index: u32, step: u32) -> u32 {
    if index * step <= u32::MAX {
        (index * step) as u32
    } else {
        u32::MAX
    }
}

impl FrameClock {
    /// A clock for `fps` frames a second, whose first frame has number one.
    pub fn new(fps: u32) -> (clock: Self)
        ensures
            clock.frame_index == 1,
            clock.timestamp_step == VIDEO_CLOCK_RATE / effective_fps(fps),
            clock.frame_interval_ms == 1000u32 / effective_fps(fps),
    {
        let fps: u32 = at_least_one(fps);
        Self {
            frame_index: 1,
            timestamp_step: VIDEO_CLOCK_RATE / fps,
            frame_interval_ms: (1000 / fps) as u64,
        }
    }

    /// Gives `data` the next number and its time.
    pub fn stamp(&mut self, data: Vec<u8>) -> (frame: EncodedVideoFrame)
        ensures
            frame.data@ == data@,
            frame.frame_index == old(self).frame_index,
            frame.timestamp_90khz == frame_time(old(self).frame_index, old(self).timestamp_step),
            final(self).frame_index == (old(self).frame_index + 1) % 0x1_0000_0000,
            final(self).timestamp_step == old(self).timestamp_step,
            final(self).frame_interval_ms == old(self).frame_interval_ms,
    {
        let frame_index: u32 = self.frame_index;
        let step: u32 = self.timestamp_step;
        proof {
            assert(0 <= frame_index * step <= 0xffff_ffff * 0xffff_ffff) by (nonlinear_arith)
                requires
                    0 <= frame_index <= 0xffff_ffff,
                    0 <= step <= 0xffff_ffff,
            ;
        }
        let product: u64 = (frame_index as u64) * (step as u64);
        let timestamp_90khz: u32 = if product <= 0xffff_ffff {
            product as u32
        } else {
            0xffff_ffff
        };
        self.frame_index = self.frame_index.wrapping_add(1);
        EncodedVideoFrame { data, frame_index, timestamp_90khz }
    }
}

/// Frame `n` comes `n` steps after time zero while the clock has not run out.
pub proof fn frame_times_are_evenly_spaced(index: u32, step: u32)
    requires
        index < u32::MAX,
        (index + 1) * step <= u32::MAX,
    ensures
        frame_time((index + 1) as u32, step) == frame_time(index, step) + step,
{
    assert((index + 1) * step == index * step + step) by (nonlinear_arith);
}

/// Why a source has no frame to give.
#[derive(Clone, Copy, Debug, PartialEq, Eq, Structural)]
pub enum VideoSourceError {
    /// The source holds no frames at all.
    NoFrames,
}

/// A source that plays a list of frames over and over.
#[derive(Debug, PartialEq, Eq)]
pub struct AnnexBVideoSource {
    pub description: String,
    pub frames: Vec<Vec<u8>>,
    pub next_index: usize,
    pub clock: FrameClock,
}

/// The stand-in frame for a missing video file.
pub open spec fn fallback_frame() -> Seq<u8> {
    seq![
        0x00u8, 0x00u8, 0x00u8, 0x01u8, 0x67u8, 0x42u8, 0x00u8, 0x1fu8, 0x8du8, 0x68u8, 0x50u8,
        0x1eu8, 0xd0u8, 0x0fu8, 0x12u8, 0x26u8, 0xa0u8,
    ]
}

/// The stand-in frame for a missing video file.
pub fn fallback_h264_frame() -> (frame: Vec<u8>)
    ensures
        frame@ == fallback_frame(),
{
    let frame: Vec<u8> = vec![
        0x00, 0x00, 0x00, 0x01, 0x67, 0x42, 0x00, 0x1f, 0x8d, 0x68, 0x50, 0x1e, 0xd0, 0x0f, 0x12,
        0x26, 0xa0,
    ];
    assert(frame@ =~= fallback_frame());
    frame
}

impl AnnexBVideoSource {
    /// The next frame is one of those that the source holds.
    pub open spec fn wf(&self) -> bool {
        self.frames@.len() > 0 ==> self.next_index < self.frames@.len()
    }

    /// The source is new and plays `frames` at thirty frames a second.
    pub open spec fn plays(&self, description: Seq<char>, frames: Seq<Seq<u8>>) -> bool {
        &&& self.wf()
        &&& self.description@ == description
        &&& views(self.frames@) == frames
        &&& self.next_index == 0
        &&& self.clock.frame_index == 1
        &&& self.clock.timestamp_step == 3000
        &&& self.clock.frame_interval_ms == 33
    }

    /// A source that plays `frames` at `fps` frames a second.
    pub fn from_frames(description: String, frames: Vec<Vec<u8>>, fps: u32) -> (source: Self)
        ensures
            source.wf(),
            source.description@ == description@,
            source.frames@ == frames@,
            source.next_index == 0,
            source.clock.frame_index == 1,
            source.clock.timestamp_step == VIDEO_CLOCK_RATE / effective_fps(fps),
            source.clock.frame_interval_ms == 1000u32 / effective_fps(fps),
    {
        Self { description, frames, next_index: 0, clock: FrameClock::new(fps) }
    }

    /// A source that plays `frames` at thirty frames a second.
    fn at_thirty(description: String, frames: Vec<Vec<u8>>) -> (source: Self)
        ensures
            source.plays(description@, views(frames@)),
    {
        let source = Self::from_frames(description, frames, 30);
        assert(effective_fps(30) == 30);
        assert(90_000int / 30 == 3000);
        assert(1000int / 30 == 33);
        source
    }

    /// A source that plays the stand-in frame.
    pub fn placeholder() -> (source: Self)
        ensures
            source.plays("fallback H.264 placeholder"@, seq![fallback_frame()]),
    {
        let frames: Vec<Vec<u8>> = vec![fallback_h264_frame()];
        assert(views(frames@) =~= seq![fallback_frame()]);
        Self::at_thirty("fallback H.264 placeholder".to_owned(), frames)
    }

    /// A source for the file at `path`, which holds `contents` where it could be
    /// read: its access units, or all of it as one frame where it has none.
    pub fn from_path(path: &str, contents: Option<Vec<u8>>) -> (source: Self)
        ensures
            match contents {
                Some(data) => if access_units(data@).len() == 0 {
                    source.plays("raw H.264 file "@ + path@, seq![data@])
                } else {
                    source.plays("Annex B H.264 file "@ + path@, access_units(data@))
                },
                None => source.plays("fallback H.264 placeholder"@, seq![fallback_frame()]),
            },
    {
        match contents {
            Some(data) => {
                let frames = split_annex_b_access_units(&data);
                assert(views(frames@).len() == frames@.len());
                if frames.len() == 0 {
                    let mut description = "raw H.264 file ".to_owned();
                    description.append(path);
                    let frames: Vec<Vec<u8>> = vec![data];
                    assert(views(frames@) =~= seq![data@]);
                    Self::at_thirty(description, frames)
                } else {
                    let mut description = "Annex B H.264 file ".to_owned();
                    description.append(path);
                    Self::at_thirty(description, frames)
                }
            },
            None => Self::placeholder(),
        }
    }

    /// A source for the file that the environment names, if it names one; the
    /// file's contents come with its path where it could be read.
    pub fn from_env(file: Option<(String, Option<Vec<u8>>)>) -> (source: Self)
        ensures
            match file {
                Some((path, Some(data))) => if access_units(data@).len() == 0 {
                    source.plays("raw H.264 file "@ + path@, seq![data@])
                } else {
                    source.plays("Annex B H.264 file "@ + path@, access_units(data@))
                },
                _ => source.plays("fallback H.264 placeholder"@, seq![fallback_frame()]),
            },
    {
        match file {
            Some((path, contents)) => Self::from_path(path.as_str(), contents),
            None => Self::placeholder(),
        }
    }

    /// What the source is called.
    pub fn description(&self) -> (text: &str)
        ensures
            text@ == self.description@,
    {
        self.description.as_str()
    }

    /// The number of frames that the source plays.
    pub fn frame_count_hint(&self) -> (count: Option<usize>)
        ensures
            count matches Some(n) && n == self.frames@.len(),
    {
        Some(self.frames.len())
    }

    /// Milliseconds from one frame to the next.
    pub fn frame_interval_ms(&self) -> (ms: u64)
        ensures
            ms == self.clock.frame_interval_ms,
    {
        self.clock.frame_interval_ms
    }

    /// The next frame; after the last one the source begins again.
    pub fn next_frame(&mut self) -> (frame: Result<EncodedVideoFrame, VideoSourceError>)
        requires
            old(self).wf(),
        ensures
            final(self).wf(),
            final(self).frames@ == old(self).frames@,
            final(self).description == old(self).description,
            final(self).clock.timestamp_step == old(self).clock.timestamp_step,
            final(self).clock.frame_interval_ms == old(self).clock.frame_interval_ms,
            match frame {
                Ok(f) => {
                    &&& old(self).frames@.len() > 0
                    &&& f.data@ == old(self).frames@[old(self).next_index as int]@
                    &&& f.frame_index == old(self).clock.frame_index
                    &&& f.timestamp_90khz == frame_time(
                        old(self).clock.frame_index,
                        old(self).clock.timestamp_step,
                    )
                    &&& final(self).next_index == (old(self).next_index + 1) % (old(
                        self,
                    ).frames@.len() as int)
                    &&& final(self).clock.frame_index == (old(self).clock.frame_index + 1)
                        % 0x1_0000_0000
                },
                Err(e) => {
                    &&& e is NoFrames
                    &&& old(self).frames@.len() == 0
                    &&& final(self).next_index == old(self).next_index
                    &&& final(self).clock == old(self).clock
                },
            },
    {
        let count: usize = self.frames.len();
        if count == 0 {
            return Err(VideoSourceError::NoFrames);
        }
        let data = copy_bytes(&self.frames[self.next_index]);
        let next: usize = self.next_index + 1;
        if next == count {
            self.next_index = 0;
            proof {
                vstd::arithmetic::div_mod::lemma_mod_self_0(count as int);
            }
        } else {
            self.next_index = next;
            proof {
                vstd::arithmetic::div_mod::lemma_small_mod(next as nat, count as nat);
            }
        }
        Ok(self.clock.stamp(data))
    }

    /// Begins again with the first frame, which a decoder can start from.
    pub fn request_idr(&mut self)
        ensures
            final(self).next_index == 0,
            final(self).frames@ == old(self).frames@,
            final(self).description == old(self).description,
            final(self).clock == old(self).clock,
            final(self).wf(),
    {
        self.next_index = 0;
    }
}

/// The position from which a source that is at `index` plays after `n` frames.
pub open spec fn position_after(count: nat, index: nat, n: nat) -> int {
    ((index + n) as int) % (count as int)
}

/// A source plays its frames in order and, after as many as it holds, stands
/// where it stood; each step is that of `next_frame`.
pub proof fn source_cycles(count: nat, index: nat, n: nat)
    requires
        0 < count,
        index < count,
    ensures
        position_after(count, index, 0) == index,
        position_after(count, index, n + 1) == (position_after(count, index, n) + 1) % (
        count as int),
        position_after(count, index, count) == index,
{
    vstd::arithmetic::div_mod::lemma_small_mod(index, count);
    vstd::arithmetic::div_mod::lemma_add_mod_noop((index + n) as int, 1, count as int);
    vstd::arithmetic::div_mod::lemma_mod_twice((index + n) as int, count as int);
    vstd::arithmetic::div_mod::lemma_add_mod_noop(
        ((index + n) as int) % (count as int),
        1,
        count as int,
    );
    vstd::arithmetic::div_mod::lemma_mod_add_multiples_vanish(index as int, count as int);
}

// ---------------------------------------------------------------------------
// Frames out of an encoder's byte stream
// ---------------------------------------------------------------------------
/// Cuts the byte stream of an encoder into access units as it arrives.
#[derive(Debug, PartialEq, Eq)]
pub struct FrameAssembler {
    /// The bytes that no complete access unit has taken yet.
    pub pending: Vec<u8>,
}

/// The access units that are complete once `data` is there, and what remains.
pub open spec fn complete_frames(data: Seq<u8>) -> (Seq<Seq<u8>>, Seq<u8>) {
    let frames = access_units(data);
    if frames.len() > 1 {
        (frames.drop_last(), frames.last())
    } else {
        (Seq::empty(), data)
    }
}

impl FrameAssembler {
    /// An assembler that has seen nothing.
    pub fn new() -> (assembler: Self)
        ensures
            assembler.pending@ == Seq::<u8>::empty(),
    {
        let pending: Vec<u8> = Vec::new();
        assert(pending@ =~= Seq::<u8>::empty());
        Self { pending }
    }

    /// Takes in more of the stream and gives the access units that another one
    /// has begun after.
    pub fn accept(&mut self, chunk: &[u8]) -> (frames: Vec<Vec<u8>>)
        ensures
            (views(frames@), final(self).pending@) == complete_frames(
                old(self).pending@ + chunk@,
            ),
    {
        append_bytes(&mut self.pending, chunk);
        let mut frames = split_annex_b_access_units(&self.pending);
        assert(views(frames@).len() == frames@.len());
        if frames.len() > 1 {
            let ghost before = frames@;
            match frames.pop() {
                Some(last) => {
                    assert(last@ == views(before).last());
                    assert(views(frames@) =~= views(before).drop_last());
                    self.pending = last;
                },
                None => {},
            }
            frames
        } else {
            let none: Vec<Vec<u8>> = Vec::new();
            assert(views(none@) =~= Seq::<Seq<u8>>::empty());
            none
        }
    }

    /// The access units that remain when the stream has ended.
    pub fn finish(&self) -> (frames: Vec<Vec<u8>>)
        ensures
            views(frames@) == access_units(self.pending@),
    {
        split_annex_b_access_units(&self.pending)
    }
}

/// The access units given, and the bytes pending, after the chunks of a stream.
pub open spec fn assembled(chunks: Seq<Seq<u8>>) -> (Seq<Seq<u8>>, Seq<u8>)
    decreases chunks.len(),
{
    if chunks.len() == 0 {
        (Seq::empty(), Seq::empty())
    } else {
        let (given, pending) = assembled(chunks.drop_last());
        let (more, rest) = complete_frames(pending + chunks.last());
        (given + more, rest)
    }
}

proof fn lemma_first_start_stays(data: Seq<u8>, more: Seq<u8>)
    requires
        (data + more).len() <= usize::MAX,
        start_codes(data).len() > 0,
    ensures
        start_codes(data + more).len() > 0,
        start_codes(data + more)[0] == start_codes(data)[0],
{
    let all = data + more;
    start_codes_are_exactly_the_starts(data);
    start_codes_are_exactly_the_starts(all);
    let old_starts = start_codes(data);
    let new_starts = start_codes(all);
    let s = old_starts[0] as int;
    lemma_start_in_range(data, 0);
    assert(starts_unit(data, s));
    assert(starts_unit(all, s));
    assert(new_starts.contains(s as usize));
    lemma_start_in_range(all, 0);
    let t = new_starts[0] as int;
    assert(t <= s) by {
        let k = choose|k: int| 0 <= k < new_starts.len() && new_starts[k] == s as usize;
        assert(new_starts[0] <= new_starts[k]);
    }
    if t < s {
        assert(starts_unit(all, t));
        assert(starts_unit(data, t));
        assert(old_starts.contains(t as usize));
        let j = choose|j: int| 0 <= j < old_starts.len() && old_starts[j] == t as usize;
        assert(old_starts[0] <= old_starts[j]);
    }
}

proof fn lemma_start_in_range(data: Seq<u8>, k: int)
    requires
        data.len() <= usize::MAX,
        0 <= k < start_codes(data).len(),
    ensures
        0 <= start_codes(data)[k] < data.len(),
        starts_unit(data, start_codes(data)[k] as int),
{
    crate::h264::lemma_starts_below(data, data.len() as int);
}

proof fn lemma_begins_at_zero(data: Seq<u8>)
    requires
        data.len() <= usize::MAX,
        begins_with_code(data),
    ensures
        start_codes(data).len() > 0,
        start_codes(data)[0] == 0,
{
    start_codes_are_exactly_the_starts(data);
    assert(starts_unit(data, 0));
    assert(start_codes(data).contains(0usize));
    let k = choose|k: int| 0 <= k < start_codes(data).len() && start_codes(data)[k] == 0usize;
    lemma_start_in_range(data, 0);
    assert(start_codes(data)[0] <= start_codes(data)[k]);
}

proof fn lemma_complete_frames(data: Seq<u8>)
    requires
        data.len() <= usize::MAX,
    ensures
        ({
            let (frames, rest) = complete_frames(data);
            &&& rest.len() <= data.len()
            &&& frames.len() == 0 ==> rest == data
            &&& frames.len() > 0 ==> {
                &&& start_codes(data).len() > 0
                &&& concat(frames) + rest == data.skip(start_codes(data)[0] as int)
                &&& begins_with_code(rest)
            }
        }),
{
    let all = access_units(data);
    access_units_cover_the_data(data);
    if all.len() > 1 {
        access_units_begin_with_start_codes(data, all.len() - 1);
        lemma_start_in_range(data, 0);
        assert(concat(all) == concat(all.drop_last()) + all.last());
        assert(concat(all).len() == concat(all.drop_last()).len() + all.last().len());
        assert(data.skip(start_codes(data)[0] as int).len() <= data.len());
    }
}

proof fn lemma_assembled(chunks: Seq<Seq<u8>>)
    requires
        concat(chunks).len() <= usize::MAX,
    ensures
        ({
            let (given, pending) = assembled(chunks);
            let total = concat(chunks);
            &&& pending.len() <= total.len()
            &&& given.len() == 0 ==> pending == total
            &&& given.len() > 0 ==> {
                &&& start_codes(total).len() > 0
                &&& concat(given) + pending == total.skip(start_codes(total)[0] as int)
                &&& begins_with_code(pending)
            }
        }),
    decreases chunks.len(),
{
    if chunks.len() > 0 {
        let shorter = chunks.drop_last();
        let chunk = chunks.last();
        let total = concat(shorter);
        lemma_assembled(shorter);
        let (given, pending) = assembled(shorter);
        let data = pending + chunk;
        let (more, rest) = complete_frames(data);
        lemma_complete_frames(data);
        lemma_concat_append(given, more);
        if given.len() == 0 {
            assert(given + more =~= more);
        } else {
            lemma_first_start_stays(total, chunk);
            let s = start_codes(total)[0] as int;
            lemma_start_in_range(total, 0);
            assert((total + chunk).skip(s) =~= total.skip(s) + chunk);
            assert(begins_with_code(data));
            lemma_begins_at_zero(data);
            assert(data.skip(0) =~= data);
            if more.len() == 0 {
                assert(given + more =~= given);
            }
            assert(concat(given) + data =~= (total + chunk).skip(s));
            if more.len() > 0 {
                assert(concat(more) + rest == data);
                assert(concat(given + more) + rest =~= concat(given) + (concat(more) + rest));
            }
        }
    }
}

/// However an encoder's stream is cut into chunks, the access units given for it
/// hold every byte from its first start code on, once and in order.
pub proof fn assembling_keeps_the_stream(chunks: Seq<Seq<u8>>)
    requires
        concat(chunks).len() <= usize::MAX,
    ensures
        ({
            let (given, pending) = assembled(chunks);
            let total = concat(chunks);
            concat(given + access_units(pending)) == if start_codes(total).len() > 0 {
                total.skip(start_codes(total)[0] as int)
            } else {
                Seq::empty()
            }
        }),
{
    let (given, pending) = assembled(chunks);
    lemma_assembled(chunks);
    lemma_concat_append(given, access_units(pending));
    access_units_cover_the_data(pending);
    if given.len() == 0 {
        assert(given + access_units(pending) =~= access_units(pending));
    } else {
        lemma_begins_at_zero(pending);
        assert(pending.skip(0) =~= pending);
    }
}

// ---------------------------------------------------------------------------
// What a source gives
// ---------------------------------------------------------------------------
/// A clock for a number of frames a second steps by the largest whole number of ticks,
/// of which a second has 90000, and of milliseconds that as many frames fit a second
/// with; no frames a second count as one. Its first frame has number one.
pub proof fn clocks_step_by_the_rate(fps: u32, clock: FrameClock)
    requires
        call_ensures(FrameClock::new, (fps,), clock),
    ensures
        ({
            let rate = if fps == 0 {
                1
            } else {
                fps as int
            };
            &&& clock.timestamp_step * rate <= 90_000 < (clock.timestamp_step + 1) * rate
            &&& clock.frame_interval_ms * rate <= 1000 < (clock.frame_interval_ms + 1) * rate
        }),
        clock.frame_index == 1,
{
    let rate = effective_fps(fps) as int;
    lemma_quotient(90_000, rate);
    lemma_quotient(1000, rate);
}

proof fn lemma_quotient(n: int, d: int)
    requires
        0 <= n,
        0 < d,
    ensures
        (n / d) * d <= n < (n / d + 1) * d,
{
    vstd::arithmetic::div_mod::lemma_fundamental_div_mod(n, d);
    vstd::arithmetic::div_mod::lemma_mod_bound(n, d);
    let q = n / d;
    assert(q * d == d * q) by (nonlinear_arith);
    assert((q + 1) * d == q * d + d) by (nonlinear_arith);
}

/// Frames are numbered one after the other, and frame number `n` comes `n` steps after
/// time zero, or at the largest time that fits.
pub proof fn frames_are_stamped_in_order(
    clock: &mut FrameClock,
    data: Vec<u8>,
    frame: EncodedVideoFrame,
)
    requires
        call_ensures(FrameClock::stamp, (clock, data), frame),
    ensures
        frame.data@ == data@,
        frame.frame_index == old(clock).frame_index,
        old(clock).frame_index * old(clock).timestamp_step <= 0xffff_ffff ==> frame.timestamp_90khz
            == old(clock).frame_index * old(clock).timestamp_step,
        old(clock).frame_index * old(clock).timestamp_step > 0xffff_ffff ==> frame.timestamp_90khz
            == 0xffff_ffff,
        final(clock).frame_index == (old(clock).frame_index + 1) % 0x1_0000_0000,
        final(clock).timestamp_step == old(clock).timestamp_step,
{
}

/// A source gives its frames in order, the first one again after the last, and numbers
/// and times them on.
pub proof fn sources_play_their_frames_in_order(
    source: &mut AnnexBVideoSource,
    frame: Result<EncodedVideoFrame, VideoSourceError>,
)
    requires
        old(source).wf(),
        old(source).frames@.len() > 0,
        call_ensures(AnnexBVideoSource::next_frame, (source,), frame),
    ensures
        frame matches Ok(f) && {
            &&& f.data@ == old(source).frames@[old(source).next_index as int]@
            &&& f.frame_index == old(source).clock.frame_index
            &&& old(source).clock.frame_index * old(source).clock.timestamp_step <= 0xffff_ffff
                ==> f.timestamp_90khz == old(source).clock.frame_index * old(
                source,
            ).clock.timestamp_step
        },
        final(source).next_index == if old(source).next_index + 1 < old(source).frames@.len() {
            old(source).next_index + 1
        } else {
            0
        },
        final(source).frames@ == old(source).frames@,
        final(source).clock.frame_index == (old(source).clock.frame_index + 1) % 0x1_0000_0000,
{
    let n = old(source).frames@.len();
    let next = (old(source).next_index + 1) as nat;
    if next < n {
        vstd::arithmetic::div_mod::lemma_small_mod(next, n);
    } else {
        vstd::arithmetic::div_mod::lemma_mod_self_0(n as int);
    }
}

/// After an IDR frame has been asked for, the next frame is the first one, under the
/// number and the time that come next.
pub proof fn asking_for_an_idr_frame_starts_over(
    source: &mut AnnexBVideoSource,
    later: &mut AnnexBVideoSource,
    frame: Result<EncodedVideoFrame, VideoSourceError>,
)
    requires
        call_ensures(AnnexBVideoSource::request_idr, (source,), ()),
        *old(later) == *final(source),
        old(source).frames@.len() > 0,
        call_ensures(AnnexBVideoSource::next_frame, (later,), frame),
    ensures
        frame matches Ok(f) && f.data@ == old(source).frames@[0]@ && f.frame_index == old(
            source,
        ).clock.frame_index,
{
}

/// A file with start codes is played access unit by access unit, one without as a single
/// frame, and a fixed parameter set stands in for one that cannot be read; all
/// at thirty frames a second, which is a step of 3000 ticks.
pub proof fn files_are_played_at_thirty_frames(
    path: &str,
    contents: Option<Vec<u8>>,
    source: AnnexBVideoSource,
)
    requires
        call_ensures(AnnexBVideoSource::from_path, (path, contents), source),
    ensures
        source.next_index == 0,
        source.clock.frame_index == 1,
        source.clock.timestamp_step == 3000,
        source.clock.frame_interval_ms == 33,
        match contents {
            None => {
                &&& source.description@ == "fallback H.264 placeholder"@
                &&& views(source.frames@) == seq![
                    seq![
                        0x00u8, 0x00u8, 0x00u8, 0x01u8, 0x67u8, 0x42u8, 0x00u8, 0x1fu8, 0x8du8,
                        0x68u8, 0x50u8, 0x1eu8, 0xd0u8, 0x0fu8, 0x12u8, 0x26u8, 0xa0u8,
                    ],
                ]
            },
            Some(data) => if start_codes(data@).len() == 0 {
                &&& source.description@ == "raw H.264 file "@ + path@
                &&& views(source.frames@) == seq![data@]
            } else {
                &&& source.description@ == "Annex B H.264 file "@ + path@
                &&& concat(views(source.frames@)) == data@.skip(start_codes(data@)[0] as int)
            },
        },
{
    match contents {
        Some(data) => {
            lemma_vec_len(data);
            access_units_cover_the_data(data@);
        },
        None => {},
    }
}

proof fn lemma_vec_len(data: Vec<u8>)
    ensures
        data@.len() <= usize::MAX,
{
    assert(data@.len() == data.len());
}

/// What an assembler gives for a chunk, and what it still holds, are together the access
/// units of what it held before and the chunk; it holds back the last one, since more of
/// it may come, and only that.
pub proof fn assemblers_hold_back_the_last_frame(
    assembler: &mut FrameAssembler,
    chunk: &[u8],
    frames: Vec<Vec<u8>>,
    later: &FrameAssembler,
    rest: Vec<Vec<u8>>,
)
    requires
        call_ensures(FrameAssembler::accept, (assembler, chunk), frames),
        *later == *final(assembler),
        call_ensures(FrameAssembler::finish, (later,), rest),
        (old(assembler).pending@ + chunk@).len() <= usize::MAX,
    ensures
        views(frames@) + views(rest@) == access_units(old(assembler).pending@ + chunk@),
        rest@.len() <= 1,
        frames@.len() == 0 ==> final(assembler).pending@ == old(assembler).pending@ + chunk@,
{
    let data = old(assembler).pending@ + chunk@;
    let all = access_units(data);
    assert(views(frames@).len() == frames@.len());
    assert(views(rest@).len() == rest@.len());
    if all.len() > 1 {
        access_units_are_whole(data, all.len() - 1);
        assert(all.drop_last() + seq![all.last()] =~= all);
        assert(views(rest@) == seq![all.last()]);
    } else {
        assert(views(frames@) =~= Seq::empty());
        assert(views(frames@) + views(rest@) =~= all);
    }
}

/// Without a file the placeholder is played; with one, what the file holds. A source tells
/// how many frames it has and how long each lasts.
pub proof fn sources_come_from_files(
    path: String,
    same_path: &str,
    contents: Option<Vec<u8>>,
    named: AnnexBVideoSource,
    direct: AnnexBVideoSource,
    unnamed: AnnexBVideoSource,
    placeholder: AnnexBVideoSource,
    source: &AnnexBVideoSource,
    count: Option<usize>,
    ms: u64,
)
    requires
        call_ensures(AnnexBVideoSource::from_env, (Some((path, contents)),), named),
        same_path@ == path@,
        call_ensures(AnnexBVideoSource::from_path, (same_path, contents), direct),
        call_ensures(
            AnnexBVideoSource::from_env,
            (None::<(String, Option<Vec<u8>>)>,),
            unnamed,
        ),
        call_ensures(AnnexBVideoSource::placeholder, (), placeholder),
        call_ensures(AnnexBVideoSource::frame_count_hint, (source,), count),
        call_ensures(AnnexBVideoSource::frame_interval_ms, (source,), ms),
    ensures
        views(named.frames@) == views(direct.frames@),
        named.description@ == direct.description@,
        views(unnamed.frames@) == views(placeholder.frames@),
        placeholder.frames@.len() == 1,
        unnamed.description@ == "fallback H.264 placeholder"@,
        count == Some(source.frames@.len() as usize),
        ms == source.clock.frame_interval_ms,
{
    assert(views(placeholder.frames@).len() == placeholder.frames@.len());
    assert(source.frames@.len() == source.frames.len());
}

} // verus!
