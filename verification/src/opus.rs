//! Audio that is captured, checked and encoded packet by packet.
use vstd::prelude::*;
use vstd::string::*;
use crate::audio::{
    AUDIO_CHANNELS, AUDIO_FRAME_SAMPLES_PER_CHANNEL, AUDIO_SAMPLE_RATE, PACKET_INTERVAL_MS,
};
use crate::rtp::EncodedAudioPacket;

verus! {

/// The samples of all channels in one audio packet.
pub const OPUS_FRAME_SAMPLES: usize = AUDIO_FRAME_SAMPLES_PER_CHANNEL * 2;

/// A stretch of captured audio; `S` is the type of a sample.
#[derive(Debug, PartialEq)]
pub struct PcmAudioFrame<S> {
    pub samples: Vec<S>,
    pub sample_rate: u32,
    pub channels: u16,
}

/// Why captured audio cannot be encoded.
#[derive(Clone, Copy, Debug, PartialEq, Eq, Structural)]
pub enum FrameError {
    SampleRate(u32),
    ChannelCount(u16),
    SampleCount(usize),
}

/// The audio has the shape that the stream is made for.
pub open spec fn fits_stream<S>(frame: PcmAudioFrame<S>) -> bool {
    &&& frame.sample_rate == AUDIO_SAMPLE_RATE
    &&& frame.channels == AUDIO_CHANNELS
    &&& frame.samples@.len() == OPUS_FRAME_SAMPLES
}

/// What is wrong with the shape of audio: first the rate counts, then the channels,
/// then the number of samples.
pub open spec fn frame_error<S>(frame: PcmAudioFrame<S>) -> Option<FrameError> {
    if frame.sample_rate != AUDIO_SAMPLE_RATE {
        Some(FrameError::SampleRate(frame.sample_rate))
    } else if frame.channels != AUDIO_CHANNELS {
        Some(FrameError::ChannelCount(frame.channels))
    } else if frame.samples@.len() != OPUS_FRAME_SAMPLES {
        Some(FrameError::SampleCount(frame.samples@.len() as usize))
    } else {
        None
    }
}

/// Checks that audio has the shape that the stream is made for.
pub fn validate_opus_frame<S>(frame: &PcmAudioFrame<S>) -> (checked: Result<(), FrameError>)
    ensures
        match checked {
            Ok(()) => frame_error(*frame) is None && fits_stream(*frame),
            Err(e) => frame_error(*frame) == Some(e) && !fits_stream(*frame),
        },
{
    if frame.sample_rate != AUDIO_SAMPLE_RATE {
        return Err(FrameError::SampleRate(frame.sample_rate));
    }
    if frame.channels != AUDIO_CHANNELS {
        return Err(FrameError::ChannelCount(frame.channels));
    }
    let count: usize = frame.samples.len();
    if count != OPUS_FRAME_SAMPLES {
        return Err(FrameError::SampleCount(count));
    }
    Ok(())
}

/// Something that captures audio.
pub trait PcmAudioCapture: Sized {
    type Sample;

    type Error;

    /// What the capture is called.
    fn description(&self) -> &str;

    /// The next stretch of audio.
    fn next_frame(&mut self) -> (frame: Result<PcmAudioFrame<Self::Sample>, Self::Error>);
}

/// Something that encodes audio.
pub trait OpusFrameEncoder: Sized {
    type Sample;

    type Error;

    /// Encodes samples.
    fn encode_float(&mut self, samples: &[Self::Sample]) -> (payload: Result<Vec<u8>, Self::Error>);
}

/// Why there is no next packet.
#[derive(Debug, PartialEq, Eq)]
pub enum OpusSourceError<C, E> {
    /// Capturing failed.
    Capture(C),
    /// The captured audio has the wrong shape.
    Frame(FrameError),
    /// Encoding failed.
    Encode(E),
}

/// A source of audio packets: audio is captured, checked and encoded.
pub struct CapturedOpusSource<C, E> {
    pub capture: C,
    pub encoder: E,
    pub timestamp: u32,
    pub description: String,
}

impl<C: PcmAudioCapture, E: OpusFrameEncoder<Sample = C::Sample>> CapturedOpusSource<C, E> {
    /// A source at time zero.
    pub fn new(capture: C, encoder: E) -> (source: Self)
        ensures
            source.capture == capture,
            source.encoder == encoder,
            source.timestamp == 0,
            exists|name: &str|
                call_ensures(C::description, (&capture,), name) && source.description@
                    == #[trigger] name@ + " via Opus"@,
    {
        let mut description = capture.description().to_owned();
        description.append(" via Opus");
        CapturedOpusSource { capture, encoder, timestamp: 0, description }
    }

    /// What the source is called.
    pub fn description(&self) -> (text: &str)
        ensures
            text@ == self.description@,
    {
        self.description.as_str()
    }

    /// Milliseconds between two packets.
    pub fn packet_interval_ms(&self) -> (ms: u64)
        ensures
            ms == PACKET_INTERVAL_MS,
    {
        PACKET_INTERVAL_MS
    }

    /// Captures, checks and encodes the next stretch of audio. The clock moves on
    /// by one packet where all of it succeeds and stands still where not.
    pub fn next_packet(&mut self) -> (packet: Result<
        EncodedAudioPacket,
        OpusSourceError<C::Error, E::Error>,
    >)
        ensures
            final(self).description == old(self).description,
            match packet {
                Ok(p) => {
                    &&& p.timestamp == old(self).timestamp
                    &&& final(self).timestamp == (old(self).timestamp + 960) % 0x1_0000_0000
                },
                Err(_) => final(self).timestamp == old(self).timestamp,
            },
            exists|capture: &mut C, frame: Result<PcmAudioFrame<C::Sample>, C::Error>|
                {
                    &&& *capture == old(self).capture
                    &&& *final(capture) == final(self).capture
                    &&& #[trigger] call_ensures(C::next_frame, (capture,), frame)
                    &&& match frame {
                        Err(e) => packet == Err::<EncodedAudioPacket, _>(
                            OpusSourceError::<C::Error, E::Error>::Capture(e),
                        ) && final(self).encoder == old(self).encoder,
                        Ok(f) => if !fits_stream(f) {
                            &&& packet matches Err(OpusSourceError::Frame(e)) && frame_error(f)
                                == Some(e)
                            &&& final(self).encoder == old(self).encoder
                        } else {
                            exists|
                                encoder: &mut E,
                                samples: &[C::Sample],
                                payload: Result<Vec<u8>, E::Error>,
                            |
                                {
                                    &&& *encoder == old(self).encoder
                                    &&& *final(encoder) == final(self).encoder
                                    &&& samples@ == f.samples@
                                    &&& #[trigger] call_ensures(
                                        E::encode_float,
                                        (encoder, samples),
                                        payload,
                                    )
                                    &&& match payload {
                                        Ok(bytes) => packet matches Ok(p) && p.payload == bytes,
                                        Err(e) => packet == Err::<EncodedAudioPacket, _>(
                                            OpusSourceError::<C::Error, E::Error>::Encode(e),
                                        ),
                                    }
                                }
                        },
                    }
                },
    {
        let frame = match self.capture.next_frame() {
            Ok(frame) => frame,
            Err(e) => {
                return Err(OpusSourceError::Capture(e));
            },
        };
        match validate_opus_frame(&frame) {
            Ok(()) => {},
            Err(e) => {
                return Err(OpusSourceError::Frame(e));
            },
        }
        match self.encoder.encode_float(frame.samples.as_slice()) {
            Ok(payload) => {
                let timestamp: u32 = self.timestamp;
                self.timestamp = timestamp.wrapping_add(960);
                let packet = EncodedAudioPacket { payload, timestamp };
                Ok(packet)
            },
            Err(e) => Err(OpusSourceError::Encode(e)),
        }
    }
}

// ---------------------------------------------------------------------------
// Captured samples that wait to be encoded
// ---------------------------------------------------------------------------
/// Captured samples that wait to be encoded.
pub struct PendingSamples<S> {
    pub samples: Vec<S>,
}

impl<S: Copy> PendingSamples<S> {
    /// No samples.
    pub fn new() -> (pending: Self)
        ensures
            pending.samples@.len() == 0,
    {
        PendingSamples { samples: Vec::new() }
    }

    /// Adds captured samples.
    pub fn extend(&mut self, samples: &[S])
        ensures
            final(self).samples@ == old(self).samples@ + samples@,
    {
        let ghost before = self.samples@;
        let mut i: usize = 0;
        assert(before + samples@.take(0) =~= before);
        while i < samples.len()
            invariant
                i <= samples@.len(),
                self.samples@ == before + samples@.take(i as int),
            decreases samples@.len() - i,
        {
            self.samples.push(samples[i]);
            assert(before + samples@.take(i + 1) =~= (before + samples@.take(i as int)).push(
                samples@[i as int],
            ));
            i += 1;
        }
        assert(samples@.take(i as int) =~= samples@);
    }

    /// Adds silence for the given number of frames of all channels.
    pub fn extend_silence(&mut self, frames: u32, silence: S)
        requires
            frames * 2 <= usize::MAX,
        ensures
            final(self).samples@ == old(self).samples@ + Seq::new(
                (frames * 2) as nat,
                |i: int| silence,
            ),
    {
        let ghost before = self.samples@;
        let count: usize = (frames as usize) * 2;
        let mut i: usize = 0;
        while i < count
            invariant
                i <= count,
                self.samples@ =~= before + Seq::new(i as nat, |j: int| silence),
            decreases count - i,
        {
            self.samples.push(silence);
            i += 1;
        }
    }

    /// Whether another packet can be filled.
    pub fn has_frame(&self) -> (full: bool)
        ensures
            full == (self.samples@.len() >= OPUS_FRAME_SAMPLES),
    {
        self.samples.len() >= OPUS_FRAME_SAMPLES
    }

    /// The samples of one packet, the oldest first, completed with silence where
    /// too few wait; the others go on waiting.
    pub fn take_frame(&mut self, silence: S) -> (frame: PcmAudioFrame<S>)
        ensures
            fits_stream(frame),
            frame.samples@ == if old(self).samples@.len() >= OPUS_FRAME_SAMPLES {
                old(self).samples@.take(OPUS_FRAME_SAMPLES as int)
            } else {
                old(self).samples@ + Seq::new(
                    (OPUS_FRAME_SAMPLES - old(self).samples@.len()) as nat,
                    |i: int| silence,
                )
            },
            final(self).samples@ == if old(self).samples@.len() >= OPUS_FRAME_SAMPLES {
                old(self).samples@.skip(OPUS_FRAME_SAMPLES as int)
            } else {
                Seq::empty()
            },
    {
        let ghost waiting = self.samples@;
        while self.samples.len() < OPUS_FRAME_SAMPLES
            invariant
                waiting == old(self).samples@,
                waiting.len() <= self.samples@.len(),
                waiting.len() >= OPUS_FRAME_SAMPLES ==> self.samples@ == waiting,
                waiting.len() < OPUS_FRAME_SAMPLES ==> self.samples@.len() <= OPUS_FRAME_SAMPLES,
                self.samples@ =~= waiting + Seq::new(
                    (self.samples@.len() - waiting.len()) as nat,
                    |i: int| silence,
                ),
            decreases OPUS_FRAME_SAMPLES - self.samples@.len(),
        {
            self.samples.push(silence);
        }
        let ghost padded = self.samples@;
        let mut rest = self.samples.split_off(OPUS_FRAME_SAMPLES);
        assert(rest@ =~= padded.skip(OPUS_FRAME_SAMPLES as int));
        std::mem::swap(&mut rest, &mut self.samples);
        assert(rest@ =~= padded.take(OPUS_FRAME_SAMPLES as int));
        proof {
            if waiting.len() < OPUS_FRAME_SAMPLES {
                assert(padded.take(OPUS_FRAME_SAMPLES as int) =~= padded);
                assert(padded.skip(OPUS_FRAME_SAMPLES as int) =~= Seq::empty());
            }
        }
        PcmAudioFrame { samples: rest, sample_rate: AUDIO_SAMPLE_RATE, channels: AUDIO_CHANNELS }
    }
}

// ---------------------------------------------------------------------------
// The format of the sound device
// ---------------------------------------------------------------------------
/// How a sound device stores a sample.
#[derive(Clone, Copy, Debug, PartialEq, Eq, Structural)]
pub enum WasapiSampleFormat {
    Float32,
    Int16,
    Unsupported,
}

/// The kind of samples that an extensible format tells of.
#[derive(Clone, Copy, Debug, PartialEq, Eq, Structural)]
pub enum WaveSubFormat {
    IeeeFloat,
    Pcm,
    Other,
}

pub const WAVE_FORMAT_PCM: u32 = 1;

pub const WAVE_FORMAT_IEEE_FLOAT: u32 = 3;

pub const WAVE_FORMAT_EXTENSIBLE: u32 = 0xfffe;

/// How samples are stored, by the tag of the format and, where that leaves it
/// open, by what the extensible format tells.
pub fn wave_sample_format(tag: u16, sub_format: WaveSubFormat) -> (format: WasapiSampleFormat)
    ensures
        format == if tag == WAVE_FORMAT_IEEE_FLOAT || tag == WAVE_FORMAT_EXTENSIBLE
            && sub_format is IeeeFloat {
            WasapiSampleFormat::Float32
        } else if tag == WAVE_FORMAT_PCM || tag == WAVE_FORMAT_EXTENSIBLE && sub_format is Pcm {
            WasapiSampleFormat::Int16
        } else {
            WasapiSampleFormat::Unsupported
        },
{
    let tag: u32 = tag as u32;
    if tag == WAVE_FORMAT_IEEE_FLOAT {
        WasapiSampleFormat::Float32
    } else if tag == WAVE_FORMAT_PCM {
        WasapiSampleFormat::Int16
    } else if tag == WAVE_FORMAT_EXTENSIBLE {
        match sub_format {
            WaveSubFormat::IeeeFloat => WasapiSampleFormat::Float32,
            WaveSubFormat::Pcm => WasapiSampleFormat::Int16,
            WaveSubFormat::Other => WasapiSampleFormat::Unsupported,
        }
    } else {
        WasapiSampleFormat::Unsupported
    }
}

/// The format in which a sound device mixes.
#[derive(Clone, Copy, Debug, PartialEq, Eq, Structural)]
pub struct WasapiMixFormat {
    pub sample_rate: u32,
    pub channels: u16,
    pub bits_per_sample: u16,
    pub block_align: u16,
    pub sample_format: WasapiSampleFormat,
}

/// Why the format of a sound device cannot be captured.
#[derive(Clone, Copy, Debug, PartialEq, Eq, Structural)]
pub enum MixFormatError {
    /// Rate or channels are not those of the stream.
    Shape { sample_rate: u32, channels: u16 },
    /// Samples are stored in another way than as 32-bit floats or 16-bit integers.
    Samples { format: WasapiSampleFormat, bits: u16 },
}

impl WasapiMixFormat {
    /// Checks that the format can be captured for the stream.
    pub fn validate_for_opus_rtp(&self) -> (checked: Result<(), MixFormatError>)
        ensures
            checked == if self.sample_rate != AUDIO_SAMPLE_RATE || self.channels
                != AUDIO_CHANNELS {
                Err(
                    MixFormatError::Shape {
                        sample_rate: self.sample_rate,
                        channels: self.channels,
                    },
                )
            } else if self.sample_format is Float32 && self.bits_per_sample == 32
                || self.sample_format is Int16 && self.bits_per_sample == 16 {
                Ok(())
            } else {
                Err(
                    MixFormatError::Samples {
                        format: self.sample_format,
                        bits: self.bits_per_sample,
                    },
                )
            },
    {
        if self.sample_rate != AUDIO_SAMPLE_RATE || self.channels != AUDIO_CHANNELS {
            return Err(
                MixFormatError::Shape { sample_rate: self.sample_rate, channels: self.channels },
            );
        }
        match (self.sample_format, self.bits_per_sample) {
            (WasapiSampleFormat::Float32, 32) => Ok(()),
            (WasapiSampleFormat::Int16, 16) => Ok(()),
            _ => Err(
                MixFormatError::Samples {
                    format: self.sample_format,
                    bits: self.bits_per_sample,
                },
            ),
        }
    }
}

// ---------------------------------------------------------------------------
// The shape of the audio
// ---------------------------------------------------------------------------
/// Audio is encoded exactly when it has 48000 samples a second, two channels and 1920
/// samples, which are twenty milliseconds; otherwise the first of these that is wrong is
/// told.
pub proof fn audio_has_one_shape<S>(frame: &PcmAudioFrame<S>, checked: Result<(), FrameError>)
    requires
        call_ensures(validate_opus_frame::<S>, (frame,), checked),
    ensures
        checked is Ok <==> frame.sample_rate == 48_000 && frame.channels == 2
            && frame.samples@.len() == 1920,
        frame.sample_rate != 48_000 ==> checked == Err::<(), _>(
            FrameError::SampleRate(frame.sample_rate),
        ),
        frame.sample_rate == 48_000 && frame.channels != 2 ==> checked == Err::<(), _>(
            FrameError::ChannelCount(frame.channels),
        ),
        frame.sample_rate == 48_000 && frame.channels == 2 && frame.samples@.len() != 1920
            ==> checked == Err::<(), _>(FrameError::SampleCount(frame.samples@.len() as usize)),
{
}

/// A sound device can be captured exactly when it mixes two channels at 48000 samples a
/// second as 32-bit floats or 16-bit integers; the shape counts before the samples.
pub proof fn devices_have_to_fit_the_stream(
    format: &WasapiMixFormat,
    checked: Result<(), MixFormatError>,
)
    requires
        call_ensures(WasapiMixFormat::validate_for_opus_rtp, (format,), checked),
    ensures
        checked is Ok <==> format.sample_rate == 48_000 && format.channels == 2 && (
        format.sample_format is Float32 && format.bits_per_sample == 32 || format.sample_format
            is Int16 && format.bits_per_sample == 16),
        format.sample_rate != 48_000 || format.channels != 2 ==> checked == Err::<(), _>(
            MixFormatError::Shape { sample_rate: format.sample_rate, channels: format.channels },
        ),
        format.sample_rate == 48_000 && format.channels == 2 && checked is Err ==> checked == Err::<
            (),
            _,
        >(MixFormatError::Samples { format: format.sample_format, bits: format.bits_per_sample }),
{
}

/// The tags of sample formats: 1 are integers, 3 are floats, and fffe leaves it to the
/// extension.
pub proof fn sample_formats_have_their_tags(
    tag: u16,
    sub_format: WaveSubFormat,
    format: WasapiSampleFormat,
)
    requires
        call_ensures(wave_sample_format, (tag, sub_format), format),
    ensures
        tag == 1 ==> format is Int16,
        tag == 3 ==> format is Float32,
        tag == 0xfffe && sub_format is Pcm ==> format is Int16,
        tag == 0xfffe && sub_format is IeeeFloat ==> format is Float32,
        tag == 0xfffe && sub_format is Other ==> format is Unsupported,
        tag != 1 && tag != 3 && tag != 0xfffe ==> format is Unsupported,
{
}

/// Waiting samples come out in the order in which they came in, 1920 at a time; where
/// fewer wait, silence follows them, and none is left.
pub proof fn samples_wait_in_order<S: Copy>(
    pending: &mut PendingSamples<S>,
    silence: S,
    frame: PcmAudioFrame<S>,
    i: int,
)
    requires
        call_ensures(PendingSamples::<S>::take_frame, (pending, silence), frame),
    ensures
        frame.sample_rate == 48_000 && frame.channels == 2 && frame.samples@.len() == 1920,
        0 <= i < 1920 ==> frame.samples@[i] == if i < old(pending).samples@.len() {
            old(pending).samples@[i]
        } else {
            silence
        },
        old(pending).samples@.len() >= 1920 ==> final(pending).samples@ == old(
            pending,
        ).samples@.skip(1920),
        old(pending).samples@.len() < 1920 ==> final(pending).samples@.len() == 0,
{
}

/// Silence is added for both channels of a frame.
pub proof fn silence_fills_both_channels<S: Copy>(
    pending: &mut PendingSamples<S>,
    frames: u32,
    silence: S,
    i: int,
)
    requires
        call_ensures(PendingSamples::<S>::extend_silence, (pending, frames, silence), ()),
    ensures
        final(pending).samples@.len() == old(pending).samples@.len() + 2 * frames,
        final(pending).samples@.take(old(pending).samples@.len() as int) == old(pending).samples@,
        old(pending).samples@.len() <= i < final(pending).samples@.len()
            ==> final(pending).samples@[i] == silence,
{
    assert(final(pending).samples@.take(old(pending).samples@.len() as int)
        =~= old(pending).samples@);
}

/// A source of captured audio begins at time zero; each packet that it gives carries its
/// time, and the next one comes 960 ticks later. A failure does not move the clock.
pub proof fn captured_packets_are_timed<
    C: PcmAudioCapture,
    E: OpusFrameEncoder<Sample = C::Sample>,
>(
    capture: C,
    encoder: E,
    new: CapturedOpusSource<C, E>,
    source: &mut CapturedOpusSource<C, E>,
    packet: Result<EncodedAudioPacket, OpusSourceError<C::Error, E::Error>>,
)
    requires
        call_ensures(CapturedOpusSource::<C, E>::new, (capture, encoder), new),
        call_ensures(CapturedOpusSource::<C, E>::next_packet, (source,), packet),
    ensures
        new.timestamp == 0,
        packet matches Ok(p) ==> p.timestamp == old(source).timestamp && final(source).timestamp == (
        old(source).timestamp + 960) % 0x1_0000_0000,
        packet is Err ==> final(source).timestamp == old(source).timestamp,
{
}

/// A packet can be filled once 1920 samples wait, and captured samples wait in order.
pub proof fn packets_are_filled_in_order<S: Copy>(
    pending: &mut PendingSamples<S>,
    samples: &[S],
    later: &PendingSamples<S>,
    full: bool,
)
    requires
        call_ensures(PendingSamples::<S>::extend, (pending, samples), ()),
        *later == *final(pending),
        call_ensures(PendingSamples::<S>::has_frame, (later,), full),
    ensures
        final(pending).samples@ == old(pending).samples@ + samples@,
        full <==> old(pending).samples@.len() + samples@.len() >= 1920,
{
}

} // verus!
