use aes::cipher::generic_array::GenericArray;
use aes::cipher::{BlockDecrypt, KeyInit};
use aes::Aes128;
use sunrise::audio::{audio_iv, AudioEncryptionKey, AudioPacketizer, OpusSilenceSource};
use sunrise::h264::{
    annex_b_start_codes, h264_first_mb_in_slice, h264_nal_unit_count, nal_unit_type,
    rbsp_without_emulation_prevention, read_unsigned_exp_golomb, split_annex_b_access_units,
    split_annex_b_units,
};
use sunrise::opus::{
    validate_opus_frame, wave_sample_format, CapturedOpusSource, FrameError, MixFormatError,
    OpusFrameEncoder, OpusSourceError, PcmAudioCapture, PcmAudioFrame, PendingSamples,
    WasapiMixFormat, WasapiSampleFormat, WaveSubFormat,
};
use sunrise::rtp::{
    build_video_rtp_packets, video_data_packet_count, video_fec_info, video_flags,
    EncodedAudioPacket, EncodedVideoFrame, VideoPacketizer, RTP_AUDIO_HEADER_LEN,
    RTP_AUDIO_PAYLOAD_TYPE, RTP_VIDEO_HEADER_LEN, RTP_VIDEO_PAYLOAD_TYPE,
};
use sunrise::video::{
    fallback_h264_frame, AnnexBVideoSource, FrameAssembler, FrameClock, VideoSourceError,
};

const VIDEO_MAGIC: &[u8; 8] = b"\x017charss";

#[test]
fn counts_annex_b_nal_units() {
    assert_eq!(
        h264_nal_unit_count(&[0, 0, 0, 1, 0x67, 1, 0, 0, 1, 0x68, 2]),
        2
    );
    assert_eq!(h264_nal_unit_count(&[1, 2, 3]), 0);
}

#[test]
fn splits_annex_b_h264_into_nal_units() {
    let units = split_annex_b_units(&[
        0, 0, 0, 1, 0x67, 1, 2, 0, 0, 1, 0x68, 3, 4, 0, 0, 0, 1, 0x65, 5, 6,
    ]);

    assert_eq!(units.len(), 3);
    assert_eq!(units[0], vec![0, 0, 0, 1, 0x67, 1, 2]);
    assert_eq!(units[1], vec![0, 0, 1, 0x68, 3, 4]);
    assert_eq!(units[2], vec![0, 0, 0, 1, 0x65, 5, 6]);
}

#[test]
fn groups_h264_headers_with_following_picture() {
    let frames = split_annex_b_access_units(&[
        0, 0, 0, 1, 0x67, 1, 2, 0, 0, 1, 0x68, 3, 4, 0, 0, 0, 1, 0x65, 0x80, 6, 0, 0, 1, 0x41,
        0x80, 8,
    ]);

    assert_eq!(frames.len(), 2);
    assert!(frames[0].starts_with(&[0, 0, 0, 1, 0x67]));
    assert!(frames[0].ends_with(&[0, 0, 0, 1, 0x65, 0x80, 6]));
    assert_eq!(frames[1], vec![0, 0, 1, 0x41, 0x80, 8]);
}

#[test]
fn keeps_multiple_h264_slices_in_one_access_unit() {
    let frames = split_annex_b_access_units(&[
        0, 0, 0, 1, 0x67, 1, 2, 0, 0, 1, 0x68, 3, 4, 0, 0, 1, 0x65, 0x80, 0, 0, 1, 0x65, 0x40, 0,
        0, 1, 0x65, 0x60, 0, 0, 1, 0x41, 0x80, 0, 0, 1, 0x41, 0x40,
    ]);

    assert_eq!(frames.len(), 2);
    assert_eq!(split_annex_b_units(&frames[0]).len(), 5);
    assert_eq!(split_annex_b_units(&frames[1]).len(), 2);
}

#[test]
fn annex_b_video_source_cycles_frames_with_timestamps() {
    let mut source = AnnexBVideoSource::from_frames("test".to_string(), vec![vec![1], vec![2]], 30);

    let first = source.next_frame().unwrap();
    let second = source.next_frame().unwrap();
    let third = source.next_frame().unwrap();

    assert_eq!(first.data, vec![1]);
    assert_eq!(first.frame_index, 1);
    assert_eq!(first.timestamp_90khz, 3000);
    assert_eq!(second.data, vec![2]);
    assert_eq!(second.frame_index, 2);
    assert_eq!(second.timestamp_90khz, 6000);
    assert_eq!(third.data, vec![1]);
    assert_eq!(third.frame_index, 3);
}

#[test]
fn annex_b_video_source_rewinds_to_first_frame_on_idr_request() {
    let mut source = AnnexBVideoSource::from_frames("test".to_string(), vec![vec![1], vec![2]], 30);
    assert_eq!(source.next_frame().unwrap().data, vec![1]);
    assert_eq!(source.next_frame().unwrap().data, vec![2]);

    source.request_idr();

    assert_eq!(source.next_frame().unwrap().data, vec![1]);
}

#[test]
fn builds_video_rtp_packet_with_nv_header_and_magic() {
    let mut packetizer = VideoPacketizer::new();
    let packets = packetizer.packetize(&EncodedVideoFrame {
        data: vec![0, 0, 0, 1, 0x65, 1, 2, 3],
        frame_index: 7,
        timestamp_90khz: 1234,
    });

    assert_eq!(packets.len(), 1);
    assert_eq!(&packets[0][..2], &[0x90, RTP_VIDEO_PAYLOAD_TYPE]);
    assert_eq!(&packets[0][12..16], &[0, 0, 0, 0]);
    assert_eq!(&packets[0][16..20], &(0_u32 << 8).to_le_bytes());
    assert_eq!(&packets[0][20..24], &7_u32.to_le_bytes());
    assert_eq!(packets[0][24], 0x01 | 0x02 | 0x04);
    assert_eq!(packets[0][26], 0x10);
    assert_eq!(&packets[0][28..32], &video_fec_info(0, 1).to_le_bytes());
    assert_eq!(
        &packets[0][RTP_VIDEO_HEADER_LEN..RTP_VIDEO_HEADER_LEN + 8],
        VIDEO_MAGIC
    );
}

#[test]
fn builds_multi_packet_video_fec_info_and_stream_indices() {
    let mut packet_index = 2;
    let mut sequence = 1;
    let packets =
        build_video_rtp_packets(&vec![0x65; 3000], 9, &mut packet_index, &mut sequence, 3000);

    assert_eq!(packets.len(), 3);
    assert_eq!(&packets[0][16..20], &(2_u32 << 8).to_le_bytes());
    assert_eq!(&packets[1][16..20], &(3_u32 << 8).to_le_bytes());
    assert_eq!(&packets[2][16..20], &(4_u32 << 8).to_le_bytes());
    assert_eq!(&packets[0][28..32], &video_fec_info(0, 3).to_le_bytes());
    assert_eq!(&packets[1][28..32], &video_fec_info(1, 3).to_le_bytes());
    assert_eq!(&packets[2][28..32], &video_fec_info(2, 3).to_le_bytes());
}

#[test]
fn builds_audio_rtp_packet_with_opus_payload_type() {
    let mut source = OpusSilenceSource::new();
    let mut packetizer = AudioPacketizer::new();
    let packet = packetizer.packetize(&source.next_packet());

    assert_eq!(&packet[..2], &[0x80, RTP_AUDIO_PAYLOAD_TYPE]);
    assert_eq!(&packet[2..4], &1_u16.to_be_bytes());
    assert_eq!(&packet[4..8], &0_u32.to_be_bytes());
    assert_eq!(&packet[RTP_AUDIO_HEADER_LEN..], &[0xF8, 0xFF, 0xFE]);
}

struct FakePcmCapture {
    next_sample: f32,
    rate: u32,
    fails: bool,
}

impl FakePcmCapture {
    fn new() -> Self {
        Self { next_sample: 1.0, rate: 48_000, fails: false }
    }
}

impl PcmAudioCapture for FakePcmCapture {
    type Sample = f32;
    type Error = String;

    fn description(&self) -> &str {
        "fake loopback"
    }

    fn next_frame(&mut self) -> Result<PcmAudioFrame<f32>, String> {
        if self.fails {
            return Err("unplugged".to_string());
        }
        let sample = self.next_sample;
        self.next_sample *= 0.5;
        Ok(PcmAudioFrame {
            samples: vec![sample; 960 * 2],
            sample_rate: self.rate,
            channels: 2,
        })
    }
}

struct FakeOpusEncoder;

impl OpusFrameEncoder for FakeOpusEncoder {
    type Sample = f32;
    type Error = String;

    fn encode_float(&mut self, samples: &[f32]) -> Result<Vec<u8>, String> {
        let first = (samples[0] * 128.0) as u8;
        if first == 0x20 {
            return Err("too quiet".to_string());
        }
        Ok(vec![0xAA, first])
    }
}

#[test]
fn captured_opus_source_encodes_pcm_frames_and_advances_timestamps() {
    let mut source = CapturedOpusSource::new(FakePcmCapture::new(), FakeOpusEncoder);

    let first = source.next_packet().unwrap();
    let second = source.next_packet().unwrap();

    assert_eq!(source.description(), "fake loopback via Opus");
    assert_eq!(source.packet_interval_ms(), 20);
    assert_eq!(first.timestamp, 0);
    assert_eq!(first.payload, vec![0xAA, 0x80]);
    assert_eq!(second.timestamp, 960);
    assert_eq!(second.payload, vec![0xAA, 0x40]);
}

#[test]
fn captured_opus_source_stands_still_on_errors() {
    let mut source = CapturedOpusSource::new(FakePcmCapture::new(), FakeOpusEncoder);
    source.next_packet().unwrap();
    source.next_packet().unwrap();
    assert_eq!(
        source.next_packet().unwrap_err(),
        OpusSourceError::Encode("too quiet".to_string())
    );
    source.capture.rate = 44_100;
    assert_eq!(
        source.next_packet().unwrap_err(),
        OpusSourceError::Frame(FrameError::SampleRate(44_100))
    );
    source.capture.fails = true;
    assert_eq!(
        source.next_packet().unwrap_err(),
        OpusSourceError::Capture("unplugged".to_string())
    );
    source.capture.fails = false;
    source.capture.rate = 48_000;
    assert_eq!(source.next_packet().unwrap().timestamp, 1920);
}

#[test]
fn wasapi_mix_format_gate_accepts_only_current_opus_rtp_shape() {
    assert!(WasapiMixFormat {
        sample_rate: 48_000,
        channels: 2,
        bits_per_sample: 32,
        block_align: 8,
        sample_format: WasapiSampleFormat::Float32,
    }
    .validate_for_opus_rtp()
    .is_ok());
    assert!(WasapiMixFormat {
        sample_rate: 44_100,
        channels: 2,
        bits_per_sample: 32,
        block_align: 8,
        sample_format: WasapiSampleFormat::Float32,
    }
    .validate_for_opus_rtp()
    .is_err());
}

#[test]
fn encrypts_audio_rtp_payload_with_launch_ri_key() {
    let key = AudioEncryptionKey::new(
        0x1020_3040,
        [
            0x00, 0x11, 0x22, 0x33, 0x44, 0x55, 0x66, 0x77, 0x88, 0x99, 0xaa, 0xbb, 0xcc, 0xdd,
            0xee, 0xff,
        ],
    );
    let mut packetizer = AudioPacketizer::with_encryption(Some(key));
    let packet = packetizer.packetize(&EncodedAudioPacket {
        payload: vec![0xF8, 0xFF, 0xFE],
        timestamp: 0,
    });

    assert_eq!(
        &packet[..RTP_AUDIO_HEADER_LEN],
        &[
            0x80,
            RTP_AUDIO_PAYLOAD_TYPE,
            0,
            1,
            0,
            0,
            0,
            0,
            0x52,
            0x53,
            0x41,
            0x50
        ]
    );
    assert_ne!(&packet[RTP_AUDIO_HEADER_LEN..], &[0xF8, 0xFF, 0xFE]);
    assert_eq!(packet.len(), RTP_AUDIO_HEADER_LEN + 16);
    assert_eq!(
        decrypt_audio_payload_for_test(&key, 1, &packet[RTP_AUDIO_HEADER_LEN..]),
        vec![0xF8, 0xFF, 0xFE]
    );
}

fn decrypt_audio_payload_for_test(
    key: &AudioEncryptionKey,
    sequence: u16,
    ciphertext: &[u8],
) -> Vec<u8> {
    assert_eq!(ciphertext.len() % 16, 0);
    let cipher = Aes128::new(GenericArray::from_slice(&key.key));
    let mut plaintext = ciphertext.to_vec();
    let mut previous = audio_iv(key.key_id, sequence);

    for block in plaintext.chunks_exact_mut(16) {
        let current_ciphertext = <[u8; 16]>::try_from(&*block).unwrap();
        cipher.decrypt_block(GenericArray::from_mut_slice(block));
        for (byte, iv_byte) in block.iter_mut().zip(previous) {
            *byte ^= iv_byte;
        }
        previous = current_ciphertext;
    }

    let padding_len = *plaintext.last().unwrap() as usize;
    assert!((1..=16).contains(&padding_len));
    plaintext.truncate(plaintext.len() - padding_len);
    plaintext
}

#[test]
fn encrypts_payloads_of_every_length() {
    let key = AudioEncryptionKey::new(u32::MAX, [7; 16]);
    for len in 0..40_usize {
        let payload: Vec<u8> = (0..len as u8).collect();
        let mut packetizer = AudioPacketizer::with_encryption(Some(key));
        let packet = packetizer.packetize(&EncodedAudioPacket {
            payload: payload.clone(),
            timestamp: 5,
        });
        let body = &packet[RTP_AUDIO_HEADER_LEN..];
        assert_eq!(body.len(), len / 16 * 16 + 16);
        assert_eq!(decrypt_audio_payload_for_test(&key, 1, body), payload);
    }
}

#[test]
fn audio_vector_adds_the_sequence_number_to_the_key_number() {
    let mut expected = [0_u8; 16];
    expected[3] = 1;
    assert_eq!(audio_iv(u32::MAX, 2), expected);
    assert_eq!(&audio_iv(0x1020_3040, 0x0102)[..4], &[0x10, 0x20, 0x31, 0x42]);
}

#[test]
fn audio_packets_are_numbered_in_order() {
    let mut source = OpusSilenceSource::new();
    let mut packetizer = AudioPacketizer::new();
    packetizer.sequence = u16::MAX;
    let first = packetizer.packetize(&source.next_packet());
    let second = packetizer.packetize(&source.next_packet());
    assert_eq!(&first[2..4], &[0xff, 0xff]);
    assert_eq!(&second[2..4], &[0, 0]);
    assert_eq!(&second[4..8], &960_u32.to_be_bytes());
    assert_eq!(source.description(), "synthetic Opus silence");
    assert_eq!(source.packet_interval_ms(), 20);
}

#[test]
fn video_packets_carry_the_frame_and_fit_the_packet_size() {
    for len in [0, 1, 999, 1000, 1001, 2008, 2009, 5000] {
        let frame: Vec<u8> = (0..len).map(|i| (i % 251) as u8).collect();
        let (mut index, mut sequence) = (u32::MAX, u16::MAX);
        let packets = build_video_rtp_packets(&frame, 1, &mut index, &mut sequence, 9);
        assert_eq!(
            packets.len(),
            video_data_packet_count(len, 1000, 1008) as usize
        );
        let mut joined = Vec::new();
        for (k, packet) in packets.iter().enumerate() {
            let start = if k == 0 { 40 } else { 32 };
            joined.extend_from_slice(&packet[start..]);
            assert!(packet.len() <= 1040);
            assert_eq!(packet.len() == 1040 || k + 1 == packets.len(), true);
            let number = u16::MAX.wrapping_add(k as u16);
            assert_eq!(&packet[2..4], &number.to_be_bytes());
        }
        assert_eq!(joined, frame);
        assert_eq!(index, u32::MAX.wrapping_add(packets.len() as u32));
        assert_eq!(sequence, u16::MAX.wrapping_add(packets.len() as u16));
    }
}

#[test]
fn packet_counts_stand_in_the_fec_word() {
    assert_eq!(video_fec_info(2, 3), (3 << 22) | (2 << 12));
    assert_eq!(video_flags(false, false), 1);
    assert_eq!(video_flags(false, true), 3);
    assert_eq!(video_flags(true, false), 5);
}

#[test]
fn packetizer_numbering_runs_on_over_frames() {
    let mut packetizer = VideoPacketizer::new();
    let frame = EncodedVideoFrame { data: vec![1; 1500], frame_index: 1, timestamp_90khz: 0 };
    assert_eq!(packetizer.packetize(&frame).len(), 2);
    let second = packetizer.packetize(&frame);
    assert_eq!(&second[0][2..4], &3_u16.to_be_bytes());
    assert_eq!(&second[0][16..20], &(2_u32 << 8).to_le_bytes());
}

#[test]
fn finds_start_codes_once() {
    assert_eq!(annex_b_start_codes(&[0, 0, 0, 0, 1, 0, 0, 1]), vec![1, 5]);
    assert_eq!(annex_b_start_codes(&[0, 0]), Vec::<usize>::new());
    assert_eq!(annex_b_start_codes(&[9, 0, 0, 1]), vec![1]);
}

#[test]
fn units_hold_everything_from_the_first_start_code_on() {
    let data = [7, 0, 0, 1, 0x67, 0, 0, 0, 1, 0x65, 0x80, 0, 0, 1, 0x41, 0x40, 0];
    assert_eq!(split_annex_b_units(&data).concat(), data[1..]);
    assert_eq!(split_annex_b_access_units(&data).concat(), data[1..]);
    assert_eq!(h264_nal_unit_count(&data), split_annex_b_units(&data).len());
}

#[test]
fn split_streams_split_again() {
    let data = [
        9, 0, 0, 0, 1, 0x67, 1, 0, 0, 0, 0, 1, 0x65, 0x80, 0, 0, 1, 0x41, 0x40, 0, 0, 0, 1, 0x68,
        0, 0, 1, 0x41, 0x80, 0, 0,
    ];
    let units = split_annex_b_units(&data);
    let frames = split_annex_b_access_units(&data);
    assert_eq!(units.len(), 5);
    assert_eq!(frames.len(), 2);
    let codes = data.windows(3).filter(|bytes| *bytes == [0, 0, 1]).count();
    assert_eq!(h264_nal_unit_count(&data), codes);
    for unit in &units {
        assert_eq!(annex_b_start_codes(unit), [0]);
        assert_eq!(split_annex_b_units(unit), [unit.clone()]);
    }
    for frame in &frames {
        assert_eq!(split_annex_b_access_units(frame), [frame.clone()]);
    }
    assert_eq!(split_annex_b_units(&units.concat()), units);
    assert_eq!(split_annex_b_access_units(&frames.concat()), frames);
}

#[test]
fn reads_unit_types_and_macroblock_numbers() {
    assert_eq!(nal_unit_type(&[0, 0, 0, 1, 0x67]), Some(7));
    assert_eq!(nal_unit_type(&[0, 0, 1, 0xe5]), Some(5));
    assert_eq!(nal_unit_type(&[0, 0, 1]), None);
    assert_eq!(nal_unit_type(&[1, 2, 3, 4]), None);
    assert_eq!(h264_first_mb_in_slice(&[0, 0, 1, 0x65, 0x60]), Some(2));
    assert_eq!(h264_first_mb_in_slice(&[0, 0, 1, 0x65]), None);
    assert_eq!(read_unsigned_exp_golomb(&[0b0010_1000]), Some(4));
    assert_eq!(read_unsigned_exp_golomb(&[0, 0, 0, 1, 0xff, 0xff, 0xff, 0xff]), Some(u32::MAX - 1));
    assert_eq!(read_unsigned_exp_golomb(&[0; 16]), None);
    assert_eq!(
        rbsp_without_emulation_prevention(&[0, 0, 3, 1, 0, 0, 0, 3, 3, 0, 3]),
        vec![0, 0, 1, 0, 0, 0, 3, 0, 3]
    );
}

#[test]
fn assembled_frames_hold_the_stream() {
    let stream = [
        9, 0, 0, 0, 1, 0x67, 1, 0, 0, 1, 0x65, 0x80, 6, 0, 0, 1, 0x41, 0x80, 8, 0, 0, 1, 0x41, 0x80,
    ];
    for size in 1..stream.len() {
        let mut assembler = FrameAssembler::new();
        let mut frames = Vec::new();
        for chunk in stream.chunks(size) {
            frames.extend(assembler.accept(chunk));
        }
        frames.extend(assembler.finish());
        assert_eq!(frames.concat(), stream[1..]);
    }
    let mut assembler = FrameAssembler::new();
    assert_eq!(assembler.accept(&stream), split_annex_b_access_units(&stream)[..2].to_vec());
    assert_eq!(assembler.finish(), vec![vec![0, 0, 1, 0x41, 0x80]]);
}

#[test]
fn video_sources_come_from_files_or_stand_in() {
    let source = AnnexBVideoSource::from_env(None);
    assert_eq!(source.description(), "fallback H.264 placeholder");
    assert_eq!(source.frames, vec![fallback_h264_frame()]);
    assert_eq!(source.frame_interval_ms(), 33);
    let source = AnnexBVideoSource::from_env(Some(("a.h264".to_string(), None)));
    assert_eq!(source.description(), "fallback H.264 placeholder");
    let source = AnnexBVideoSource::from_path("a.h264", Some(vec![1, 2, 3]));
    assert_eq!(source.description(), "raw H.264 file a.h264");
    assert_eq!(source.frames, vec![vec![1, 2, 3]]);
    let data = vec![0, 0, 1, 0x65, 0x80, 0, 0, 1, 0x41, 0x80];
    let source = AnnexBVideoSource::from_path("a.h264", Some(data));
    assert_eq!(source.description(), "Annex B H.264 file a.h264");
    assert_eq!(source.frame_count_hint(), Some(2));
    let mut empty = AnnexBVideoSource::from_frames("none".to_string(), Vec::new(), 0);
    assert_eq!(empty.next_frame().unwrap_err(), VideoSourceError::NoFrames);
    assert_eq!(empty.frame_interval_ms(), 1000);
}

#[test]
fn frame_times_stop_at_the_largest() {
    let mut clock = FrameClock::new(1);
    assert_eq!(clock.timestamp_step, 90_000);
    clock.frame_index = u32::MAX;
    let frame = clock.stamp(vec![1]);
    assert_eq!(frame.timestamp_90khz, u32::MAX);
    assert_eq!(clock.frame_index, 0);
    assert_eq!(clock.stamp(vec![2]).timestamp_90khz, 0);
    assert_eq!(clock.stamp(vec![3]).timestamp_90khz, 90_000);
}

#[test]
fn checks_the_shape_of_captured_audio() {
    let mut frame = PcmAudioFrame { samples: vec![0_i16; 1920], sample_rate: 48_000, channels: 2 };
    assert_eq!(validate_opus_frame(&frame), Ok(()));
    frame.samples.pop();
    assert_eq!(validate_opus_frame(&frame), Err(FrameError::SampleCount(1919)));
    frame.channels = 1;
    assert_eq!(validate_opus_frame(&frame), Err(FrameError::ChannelCount(1)));
}

#[test]
fn pending_samples_fill_packets_with_silence() {
    let mut pending = PendingSamples::new();
    let captured: Vec<f32> = (0..1990).map(|i| i as f32).collect();
    pending.extend(&captured);
    pending.extend_silence(5, 0.5);
    assert!(pending.has_frame());
    let first = pending.take_frame(0.0);
    assert_eq!(first.samples.len(), 1920);
    assert_eq!(first.samples[1919], 1919.0);
    assert!(!pending.has_frame());
    let second = pending.take_frame(0.0);
    assert_eq!(&second.samples[69..71], &[1989.0, 0.5]);
    assert_eq!(&second.samples[79..81], &[0.5, 0.0]);
    assert_eq!(validate_opus_frame(&second), Ok(()));
    assert!(pending.samples.is_empty());
}

#[test]
fn tells_sample_formats_apart() {
    assert_eq!(wave_sample_format(3, WaveSubFormat::Other), WasapiSampleFormat::Float32);
    assert_eq!(wave_sample_format(1, WaveSubFormat::Other), WasapiSampleFormat::Int16);
    assert_eq!(wave_sample_format(0xfffe, WaveSubFormat::Pcm), WasapiSampleFormat::Int16);
    assert_eq!(wave_sample_format(0xfffe, WaveSubFormat::Other), WasapiSampleFormat::Unsupported);
    assert_eq!(wave_sample_format(2, WaveSubFormat::Pcm), WasapiSampleFormat::Unsupported);
    let format = WasapiMixFormat {
        sample_rate: 48_000,
        channels: 2,
        bits_per_sample: 24,
        block_align: 8,
        sample_format: WasapiSampleFormat::Int16,
    };
    assert_eq!(
        format.validate_for_opus_rtp(),
        Err(MixFormatError::Samples { format: WasapiSampleFormat::Int16, bits: 24 })
    );
    assert_eq!(
        WasapiMixFormat { channels: 6, ..format }.validate_for_opus_rtp(),
        Err(MixFormatError::Shape { sample_rate: 48_000, channels: 6 })
    );
}
