//! Audio packets: framing, encryption and numbering.
use vstd::prelude::*;
use crate::bytes::{append_bytes, be32, copy_bytes, push_be32};
use crate::crypto::{
    aes128_cbc_encrypt, aes128_decrypt, block, cbc_decrypt, cbc_encrypt, padded,
    padding_round_trip, pkcs7_pad, unpadded,
};
use crate::rtp::{
    advance16, append_rtp_header, lemma_rtp_fields, rtp_header, EncodedAudioPacket, AUDIO_SSRC,
    RTP_AUDIO_PAYLOAD_TYPE,
};

verus! {

/// The key that audio payloads are encrypted with, and its number.
#[derive(Clone, Copy, Debug, PartialEq, Eq)]
pub struct AudioEncryptionKey {
    pub key_id: u32,
    pub key: [u8; 16],
}

impl AudioEncryptionKey {
    /// A key under its number.
    pub fn new(key_id: u32, key: [u8; 16]) -> (this: Self)
        ensures
            this.key_id == key_id,
            this.key == key,
    {
        Self { key_id, key }
    }
}

/// The initialisation vector of a packet: the key number plus the sequence
/// number, modulo `2^32`, and then zeros.
pub open spec fn packet_iv(key_id: u32, sequence: u16) -> Seq<u8> {
    be32(((key_id + sequence) % 0x1_0000_0000) as u32) + seq![
        0u8,
        0u8,
        0u8,
        0u8,
        0u8,
        0u8,
        0u8,
        0u8,
        0u8,
        0u8,
        0u8,
        0u8,
    ]
}

/// The initialisation vector of a packet.
pub fn audio_iv(key_id: u32, sequence: u16) -> (iv: [u8; 16])
    ensures
        iv@ == packet_iv(key_id, sequence),
{
    let mut head: Vec<u8> = Vec::new();
    push_be32(&mut head, key_id.wrapping_add(sequence as u32));
    let mut iv: [u8; 16] = [0;16];
    iv[0] = head[0];
    iv[1] = head[1];
    iv[2] = head[2];
    iv[3] = head[3];
    assert(iv@ =~= packet_iv(key_id, sequence));
    iv
}

/// The encrypted form of an audio payload.
pub open spec fn encrypted_payload(key: AudioEncryptionKey, sequence: u16, payload: Seq<u8>) -> Seq<
    u8,
> {
    cbc_encrypt(key.key@, packet_iv(key.key_id, sequence), padded(payload))
}

/// What a receiver that holds the key makes of an encrypted payload.
pub open spec fn decrypted_payload(key: AudioEncryptionKey, sequence: u16, data: Seq<u8>) -> Seq<
    u8,
> {
    unpadded(cbc_decrypt(key.key@, packet_iv(key.key_id, sequence), data))
}

/// Encrypts an audio payload. A receiver that holds the key and the sequence
/// number gets the payload back.
pub fn encrypt_audio_payload(key: &AudioEncryptionKey, sequence: u16, payload: &[u8]) -> (out: Vec<
    u8,
>)
    ensures
        out@ == encrypted_payload(*key, sequence, payload@),
        out@.len() == padded(payload@).len(),
        cbc_decrypt(key.key@, packet_iv(key.key_id, sequence), out@) == padded(payload@),
        decrypted_payload(*key, sequence, out@) == payload@,
{
    let plain = pkcs7_pad(payload);
    let iv = audio_iv(key.key_id, sequence);
    proof {
        padding_round_trip(payload@);
    }
    aes128_cbc_encrypt(&key.key, &iv, &plain)
}

/// An audio packet: an RTP header and the payload.
pub open spec fn audio_packet(sequence: u16, timestamp: u32, payload: Seq<u8>) -> Seq<u8> {
    rtp_header(RTP_AUDIO_PAYLOAD_TYPE, sequence, timestamp, AUDIO_SSRC, false) + payload
}

/// Lays out an audio packet.
pub fn build_audio_rtp_packet(sequence: u16, timestamp: u32, payload: &[u8]) -> (packet: Vec<u8>)
    ensures
        packet@ == audio_packet(sequence, timestamp, payload@),
{
    let mut packet: Vec<u8> = Vec::new();
    append_rtp_header(
        &mut packet,
        RTP_AUDIO_PAYLOAD_TYPE,
        sequence,
        timestamp,
        AUDIO_SSRC,
        false,
    );
    append_bytes(&mut packet, payload);
    assert(packet@ =~= audio_packet(sequence, timestamp, payload@));
    packet
}

/// Turns encoded audio into packets with running sequence numbers.
#[derive(Debug, PartialEq, Eq)]
pub struct AudioPacketizer {
    pub sequence: u16,
    pub encryption: Option<AudioEncryptionKey>,
}

impl AudioPacketizer {
    /// A packetizer that does not encrypt.
    pub fn new() -> (packetizer: Self)
        ensures
            packetizer.sequence == 1,
            packetizer.encryption is None,
    {
        Self::with_encryption(None)
    }

    /// A packetizer that encrypts where a key is given.
    pub fn with_encryption(encryption: Option<AudioEncryptionKey>) -> (packetizer: Self)
        ensures
            packetizer.sequence == 1,
            packetizer.encryption == encryption,
    {
        Self { sequence: 1, encryption }
    }

    /// The payload that goes out for `payload`.
    pub open spec fn outgoing(&self, payload: Seq<u8>) -> Seq<u8> {
        match self.encryption {
            Some(key) => encrypted_payload(key, self.sequence, payload),
            None => payload,
        }
    }

    /// The packet that carries `packet`; the sequence number moves on by one.
    pub fn packetize(&mut self, packet: &EncodedAudioPacket) -> (rtp: Vec<u8>)
        ensures
            rtp@ == audio_packet(
                old(self).sequence,
                packet.timestamp,
                old(self).outgoing(packet.payload@),
            ),
            rtp@.len() == 12 + old(self).outgoing(packet.payload@).len(),
            old(self).encryption matches Some(key) ==> {
                &&& rtp@.len() == 12 + padded(packet.payload@).len()
                &&& cbc_decrypt(
                    key.key@,
                    packet_iv(key.key_id, old(self).sequence),
                    rtp@.skip(12),
                ) == padded(packet.payload@)
                &&& decrypted_payload(key, old(self).sequence, rtp@.skip(12)) == packet.payload@
            },
            final(self).sequence == advance16(old(self).sequence, 1),
            final(self).encryption == old(self).encryption,
    {
        let sequence: u16 = self.sequence;
        let payload = match self.encryption {
            Some(key) => encrypt_audio_payload(&key, sequence, &packet.payload),
            None => copy_bytes(&packet.payload),
        };
        let rtp = build_audio_rtp_packet(sequence, packet.timestamp, &payload);
        assert(rtp@.skip(12) =~= payload@);
        self.sequence = self.sequence.wrapping_add(1);
        rtp
    }
}

/// The samples of one channel in one audio packet.
pub const AUDIO_FRAME_SAMPLES_PER_CHANNEL: usize = 960;

pub const AUDIO_SAMPLE_RATE: u32 = 48_000;

pub const AUDIO_CHANNELS: u16 = 2;

/// Milliseconds between two audio packets.
pub const PACKET_INTERVAL_MS: u64 = 20;

/// A source of silence: a constant Opus packet every twenty milliseconds.
#[derive(Debug, PartialEq, Eq)]
pub struct OpusSilenceSource {
    pub timestamp: u32,
}

/// The Opus packet that stands for silence.
pub open spec fn opus_silence() -> Seq<u8> {
    seq![0xf8u8, 0xffu8, 0xfeu8]
}

impl OpusSilenceSource {
    /// A source at time zero.
    pub fn new() -> (source: Self)
        ensures
            source.timestamp == 0,
    {
        Self { timestamp: 0 }
    }

    /// What the source is called.
    pub fn description(&self) -> (text: &'static str)
        ensures
            text@ == "synthetic Opus silence"@,
    {
        "synthetic Opus silence"
    }

    /// Milliseconds between two packets.
    pub fn packet_interval_ms(&self) -> (ms: u64)
        ensures
            ms == PACKET_INTERVAL_MS,
    {
        PACKET_INTERVAL_MS
    }

    /// The next packet of silence; the clock moves on by one packet.
    pub fn next_packet(&mut self) -> (packet: EncodedAudioPacket)
        ensures
            packet.payload@ == opus_silence(),
            packet.timestamp == old(self).timestamp,
            final(self).timestamp == (old(self).timestamp + 960) % 0x1_0000_0000,
    {
        let payload: Vec<u8> = vec![0xf8, 0xff, 0xfe];
        assert(payload@ =~= opus_silence());
        let packet = EncodedAudioPacket { payload, timestamp: self.timestamp };
        self.timestamp = self.timestamp.wrapping_add(960);
        packet
    }
}

// ---------------------------------------------------------------------------
// What a receiver gets
// ---------------------------------------------------------------------------
/// A receiver that reads an audio packet byte by byte finds the running number and the
/// time of the packet, and, where nothing is encrypted, the payload right after. The
/// next packet has the next number.
pub proof fn audio_packets_tell_their_numbers(
    packetizer: &mut AudioPacketizer,
    packet: &EncodedAudioPacket,
    rtp: Vec<u8>,
)
    requires
        call_ensures(AudioPacketizer::packetize, (packetizer, packet), rtp),
    ensures
        ({
            let p = rtp@;
            &&& p.len() >= 12
            &&& p[0] == 0x80 && p[1] == 97
            &&& p[2] * 256 + p[3] == old(packetizer).sequence
            &&& p[4] * 0x100_0000 + p[5] * 0x1_0000 + p[6] * 256 + p[7] == packet.timestamp
            &&& p[8] == 0x52 && p[9] == 0x53 && p[10] == 0x41 && p[11] == 0x50
            &&& old(packetizer).encryption is None ==> p.skip(12) == packet.payload@
        }),
        final(packetizer).sequence == (old(packetizer).sequence + 1) % 0x1_0000,
        final(packetizer).encryption == old(packetizer).encryption,
{
    lemma_rtp_fields(
        RTP_AUDIO_PAYLOAD_TYPE,
        old(packetizer).sequence,
        packet.timestamp,
        AUDIO_SSRC,
        false,
        old(packetizer).outgoing(packet.payload@),
    );
}

/// A receiver that holds the key gets every byte of an encrypted payload back: it
/// decrypts the block that the byte stands in and combines it with the encrypted block
/// before, or, in the first block, with the sum of the key's number and the packet's
/// number, most significant byte first and followed by zeros. The bytes that fill the
/// last block each tell how many they are.
pub proof fn audio_payloads_are_read_with_the_key(
    packetizer: &mut AudioPacketizer,
    packet: &EncodedAudioPacket,
    rtp: Vec<u8>,
    i: int,
)
    requires
        call_ensures(AudioPacketizer::packetize, (packetizer, packet), rtp),
        old(packetizer).encryption is Some,
    ensures
        rtp@.len() == 12 + 16 * (packet.payload@.len() / 16 + 1),
        0 <= i < rtp@.len() - 12 ==> {
            let key = old(packetizer).encryption->0;
            let body = rtp@.skip(12);
            let sum = (key.key_id + old(packetizer).sequence) % 0x1_0000_0000;
            let b = i / 16 * 16;
            let mixed: u8 = if i >= 16 {
                body[i - 16]
            } else if i == 0 {
                (sum / 0x100_0000) as u8
            } else if i == 1 {
                (sum / 0x1_0000 % 256) as u8
            } else if i == 2 {
                (sum / 256 % 256) as u8
            } else if i == 3 {
                (sum % 256) as u8
            } else {
                0
            };
            let plain = aes128_decrypt(key.key@, body.subrange(b, b + 16))[i - b] ^ mixed;
            &&& i < packet.payload@.len() ==> plain == packet.payload@[i]
            &&& i >= packet.payload@.len() ==> plain == 16 - packet.payload@.len() % 16
        },
{
    let key = old(packetizer).encryption->0;
    let payload = packet.payload@;
    let body = rtp@.skip(12);
    let iv = packet_iv(key.key_id, old(packetizer).sequence);
    let plain = cbc_decrypt(key.key@, iv, body);
    padding_round_trip(payload);
    assert(padded(payload).len() == payload.len() + 16 - payload.len() % 16);
    assert(body.len() == padded(payload).len());
    assert(plain == padded(payload));
    if 0 <= i < body.len() {
        assert(block(body, i / 16) == body.subrange(i / 16 * 16, i / 16 * 16 + 16));
        assert(i % 16 == i - i / 16 * 16);
        assert(plain[i] == aes128_decrypt(key.key@, block(body, i / 16))[i % 16] ^ (if i < 16 {
            iv[i]
        } else {
            body[i - 16]
        }));
        let sum = ((key.key_id + old(packetizer).sequence) % 0x1_0000_0000) as u32;
        if 4 <= i < 16 {
            assert(iv[i] == 0);
        } else if i < 4 {
            assert(iv[i] == be32(sum)[i]);
        }
        if i >= payload.len() {
            assert(padded(payload)[i] == (16 - payload.len() % 16) as u8);
        }
    }
}

/// The number of the first packet of a new packetizer is one, with a key and without.
pub proof fn audio_numbering_starts_at_one(
    plain: AudioPacketizer,
    key: Option<AudioEncryptionKey>,
    keyed: AudioPacketizer,
)
    requires
        call_ensures(AudioPacketizer::new, (), plain),
        call_ensures(AudioPacketizer::with_encryption, (key,), keyed),
    ensures
        plain.sequence == 1 && plain.encryption is None,
        keyed.sequence == 1 && keyed.encryption == key,
{
}

/// Silence begins at time zero and comes every twenty milliseconds, which is 960 ticks
/// of a clock with 48000 in a second.
pub proof fn silence_comes_fifty_times_a_second(
    new: OpusSilenceSource,
    first: &mut OpusSilenceSource,
    a: EncodedAudioPacket,
    second: &mut OpusSilenceSource,
    b: EncodedAudioPacket,
    source: &OpusSilenceSource,
    ms: u64,
)
    requires
        call_ensures(OpusSilenceSource::new, (), new),
        call_ensures(OpusSilenceSource::next_packet, (first,), a),
        *old(second) == *final(first),
        call_ensures(OpusSilenceSource::next_packet, (second,), b),
        call_ensures(OpusSilenceSource::packet_interval_ms, (source,), ms),
    ensures
        *old(first) == new ==> a.timestamp == 0 && b.timestamp == 960,
        b.timestamp == (a.timestamp + 960) % 0x1_0000_0000,
        a.payload@ == b.payload@,
        a.payload@ == seq![0xf8u8, 0xffu8, 0xfeu8],
        ms * 50 == 1000,
        ms * 48 == 960,
{
}

} // verus!
