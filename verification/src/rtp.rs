//! RTP packets for video frames and audio payloads.
use vstd::prelude::*;
use crate::bytes::{
    append_bytes, be16, be32, concat, le32, lemma_integer_bytes, push_be16, push_be32, push_le32,
    views,
};

verus! {

pub const RTP_VIDEO_PAYLOAD_TYPE: u8 = 96;

pub const RTP_AUDIO_PAYLOAD_TYPE: u8 = 97;

/// The bytes of a video packet before its payload: the RTP header with its
/// extension, then the video header.
pub const RTP_VIDEO_HEADER_LEN: usize = 32;

pub const RTP_AUDIO_HEADER_LEN: usize = 12;

/// The room for the video header, the marker and the payload in one packet.
pub const VIDEO_PACKET_SIZE: usize = 1024;

pub const NV_VIDEO_HEADER_LEN: usize = 16;

pub const VIDEO_MAGIC_LEN: usize = 8;

pub const VIDEO_SSRC: u32 = 0x5253_5650;

pub const AUDIO_SSRC: u32 = 0x5253_4150;

/// The payload bytes that the first packet of a frame takes.
pub const FIRST_PAYLOAD_SIZE: usize = VIDEO_PACKET_SIZE - NV_VIDEO_HEADER_LEN - VIDEO_MAGIC_LEN;

/// The payload bytes that each later packet of a frame takes.
pub const REGULAR_PAYLOAD_SIZE: usize = VIDEO_PACKET_SIZE - NV_VIDEO_HEADER_LEN;

/// One encoded picture, ready to be sent.
#[derive(Debug, PartialEq, Eq)]
pub struct EncodedVideoFrame {
    pub data: Vec<u8>,
    pub frame_index: u32,
    pub timestamp_90khz: u32,
}

/// One encoded stretch of audio, ready to be sent.
#[derive(Debug, PartialEq, Eq)]
pub struct EncodedAudioPacket {
    pub payload: Vec<u8>,
    pub timestamp: u32,
}

// ---------------------------------------------------------------------------
// Headers
// ---------------------------------------------------------------------------
/// `x + k`, counted modulo `2^16`.
pub open spec fn advance16(x: u16, k: int) -> u16 {
    ((x + k) % 0x1_0000) as u16
}

/// `x + k`, counted modulo `2^32`.
pub open spec fn advance32(x: u32, k: int) -> u32 {
    ((x + k) % 0x1_0000_0000) as u32
}

/// An RTP header, with an empty header extension where `extension` is set.
pub open spec fn rtp_header(
    payload_type: u8,
    sequence: u16,
    timestamp: u32,
    ssrc: u32,
    extension: bool,
) -> Seq<u8> {
    seq![
        if extension {
            0x90u8
        } else {
            0x80u8
        },
        payload_type,
    ] + be16(sequence) + be32(timestamp) + be32(ssrc) + if extension {
        be16(0) + be16(0)
    } else {
        Seq::empty()
    }
}

/// Appends an RTP header to `packet`.
pub fn append_rtp_header(
    packet: &mut Vec<u8>,
    payload_type: u8,
    sequence: u16,
    timestamp: u32,
    ssrc: u32,
    extension: bool,
)
    ensures
        final(packet)@ == old(packet)@ + rtp_header(
            payload_type,
            sequence,
            timestamp,
            ssrc,
            extension,
        ),
{
    let ghost before = packet@;
    packet.push(
        if extension {
            0x90
        } else {
            0x80
        },
    );
    packet.push(payload_type);
    push_be16(packet, sequence);
    push_be32(packet, timestamp);
    push_be32(packet, ssrc);
    if extension {
        push_be16(packet, 0);
        push_be16(packet, 0);
    }
    assert(packet@ =~= before + rtp_header(payload_type, sequence, timestamp, ssrc, extension));
}

/// The packet counts of a video header: the number of data packets of the frame
/// from bit 22 on, and the number of this packet in the frame from bit 12 on.
pub open spec fn fec_info(packet_in_frame: u16, data_packet_count: u16) -> u32 {
    ((data_packet_count as u32) << 22u32) | ((packet_in_frame as u32) << 12u32)
}

/// The packet counts of a video header.
pub fn video_fec_info(packet_in_frame: u16, data_packet_count: u16) -> (info: u32)
    ensures
        info == fec_info(packet_in_frame, data_packet_count),
{
    ((data_packet_count as u32) << 22) | ((packet_in_frame as u32) << 12)
}

/// While a frame has fewer than 1024 packets, the two counts of a video header
/// do not touch each other.
pub proof fn fec_info_holds_both_counts(packet_in_frame: u16, data_packet_count: u16)
    requires
        packet_in_frame < 1024,
        data_packet_count < 1024,
    ensures
        fec_info(packet_in_frame, data_packet_count) / 0x40_0000 == data_packet_count,
        fec_info(packet_in_frame, data_packet_count) % 0x40_0000 / 0x1000 == packet_in_frame,
        fec_info(packet_in_frame, data_packet_count) % 0x1000 == 0,
{
    let p = packet_in_frame as u32;
    let d = data_packet_count as u32;
    assert((d << 22u32) | (p << 12u32) == d * 0x40_0000 + p * 0x1000) by (bit_vector)
        requires
            p < 1024,
            d < 1024,
    ;
}

/// The flags of a packet: it holds picture data; it is the last of its frame; it
/// is the first.
pub open spec fn packet_flags(first: bool, last: bool) -> u8 {
    (1 + (if last {
        2int
    } else {
        0
    }) + (if first {
        4int
    } else {
        0
    })) as u8
}

/// The flags of a packet.
pub fn video_flags(first: bool, last: bool) -> (flags: u8)
    ensures
        flags == packet_flags(first, last),
{
    let mut flags: u8 = 0x01;
    if last {
        flags = flags + 0x02;
    }
    if first {
        flags = flags + 0x04;
    }
    flags
}

/// The video header of a packet.
pub open spec fn nv_video_header(
    stream_packet_index: u32,
    frame_index: u32,
    packet_in_frame: u16,
    data_packet_count: u16,
    flags: u8,
) -> Seq<u8> {
    le32((stream_packet_index % 0x100_0000 * 256) as u32) + le32(frame_index) + seq![
        flags,
        0u8,
        0x10u8,
        0u8,
    ] + le32(fec_info(packet_in_frame, data_packet_count))
}

/// Appends a video header to `packet`.
pub fn append_nv_video_header(
    packet: &mut Vec<u8>,
    stream_packet_index: u32,
    frame_index: u32,
    packet_in_frame: u16,
    data_packet_count: u16,
    flags: u8,
)
    ensures
        final(packet)@ == old(packet)@ + nv_video_header(
            stream_packet_index,
            frame_index,
            packet_in_frame,
            data_packet_count,
            flags,
        ),
{
    let ghost before = packet@;
    push_le32(packet, stream_packet_index % 0x100_0000 * 256);
    push_le32(packet, frame_index);
    packet.push(flags);
    packet.push(0);
    packet.push(0x10);
    packet.push(0);
    push_le32(packet, video_fec_info(packet_in_frame, data_packet_count));
    assert(packet@ =~= before + nv_video_header(
        stream_packet_index,
        frame_index,
        packet_in_frame,
        data_packet_count,
        flags,
    ));
}

// ---------------------------------------------------------------------------
// Video packets
// ---------------------------------------------------------------------------
/// The number of packets that a frame of `len` bytes takes.
pub open spec fn packet_total(len: int, first_size: int, regular_size: int) -> int {
    if len <= first_size {
        1
    } else {
        2 + (len - first_size - 1) / regular_size
    }
}

/// The number of packets that a frame takes, counted modulo `2^16`.
pub fn video_data_packet_count(
    frame_len: usize,
    first_payload_size: usize,
    regular_payload_size: usize,
) -> (count: u16)
    requires
        regular_payload_size > 0,
    ensures
        count == packet_total(
            frame_len as int,
            first_payload_size as int,
            regular_payload_size as int,
        ) % 0x1_0000,
{
    if frame_len <= first_payload_size {
        return 1;
    }
    let remaining: usize = frame_len - first_payload_size;
    let more: usize = (remaining - 1) / regular_payload_size;
    proof {
        assert(0 <= more) by (nonlinear_arith)
            requires
                more == (remaining - 1) / regular_payload_size as int,
                remaining >= 1,
                regular_payload_size > 0,
        ;
    }
    ((more % 0x1_0000 + 2) % 0x1_0000) as u16
}

/// The marker that the payload of a frame begins with.
pub open spec fn video_magic() -> Seq<u8> {
    seq![0x01u8, 0x37u8, 0x63u8, 0x68u8, 0x61u8, 0x72u8, 0x73u8, 0x73u8]
}

/// Where in the frame the payload of the `k`-th packet begins.
pub open spec fn payload_start(k: int) -> int {
    if k <= 0 {
        0
    } else {
        FIRST_PAYLOAD_SIZE + (k - 1) * REGULAR_PAYLOAD_SIZE
    }
}

/// The stretch of the frame that the `k`-th packet carries.
pub open spec fn packet_payload(frame: Seq<u8>, k: int) -> Seq<u8> {
    frame.subrange(
        payload_start(k),
        if payload_start(k + 1) <= frame.len() {
            payload_start(k + 1)
        } else {
            frame.len() as int
        },
    )
}

/// The number of packets of a video frame.
pub open spec fn frame_packets(frame: Seq<u8>) -> int {
    packet_total(frame.len() as int, FIRST_PAYLOAD_SIZE as int, REGULAR_PAYLOAD_SIZE as int)
}

/// The `k`-th packet of a frame whose first packet has the given numbers.
pub open spec fn video_packet(
    frame: Seq<u8>,
    frame_index: u32,
    stream_packet_index: u32,
    sequence: u16,
    timestamp: u32,
    k: int,
) -> Seq<u8> {
    video_packet_bytes(
        advance16(sequence, k),
        timestamp,
        nv_video_header(
            advance32(stream_packet_index, k),
            frame_index,
            (k % 0x1_0000) as u16,
            (frame_packets(frame) % 0x1_0000) as u16,
            packet_flags(k == 0, k == frame_packets(frame) - 1),
        ),
        k == 0,
        packet_payload(frame, k),
    )
}

/// The packets of a frame.
pub open spec fn video_packets(
    frame: Seq<u8>,
    frame_index: u32,
    stream_packet_index: u32,
    sequence: u16,
    timestamp: u32,
) -> Seq<Seq<u8>> {
    Seq::new(
        frame_packets(frame) as nat,
        |k: int|
            video_packet(frame, frame_index, stream_packet_index, sequence, timestamp, k),
    )
}

proof fn lemma_frame_packets(len: int, k: int)
    requires
        0 <= len,
        0 <= k,
    ensures
        ({
            let total = packet_total(len, FIRST_PAYLOAD_SIZE as int, REGULAR_PAYLOAD_SIZE as int);
            &&& total >= 1
            &&& k < total ==> (payload_start(k) < len || k == 0)
            &&& k + 1 < total ==> payload_start(k + 1) < len
            &&& k + 1 == total ==> payload_start(k + 1) >= len
            &&& k >= total ==> payload_start(k) >= len
            &&& payload_start(0) == 0
            &&& payload_start(k + 1) == payload_start(k) + if k == 0 {
                FIRST_PAYLOAD_SIZE as int
            } else {
                REGULAR_PAYLOAD_SIZE as int
            }
        }),
{
}

/// The running numbers of the `k`-th packet: stream index, sequence number and
/// number in the frame.
#[verifier::opaque]
spec fn numbers_at(index: u32, sequence: u16, k: int) -> (u32, u16, u16) {
    (advance32(index, k), advance16(sequence, k), (k % 0x1_0000) as u16)
}

proof fn lemma_mod_step(a: int, m: int)
    requires
        m > 1,
    ensures
        (a + 1) % m == if a % m == m - 1 {
            0
        } else {
            a % m + 1
        },
{
    vstd::arithmetic::div_mod::lemma_fundamental_div_mod(a, m);
    vstd::arithmetic::div_mod::lemma_mod_bound(a, m);
    let q = a / m;
    assert(m * q == q * m) by (nonlinear_arith);
    if a % m == m - 1 {
        assert((q + 1) * m == m * q + m) by (nonlinear_arith);
        vstd::arithmetic::div_mod::lemma_fundamental_div_mod_converse(a + 1, m, q + 1, 0);
    } else {
        vstd::arithmetic::div_mod::lemma_fundamental_div_mod_converse(a + 1, m, q, a % m + 1);
    }
}

proof fn lemma_numbers(index: u32, sequence: u16, k: int)
    requires
        0 <= k,
    ensures
        numbers_at(index, sequence, 0) == (index, sequence, 0u16),
        ({
            let (i, s, n) = numbers_at(index, sequence, k);
            numbers_at(index, sequence, k + 1) == (
                if i == u32::MAX {
                    0u32
                } else {
                    (i + 1) as u32
                },
                if s == u16::MAX {
                    0u16
                } else {
                    (s + 1) as u16
                },
                if n == u16::MAX {
                    0u16
                } else {
                    (n + 1) as u16
                },
            )
        }),
{
    reveal(numbers_at);
    lemma_mod_step(index + k, 0x1_0000_0000);
    lemma_mod_step(sequence + k, 0x1_0000);
    lemma_mod_step(k, 0x1_0000);
}

proof fn lemma_packet(
    frame: Seq<u8>,
    frame_index: u32,
    first_index: u32,
    first_sequence: u16,
    timestamp: u32,
    k: int,
    header: Seq<u8>,
    count: u16,
    packet: Seq<u8>,
)
    requires
        0 <= k < frame_packets(frame),
        count == frame_packets(frame) % 0x1_0000,
        ({
            let (index, sequence, number) = numbers_at(first_index, first_sequence, k);
            &&& header == nv_video_header(
                index,
                frame_index,
                number,
                count,
                packet_flags(k == 0, k == frame_packets(frame) - 1),
            )
            &&& packet == video_packet_bytes(
                sequence,
                timestamp,
                header,
                k == 0,
                packet_payload(frame, k),
            )
        }),
    ensures
        packet == video_packets(frame, frame_index, first_index, first_sequence, timestamp)[k],
{
    reveal(numbers_at);
}

/// One packet: its headers, the marker where it is the first, and its payload.
pub open spec fn video_packet_bytes(
    sequence: u16,
    timestamp: u32,
    header: Seq<u8>,
    first: bool,
    payload: Seq<u8>,
) -> Seq<u8> {
    rtp_header(RTP_VIDEO_PAYLOAD_TYPE, sequence, timestamp, VIDEO_SSRC, true) + header + (if first {
        video_magic()
    } else {
        Seq::empty()
    }) + payload
}

/// Lays out one packet.
fn build_video_packet(
    sequence: u16,
    timestamp: u32,
    header: &Vec<u8>,
    first: bool,
    payload: &[u8],
) -> (packet: Vec<u8>)
    ensures
        packet@ == video_packet_bytes(sequence, timestamp, header@, first, payload@),
{
    let mut packet: Vec<u8> = Vec::new();
    append_rtp_header(
        &mut packet,
        RTP_VIDEO_PAYLOAD_TYPE,
        sequence,
        timestamp,
        VIDEO_SSRC,
        true,
    );
    append_bytes(&mut packet, header);
    if first {
        let magic: [u8; 8] = [0x01, 0x37, 0x63, 0x68, 0x61, 0x72, 0x73, 0x73];
        append_bytes(&mut packet, &magic);
        assert(magic@ =~= video_magic());
    }
    append_bytes(&mut packet, payload);
    assert(packet@ =~= video_packet_bytes(sequence, timestamp, header@, first, payload@));
    packet
}

/// Splits a frame into RTP packets and advances the two counters by their number.
pub fn build_video_rtp_packets(
    frame: &[u8],
    frame_index: u32,
    stream_packet_index: &mut u32,
    sequence: &mut u16,
    timestamp: u32,
) -> (packets: Vec<Vec<u8>>)
    ensures
        views(packets@) == video_packets(
            frame@,
            frame_index,
            *old(stream_packet_index),
            *old(sequence),
            timestamp,
        ),
        *final(stream_packet_index) == advance32(*old(stream_packet_index), frame_packets(frame@)),
        *final(sequence) == advance16(*old(sequence), frame_packets(frame@)),
{
    let total: usize = frame.len();
    let data_packet_count: u16 = video_data_packet_count(
        total,
        FIRST_PAYLOAD_SIZE,
        REGULAR_PAYLOAD_SIZE,
    );
    let ghost first_index = *stream_packet_index;
    let ghost first_sequence = *sequence;
    let ghost all = video_packets(frame@, frame_index, first_index, first_sequence, timestamp);
    let mut packets: Vec<Vec<u8>> = Vec::new();
    let mut offset: usize = 0;
    let mut first = true;
    let mut packet_in_frame: u16 = 0;
    let ghost mut k: int = 0;
    proof {
        lemma_frame_packets(total as int, 0);
        lemma_numbers(first_index, first_sequence, 0);
    }
    while offset < total || first
        invariant
            total == frame@.len(),
            all == video_packets(frame@, frame_index, first_index, first_sequence, timestamp),
            data_packet_count == frame_packets(frame@) % 0x1_0000,
            0 <= k <= frame_packets(frame@),
            offset <= total,
            offset == if payload_start(k) <= total {
                payload_start(k)
            } else {
                total as int
            },
            first == (k == 0),
            numbers_at(first_index, first_sequence, k) == (
                *stream_packet_index,
                *sequence,
                packet_in_frame,
            ),
            views(packets@) =~= all.take(k),
        decreases frame_packets(frame@) - k,
    {
        proof {
            lemma_frame_packets(total as int, k);
            lemma_numbers(first_index, first_sequence, k);
            assert(k < frame_packets(frame@));
        }
        let payload_size: usize = if first {
            FIRST_PAYLOAD_SIZE
        } else {
            REGULAR_PAYLOAD_SIZE
        };
        let end: usize = if total - offset <= payload_size {
            total
        } else {
            offset + payload_size
        };
        let last = end >= total;
        let mut header: Vec<u8> = Vec::new();
        append_nv_video_header(
            &mut header,
            *stream_packet_index,
            frame_index,
            packet_in_frame,
            data_packet_count,
            video_flags(first, last),
        );
        assert(header@ =~= Seq::<u8>::empty() + header@);
        let packet = build_video_packet(*sequence, timestamp, &header, first, &frame[offset..end]);
        proof {
            assert(last == (k == frame_packets(frame@) - 1));
            assert(frame@.subrange(offset as int, end as int) =~= packet_payload(frame@, k));
            lemma_packet(
                frame@,
                frame_index,
                first_index,
                first_sequence,
                timestamp,
                k,
                header@,
                data_packet_count,
                packet@,
            );
        }
        let ghost before = packets@;
        packets.push(packet);
        assert(views(packets@) =~= views(before).push(all[k]));
        *sequence = sequence.wrapping_add(1);
        *stream_packet_index = stream_packet_index.wrapping_add(1);
        packet_in_frame = packet_in_frame.wrapping_add(1);
        offset = end;
        first = false;
        proof {
            k = k + 1;
        }
    }
    proof {
        lemma_frame_packets(total as int, k);
        assert(k == frame_packets(frame@));
        assert(all.take(k) =~= all);
        reveal(numbers_at);
    }
    packets
}

/// Splits frames into packets, with counters that run on from frame to frame.
#[derive(Debug, PartialEq, Eq)]
pub struct VideoPacketizer {
    pub stream_packet_index: u32,
    pub sequence: u16,
}

impl VideoPacketizer {
    /// A packetizer before its first packet.
    pub fn new() -> (packetizer: Self)
        ensures
            packetizer.stream_packet_index == 0,
            packetizer.sequence == 1,
    {
        Self { stream_packet_index: 0, sequence: 1 }
    }

    /// The packets of `frame`.
    pub fn packetize(&mut self, frame: &EncodedVideoFrame) -> (packets: Vec<Vec<u8>>)
        ensures
            views(packets@) == video_packets(
                frame.data@,
                frame.frame_index,
                old(self).stream_packet_index,
                old(self).sequence,
                frame.timestamp_90khz,
            ),
            final(self).stream_packet_index == advance32(
                old(self).stream_packet_index,
                frame_packets(frame.data@),
            ),
            final(self).sequence == advance16(old(self).sequence, frame_packets(frame.data@)),
    {
        build_video_rtp_packets(
            &frame.data,
            frame.frame_index,
            &mut self.stream_packet_index,
            &mut self.sequence,
            frame.timestamp_90khz,
        )
    }
}

// ---------------------------------------------------------------------------
// What a receiver gets
// ---------------------------------------------------------------------------
/// What stands in a video packet after its headers, and after the marker where
/// it is the first of its frame.
pub open spec fn packet_body(packet: Seq<u8>, first: bool) -> Seq<u8> {
    packet.skip(
        if first {
            RTP_VIDEO_HEADER_LEN + VIDEO_MAGIC_LEN
        } else {
            RTP_VIDEO_HEADER_LEN as int
        },
    )
}

/// The bodies of a frame's packets.
pub open spec fn packet_bodies(packets: Seq<Seq<u8>>) -> Seq<Seq<u8>> {
    Seq::new(packets.len(), |k: int| packet_body(packets[k], k == 0))
}

proof fn lemma_payload_prefix(frame: Seq<u8>, k: int)
    requires
        0 <= k <= frame_packets(frame),
    ensures
        concat(Seq::new(k as nat, |j: int| packet_payload(frame, j))) == frame.take(
            if payload_start(k) <= frame.len() {
                payload_start(k)
            } else {
                frame.len() as int
            },
        ),
    decreases k,
{
    let list = Seq::new(k as nat, |j: int| packet_payload(frame, j));
    if k == 0 {
        assert(concat(list) =~= frame.take(0));
    } else {
        let shorter = Seq::new((k - 1) as nat, |j: int| packet_payload(frame, j));
        lemma_payload_prefix(frame, k - 1);
        lemma_frame_packets(frame.len() as int, k - 1);
        assert(list.drop_last() =~= shorter);
        assert(concat(list) =~= frame.take(
            if payload_start(k) <= frame.len() {
                payload_start(k)
            } else {
                frame.len() as int
            },
        ));
    }
}

/// The bodies of a frame's packets, laid out in order, are the frame.
pub proof fn packets_carry_the_frame(
    frame: Seq<u8>,
    frame_index: u32,
    stream_packet_index: u32,
    sequence: u16,
    timestamp: u32,
)
    ensures
        concat(
            packet_bodies(
                video_packets(frame, frame_index, stream_packet_index, sequence, timestamp),
            ),
        ) == frame,
{
    let packets = video_packets(frame, frame_index, stream_packet_index, sequence, timestamp);
    let total = frame_packets(frame);
    let payloads = Seq::new(total as nat, |j: int| packet_payload(frame, j));
    lemma_frame_packets(frame.len() as int, 0);
    assert forall|k: int| 0 <= k < total implies packet_body(packets[k], k == 0) == packet_payload(
        frame,
        k,
    ) by {
        assert(packet_body(packets[k], k == 0) =~= packet_payload(frame, k));
    }
    assert(packet_bodies(packets) =~= payloads);
    lemma_payload_prefix(frame, total);
    lemma_frame_packets(frame.len() as int, total);
    assert(frame.take(frame.len() as int) =~= frame);
}

/// No packet is larger than its RTP header and the packet size; all packets of a
/// frame but the last are exactly that large.
pub proof fn packets_fit_the_packet_size(
    frame: Seq<u8>,
    frame_index: u32,
    stream_packet_index: u32,
    sequence: u16,
    timestamp: u32,
    k: int,
)
    requires
        0 <= k < frame_packets(frame),
    ensures
        ({
            let packet = video_packets(
                frame,
                frame_index,
                stream_packet_index,
                sequence,
                timestamp,
            )[k];
            &&& packet.len() <= 16 + VIDEO_PACKET_SIZE
            &&& k + 1 < frame_packets(frame) ==> packet.len() == 16 + VIDEO_PACKET_SIZE
        }),
{
    lemma_frame_packets(frame.len() as int, k);
}

/// Packetizing two frames in turn numbers the packets of the second right after
/// those of the first.
pub proof fn numbering_runs_on(sequence: u16, index: u32, first: Seq<u8>, k: int)
    requires
        0 <= k,
    ensures
        advance16(advance16(sequence, frame_packets(first)), k) == advance16(
            sequence,
            frame_packets(first) + k,
        ),
        advance32(advance32(index, frame_packets(first)), k) == advance32(
            index,
            frame_packets(first) + k,
        ),
{
    let n = frame_packets(first);
    lemma_mod_runs_on(sequence + n, k, 0x1_0000);
    lemma_mod_runs_on(index + n, k, 0x1_0000_0000);
}

proof fn lemma_mod_runs_on(a: int, k: int, m: int)
    requires
        0 < m,
    ensures
        (a % m + k) % m == (a + k) % m,
{
    vstd::arithmetic::div_mod::lemma_add_mod_noop(a, k, m);
    vstd::arithmetic::div_mod::lemma_add_mod_noop(a % m, k, m);
    vstd::arithmetic::div_mod::lemma_mod_twice(a, m);
}

/// A receiver that reads a packet byte by byte finds in it what it was sent with: the
/// packets of a frame are numbered on from the packetizer's sequence number, all of
/// them carry the frame's time and number, and each tells how many packets the frame
/// has, which of them it is, and whether it is the first or the last.
pub proof fn video_packets_tell_their_numbers(
    packetizer: &mut VideoPacketizer,
    frame: &EncodedVideoFrame,
    packets: Vec<Vec<u8>>,
    k: int,
)
    requires
        call_ensures(VideoPacketizer::packetize, (packetizer, frame), packets),
        0 <= k < packets@.len(),
    ensures
        ({
            let p = packets@[k]@;
            &&& p.len() >= 32
            &&& p[0] == 0x90 && p[1] == 96
            &&& p[2] * 256 + p[3] == (old(packetizer).sequence + k) % 0x1_0000
            &&& p[4] * 0x100_0000 + p[5] * 0x1_0000 + p[6] * 256 + p[7] == frame.timestamp_90khz
            &&& p[8] == 0x52 && p[9] == 0x53 && p[10] == 0x56 && p[11] == 0x50
            &&& p[12] == 0 && p[13] == 0 && p[14] == 0 && p[15] == 0
            &&& p[16] == 0
            &&& p[19] * 0x1_0000 + p[18] * 256 + p[17] == (old(packetizer).stream_packet_index + k)
                % 0x100_0000
            &&& p[23] * 0x100_0000 + p[22] * 0x1_0000 + p[21] * 256 + p[20] == frame.frame_index
            &&& p[24] < 8 && p[24] % 2 == 1
            &&& p[24] / 2 % 2 == 1 <==> k == packets@.len() - 1
            &&& p[24] / 4 == 1 <==> k == 0
            &&& p[25] == 0 && p[26] == 0x10 && p[27] == 0
            &&& packets@.len() < 1024 ==> p[31] * 0x100_0000 + p[30] * 0x1_0000 + p[29] * 256 + p[28]
                == packets@.len() * 0x40_0000 + k * 0x1000
            &&& k == 0 ==> p.len() >= 40 && p[32] == 0x01 && p[33] == 0x37 && p[34] == 0x63 && p[35]
                == 0x68 && p[36] == 0x61 && p[37] == 0x72 && p[38] == 0x73 && p[39] == 0x73
        }),
{
    lemma_packetized(packetizer, frame, packets, k);
    lemma_shown_numbers(
        packets@[k]@,
        old(packetizer).sequence,
        frame.timestamp_90khz,
        old(packetizer).stream_packet_index,
        frame.frame_index,
        packets@.len() as int,
        k,
    );
}

proof fn lemma_index_mod(index: u32, k: int)
    requires
        0 <= k,
    ensures
        advance32(index, k) % 0x100_0000 == (index + k) % 0x100_0000,
{
    assert((index + k) % 0x1_0000_0000 % 0x100_0000 == (index + k) % 0x100_0000);
}

proof fn lemma_shown_numbers(
    p: Seq<u8>,
    sequence: u16,
    timestamp: u32,
    index: u32,
    frame_index: u32,
    n: int,
    k: int,
)
    requires
        0 <= k < n,
        shows(
            p,
            advance16(sequence, k),
            timestamp,
            advance32(index, k),
            frame_index,
            fec_info((k % 0x1_0000) as u16, (n % 0x1_0000) as u16),
            packet_flags(k == 0, k == n - 1),
            k == 0,
        ),
    ensures
        p.len() >= 32,
        p[0] == 0x90 && p[1] == 96,
        p[2] * 256 + p[3] == (sequence + k) % 0x1_0000,
        p[4] * 0x100_0000 + p[5] * 0x1_0000 + p[6] * 256 + p[7] == timestamp,
        p[8] == 0x52 && p[9] == 0x53 && p[10] == 0x56 && p[11] == 0x50,
        p[12] == 0 && p[13] == 0 && p[14] == 0 && p[15] == 0,
        p[16] == 0,
        p[19] * 0x1_0000 + p[18] * 256 + p[17] == (index + k) % 0x100_0000,
        p[23] * 0x100_0000 + p[22] * 0x1_0000 + p[21] * 256 + p[20] == frame_index,
        p[24] < 8 && p[24] % 2 == 1,
        p[24] / 2 % 2 == 1 <==> k == n - 1,
        p[24] / 4 == 1 <==> k == 0,
        p[25] == 0 && p[26] == 0x10 && p[27] == 0,
        n < 1024 ==> p[31] * 0x100_0000 + p[30] * 0x1_0000 + p[29] * 256 + p[28] == n * 0x40_0000
            + k * 0x1000,
        k == 0 ==> p.len() >= 40 && p[32] == 0x01 && p[33] == 0x37 && p[34] == 0x63 && p[35] == 0x68
            && p[36] == 0x61 && p[37] == 0x72 && p[38] == 0x73 && p[39] == 0x73,
{
    reveal(shows);
    lemma_index_mod(index, k);
    if n < 1024 {
        assert((k % 0x1_0000) as u16 == k);
        assert((n % 0x1_0000) as u16 == n);
        lemma_fec_sum(k as u16, n as u16);
    }
}

proof fn lemma_fec_sum(packet_in_frame: u16, data_packet_count: u16)
    requires
        packet_in_frame < 1024,
        data_packet_count < 1024,
    ensures
        fec_info(packet_in_frame, data_packet_count) == data_packet_count * 0x40_0000
            + packet_in_frame * 0x1000,
{
    let p = packet_in_frame as u32;
    let d = data_packet_count as u32;
    assert((d << 22u32) | (p << 12u32) == d * 0x40_0000 + p * 0x1000) by (bit_vector)
        requires
            p < 1024,
            d < 1024,
    ;
}

pub(crate) proof fn lemma_rtp_fields(
    payload_type: u8,
    sequence: u16,
    timestamp: u32,
    ssrc: u32,
    extension: bool,
    rest: Seq<u8>,
)
    ensures
        ({
            let p = rtp_header(payload_type, sequence, timestamp, ssrc, extension) + rest;
            &&& p[0] == if extension {
                0x90u8
            } else {
                0x80u8
            }
            &&& p[1] == payload_type
            &&& p[2] * 256 + p[3] == sequence
            &&& p[4] * 0x100_0000 + p[5] * 0x1_0000 + p[6] * 256 + p[7] == timestamp
            &&& p[8] * 0x100_0000 + p[9] * 0x1_0000 + p[10] * 256 + p[11] == ssrc
            &&& extension ==> p[12] == 0 && p[13] == 0 && p[14] == 0 && p[15] == 0 && p.skip(16)
                == rest
            &&& !extension ==> p.skip(12) == rest
        }),
{
    let p = rtp_header(payload_type, sequence, timestamp, ssrc, extension) + rest;
    lemma_integer_bytes(sequence, timestamp);
    lemma_integer_bytes(0, ssrc);
    assert(p.skip(12) =~= if extension {
        be16(0) + be16(0) + rest
    } else {
        rest
    });
    if extension {
        assert(p.skip(16) =~= rest);
    }
}

/// The bytes before the payload of `p` show the given numbers.
#[verifier::opaque]
spec fn shows(
    p: Seq<u8>,
    sequence: u16,
    timestamp: u32,
    index: u32,
    frame_index: u32,
    info: u32,
    flags: u8,
    first: bool,
) -> bool {
    &&& p.len() >= 32
    &&& p[0] == 0x90 && p[1] == 96
    &&& p[2] * 256 + p[3] == sequence
    &&& p[4] * 0x100_0000 + p[5] * 0x1_0000 + p[6] * 256 + p[7] == timestamp
    &&& p[8] == 0x52 && p[9] == 0x53 && p[10] == 0x56 && p[11] == 0x50
    &&& p[12] == 0 && p[13] == 0 && p[14] == 0 && p[15] == 0
    &&& p[16] == 0
    &&& p[19] * 0x1_0000 + p[18] * 256 + p[17] == index % 0x100_0000
    &&& p[23] * 0x100_0000 + p[22] * 0x1_0000 + p[21] * 256 + p[20] == frame_index
    &&& p[24] == flags && p[25] == 0 && p[26] == 0x10 && p[27] == 0
    &&& p[31] * 0x100_0000 + p[30] * 0x1_0000 + p[29] * 256 + p[28] == info
    &&& first ==> p.len() >= 40 && p[32] == 0x01 && p[33] == 0x37 && p[34] == 0x63 && p[35]
        == 0x68 && p[36] == 0x61 && p[37] == 0x72 && p[38] == 0x73 && p[39] == 0x73
}

proof fn lemma_packetized(
    packetizer: &mut VideoPacketizer,
    frame: &EncodedVideoFrame,
    packets: Vec<Vec<u8>>,
    k: int,
)
    requires
        call_ensures(VideoPacketizer::packetize, (packetizer, frame), packets),
        0 <= k < packets@.len(),
    ensures
        shows(
            packets@[k]@,
            advance16(old(packetizer).sequence, k),
            frame.timestamp_90khz,
            advance32(old(packetizer).stream_packet_index, k),
            frame.frame_index,
            fec_info((k % 0x1_0000) as u16, (packets@.len() % 0x1_0000) as u16),
            packet_flags(k == 0, k == packets@.len() - 1),
            k == 0,
        ),
{
    let n = packets@.len() as int;
    assert(views(packets@).len() == n);
    lemma_frame_packets(frame.data@.len() as int, 0);
    assert(views(packets@)[k] == packets@[k]@);
    lemma_packet_fields(
        advance16(old(packetizer).sequence, k),
        frame.timestamp_90khz,
        advance32(old(packetizer).stream_packet_index, k),
        frame.frame_index,
        (k % 0x1_0000) as u16,
        (n % 0x1_0000) as u16,
        packet_flags(k == 0, k == n - 1),
        k == 0,
        packet_payload(frame.data@, k),
    );
}

proof fn lemma_packet_fields(
    sequence: u16,
    timestamp: u32,
    index: u32,
    frame_index: u32,
    number: u16,
    count: u16,
    flags: u8,
    first: bool,
    payload: Seq<u8>,
)
    ensures
        shows(
            video_packet_bytes(
                sequence,
                timestamp,
                nv_video_header(index, frame_index, number, count, flags),
                first,
                payload,
            ),
            sequence,
            timestamp,
            index,
            frame_index,
            fec_info(number, count),
            flags,
            first,
        ),
{
    let header = nv_video_header(index, frame_index, number, count, flags);
    let magic = if first {
        video_magic()
    } else {
        Seq::empty()
    };
    let rest = header + magic + payload;
    let p = video_packet_bytes(sequence, timestamp, header, first, payload);
    assert(p =~= rtp_header(RTP_VIDEO_PAYLOAD_TYPE, sequence, timestamp, VIDEO_SSRC, true) + rest);
    lemma_rtp_fields(RTP_VIDEO_PAYLOAD_TYPE, sequence, timestamp, VIDEO_SSRC, true, rest);
    lemma_header_fields(index, frame_index, number, count, flags, magic + payload);
    assert(rest =~= header + (magic + payload));
    assert(rest[0] == p[16] && rest[1] == p[17] && rest[2] == p[18] && rest[3] == p[19]);
    assert(rest[4] == p[20] && rest[5] == p[21] && rest[6] == p[22] && rest[7] == p[23]);
    assert(rest[8] == p[24] && rest[9] == p[25] && rest[10] == p[26] && rest[11] == p[27]);
    assert(rest[12] == p[28] && rest[13] == p[29] && rest[14] == p[30] && rest[15] == p[31]);
    if first {
        assert(rest[16] == video_magic()[0] && rest[17] == video_magic()[1] && rest[18] == video_magic()[2] && rest[19] == video_magic()[3]);
        assert(rest[16] == p[32] && rest[17] == p[33] && rest[18] == p[34] && rest[19] == p[35]);
        assert(rest[20] == video_magic()[4] && rest[21] == video_magic()[5] && rest[22] == video_magic()[6] && rest[23] == video_magic()[7]);
        assert(rest[20] == p[36] && rest[21] == p[37] && rest[22] == p[38] && rest[23] == p[39]);
    }
    reveal(shows);
}

proof fn lemma_header_fields(
    index: u32,
    frame_index: u32,
    number: u16,
    count: u16,
    flags: u8,
    rest: Seq<u8>,
)
    ensures
        ({
            let p = nv_video_header(index, frame_index, number, count, flags) + rest;
            &&& p.len() == 16 + rest.len()
            &&& p[0] == 0
            &&& p[3] * 0x1_0000 + p[2] * 256 + p[1] == index % 0x100_0000
            &&& p[7] * 0x100_0000 + p[6] * 0x1_0000 + p[5] * 256 + p[4] == frame_index
            &&& p[8] == flags && p[9] == 0 && p[10] == 0x10 && p[11] == 0
            &&& p[15] * 0x100_0000 + p[14] * 0x1_0000 + p[13] * 256 + p[12] == fec_info(
                number,
                count,
            )
        }),
{
    let shifted = (index % 0x100_0000 * 256) as u32;
    lemma_integer_bytes(0, shifted);
    lemma_integer_bytes(0, frame_index);
    lemma_integer_bytes(0, fec_info(number, count));
}

/// The first packet of a frame carries its first thousand bytes and each later one
/// the next 1008, as far as the frame goes; there are as many packets as that takes,
/// and one for an empty frame. The packetizer's counters move on by their number.
pub proof fn video_packets_hold_the_frame(
    packetizer: &mut VideoPacketizer,
    frame: &EncodedVideoFrame,
    packets: Vec<Vec<u8>>,
    k: int,
)
    requires
        call_ensures(VideoPacketizer::packetize, (packetizer, frame), packets),
        0 <= k < packets@.len(),
    ensures
        ({
            let data = frame.data@;
            let n = packets@.len() as int;
            let from: int = if k == 0 {
                0
            } else {
                1000 + (k - 1) * 1008
            };
            let to: int = if k == n - 1 {
                data.len() as int
            } else {
                1000 + k * 1008
            };
            &&& data.len() <= 1000 <==> n == 1
            &&& n > 1 ==> 1000 + (n - 2) * 1008 < data.len() <= 1000 + (n - 1) * 1008
            &&& 0 <= from <= to <= data.len()
            &&& packets@[k]@.skip(
                if k == 0 {
                    40
                } else {
                    32
                },
            ) == data.subrange(from, to)
        }),
        final(packetizer).sequence == (old(packetizer).sequence + packets@.len()) % 0x1_0000,
        final(packetizer).stream_packet_index == (old(packetizer).stream_packet_index
            + packets@.len()) % 0x1_0000_0000,
{
    let data = frame.data@;
    let n = packets@.len() as int;
    assert(views(packets@).len() == n);
    lemma_frame_packets(data.len() as int, 0);
    lemma_frame_packets(data.len() as int, k);
    lemma_frame_packets(data.len() as int, n - 1);
    if n > 1 {
        lemma_frame_packets(data.len() as int, n - 2);
    }
    assert(views(packets@)[k] == packets@[k]@);
    assert(packets@[k]@.skip(
        if k == 0 {
            40
        } else {
            32
        },
    ) =~= packet_payload(data, k));
}

/// A new packetizer numbers its first packet with one.
pub proof fn video_numbering_starts_at_one(
    new: VideoPacketizer,
    packetizer: &mut VideoPacketizer,
    frame: &EncodedVideoFrame,
    packets: Vec<Vec<u8>>,
)
    requires
        call_ensures(VideoPacketizer::new, (), new),
        *old(packetizer) == new,
        call_ensures(VideoPacketizer::packetize, (packetizer, frame), packets),
    ensures
        packets@.len() > 0,
        packets@[0]@.subrange(2, 4) == seq![0u8, 1u8],
        packets@[0]@.subrange(16, 20) == seq![0u8, 0u8, 0u8, 0u8],
{
    lemma_frame_packets(frame.data@.len() as int, 0);
    assert(views(packets@).len() == packets@.len());
    video_packets_tell_their_numbers(packetizer, frame, packets, 0);
    let p = packets@[0]@;
    assert(p.subrange(2, 4) =~= seq![0u8, 1u8]);
    assert(p.subrange(16, 20) =~= seq![0u8, 0u8, 0u8, 0u8]);
}

/// A frame takes the least number of packets that hold it: one where the first is
/// large enough, else enough more, with the last of them not empty.
pub proof fn frames_take_the_fewest_packets(
    frame_len: usize,
    first_payload_size: usize,
    regular_payload_size: usize,
    count: u16,
)
    requires
        regular_payload_size > 0,
        frame_len < 0xffff,
        call_ensures(
            video_data_packet_count,
            (frame_len, first_payload_size, regular_payload_size),
            count,
        ),
    ensures
        frame_len <= first_payload_size ==> count == 1,
        frame_len > first_payload_size ==> {
            &&& count >= 2
            &&& first_payload_size + (count - 2) * regular_payload_size < frame_len
            &&& frame_len <= first_payload_size + (count - 1) * regular_payload_size
        },
{
    if frame_len > first_payload_size {
        let rest = frame_len - first_payload_size - 1;
        let r = regular_payload_size as int;
        vstd::arithmetic::div_mod::lemma_fundamental_div_mod(rest, r);
        vstd::arithmetic::div_mod::lemma_mod_bound(rest, r);
        let q = rest / r;
        assert(0 <= q <= rest) by (nonlinear_arith)
            requires
                q == rest / r,
                rest >= 0,
                r >= 1,
        ;
        assert(count == q + 2);
        assert((count - 1) * r == r * q + r) by (nonlinear_arith)
            requires
                count == q + 2,
        ;
        assert((count - 2) * r == r * q) by (nonlinear_arith)
            requires
                count == q + 2,
        ;
    }
}

/// The two counts stand in the last word of the video header whatever their size: the
/// number of packets from bit 22 on and the number of the packet from bit 12 on, each
/// counted modulo `2^16`.
pub proof fn counts_stand_in_the_last_word(
    packetizer: &mut VideoPacketizer,
    frame: &EncodedVideoFrame,
    packets: Vec<Vec<u8>>,
    k: int,
)
    requires
        call_ensures(VideoPacketizer::packetize, (packetizer, frame), packets),
        0 <= k < packets@.len(),
    ensures
        ({
            let p = packets@[k]@;
            let count = (packets@.len() % 0x1_0000) as u32;
            let number = (k % 0x1_0000) as u32;
            p[31] * 0x100_0000 + p[30] * 0x1_0000 + p[29] * 256 + p[28] == ((count << 22u32) | (
            number << 12u32))
        }),
{
    lemma_packetized(packetizer, frame, packets, k);
    lemma_shown_info(
        packets@[k]@,
        advance16(old(packetizer).sequence, k),
        frame.timestamp_90khz,
        advance32(old(packetizer).stream_packet_index, k),
        frame.frame_index,
        fec_info((k % 0x1_0000) as u16, (packets@.len() % 0x1_0000) as u16),
        packet_flags(k == 0, k == packets@.len() - 1),
        k == 0,
    );
}

proof fn lemma_shown_info(
    p: Seq<u8>,
    sequence: u16,
    timestamp: u32,
    index: u32,
    frame_index: u32,
    info: u32,
    flags: u8,
    first: bool,
)
    requires
        shows(p, sequence, timestamp, index, frame_index, info, flags, first),
    ensures
        p[31] * 0x100_0000 + p[30] * 0x1_0000 + p[29] * 256 + p[28] == info,
{
    reveal(shows);
}

} // verus!
