//! The control channel: packet envelopes, messages and input events.
use vstd::prelude::*;
use crate::bytes::{
    be32, integer_bytes_are_distinct, le16, le32, lemma_integer_bytes, read_be32, read_le16,
    read_le32,
};

verus! {

pub const ENCRYPTED_PACKET_TYPE: u16 = 0x0001;

pub const GCM_TAG_LEN: usize = 16;

pub const CONTROL_CHANNELS: usize = 2;

pub const CONTROL_PEERS: usize = 8;

/// Milliseconds between two looks at the control socket.
pub const CONTROL_POLL_INTERVAL_MS: u64 = 10;

/// Why bytes of the control channel cannot be read.
#[derive(Clone, Copy, Debug, PartialEq, Eq, Structural)]
pub enum ControlError {
    EncryptedPacketTooShort,
    UnsupportedPacketType(u16),
    EncryptedLengthMismatch { declared: usize, actual: usize },
    PayloadTooShort,
    PayloadLengthMismatch { declared: usize, actual: usize },
    InputTooShort,
    InputSizeExceedsBody { declared: usize, actual: usize },
}

/// An encrypted packet of the control channel.
#[derive(Debug, PartialEq, Eq)]
pub struct EncryptedControlPacket<'a> {
    pub sequence: u32,
    pub tag: &'a [u8],
    pub payload: &'a [u8],
}

/// A decrypted packet of the control channel.
#[derive(Debug, PartialEq, Eq)]
pub struct ControlPayload<'a> {
    pub message_type: ControlMessageType,
    pub declared_len: usize,
    pub body: &'a [u8],
}

/// The kinds of messages on the control channel.
#[derive(Clone, Copy, Debug, PartialEq, Eq, Structural)]
pub enum ControlMessageType {
    StartA,
    StartB,
    InvalidateRefFrames,
    LossStats,
    FrameStats,
    InputData,
    Termination,
    PeriodicPing,
    IdrFrame,
    HdrMode,
    RumbleData,
    RumbleTriggers,
    MotionEvent,
    RgbLed,
    Unknown(u16),
}

/// The kinds of input events.
#[derive(Clone, Copy, Debug, PartialEq, Eq, Structural)]
pub enum InputDataType {
    MouseMoveRel,
    MouseMoveAbs,
    MouseButtonDown,
    MouseButtonUp,
    KeyDown,
    KeyUp,
    MouseScroll,
    MouseHScroll,
    Touch,
    Pen,
    ControllerMulti,
    ControllerArrival,
    ControllerTouch,
    ControllerMotion,
    ControllerBattery,
    Haptics,
    Utf8Text,
    Unknown(u32),
}

/// The beginning of an input event.
#[derive(Clone, Copy, Debug, PartialEq, Eq, Structural)]
pub struct InputDataHeader {
    pub message_size: usize,
    pub input_type: InputDataType,
}

// ---------------------------------------------------------------------------
// Codes
// ---------------------------------------------------------------------------
impl ControlMessageType {
    /// The code that stands for a kind of message.
    pub open spec fn code(self) -> u16 {
        match self {
            Self::StartA => 0x0305,
            Self::StartB => 0x0307,
            Self::InvalidateRefFrames => 0x0301,
            Self::LossStats => 0x0201,
            Self::FrameStats => 0x0204,
            Self::InputData => 0x0206,
            Self::Termination => 0x0100,
            Self::PeriodicPing => 0x0200,
            Self::IdrFrame => 0x0302,
            Self::HdrMode => 0x010e,
            Self::RumbleData => 0x010b,
            Self::RumbleTriggers => 0x5500,
            Self::MotionEvent => 0x5501,
            Self::RgbLed => 0x5502,
            Self::Unknown(value) => value,
        }
    }

    /// The kind of message that a code stands for.
    pub open spec fn of_code(value: u16) -> Self {
        if value == 0x0305 {
            Self::StartA
        } else if value == 0x0307 {
            Self::StartB
        } else if value == 0x0301 {
            Self::InvalidateRefFrames
        } else if value == 0x0201 {
            Self::LossStats
        } else if value == 0x0204 {
            Self::FrameStats
        } else if value == 0x0206 {
            Self::InputData
        } else if value == 0x0100 {
            Self::Termination
        } else if value == 0x0200 {
            Self::PeriodicPing
        } else if value == 0x0302 {
            Self::IdrFrame
        } else if value == 0x010e {
            Self::HdrMode
        } else if value == 0x010b {
            Self::RumbleData
        } else if value == 0x5500 {
            Self::RumbleTriggers
        } else if value == 0x5501 {
            Self::MotionEvent
        } else if value == 0x5502 {
            Self::RgbLed
        } else {
            Self::Unknown(value)
        }
    }

    /// The kind of message that a code stands for.
    pub fn from_wire(value: u16) -> (kind: Self)
        ensures
            kind == Self::of_code(value),
    {
        match value {
            0x0305 => Self::StartA,
            0x0307 => Self::StartB,
            0x0301 => Self::InvalidateRefFrames,
            0x0201 => Self::LossStats,
            0x0204 => Self::FrameStats,
            0x0206 => Self::InputData,
            0x0100 => Self::Termination,
            0x0200 => Self::PeriodicPing,
            0x0302 => Self::IdrFrame,
            0x010e => Self::HdrMode,
            0x010b => Self::RumbleData,
            0x5500 => Self::RumbleTriggers,
            0x5501 => Self::MotionEvent,
            0x5502 => Self::RgbLed,
            value => Self::Unknown(value),
        }
    }
}

impl InputDataType {
    /// The code that stands for a kind of input event.
    pub open spec fn code(self) -> u32 {
        match self {
            Self::MouseMoveRel => 0x0000_0007,
            Self::MouseMoveAbs => 0x0000_0005,
            Self::MouseButtonDown => 0x0000_0008,
            Self::MouseButtonUp => 0x0000_0009,
            Self::KeyDown => 0x0000_0003,
            Self::KeyUp => 0x0000_0004,
            Self::MouseScroll => 0x0000_000a,
            Self::MouseHScroll => 0x5500_0001,
            Self::Touch => 0x5500_0002,
            Self::Pen => 0x5500_0003,
            Self::ControllerMulti => 0x0000_000c,
            Self::ControllerArrival => 0x5500_0004,
            Self::ControllerTouch => 0x5500_0005,
            Self::ControllerMotion => 0x5500_0006,
            Self::ControllerBattery => 0x5500_0007,
            Self::Haptics => 0x0000_000d,
            Self::Utf8Text => 0x0000_0017,
            Self::Unknown(value) => value,
        }
    }

    /// The kind of input event that a code stands for.
    pub open spec fn of_code(value: u32) -> Self {
        if value == 0x0000_0007 {
            Self::MouseMoveRel
        } else if value == 0x0000_0005 {
            Self::MouseMoveAbs
        } else if value == 0x0000_0008 {
            Self::MouseButtonDown
        } else if value == 0x0000_0009 {
            Self::MouseButtonUp
        } else if value == 0x0000_0003 {
            Self::KeyDown
        } else if value == 0x0000_0004 {
            Self::KeyUp
        } else if value == 0x0000_000a {
            Self::MouseScroll
        } else if value == 0x5500_0001 {
            Self::MouseHScroll
        } else if value == 0x5500_0002 {
            Self::Touch
        } else if value == 0x5500_0003 {
            Self::Pen
        } else if value == 0x0000_000c {
            Self::ControllerMulti
        } else if value == 0x5500_0004 {
            Self::ControllerArrival
        } else if value == 0x5500_0005 {
            Self::ControllerTouch
        } else if value == 0x5500_0006 {
            Self::ControllerMotion
        } else if value == 0x5500_0007 {
            Self::ControllerBattery
        } else if value == 0x0000_000d {
            Self::Haptics
        } else if value == 0x0000_0017 {
            Self::Utf8Text
        } else {
            Self::Unknown(value)
        }
    }

    /// The kind of input event that a code stands for.
    pub fn from_wire(value: u32) -> (kind: Self)
        ensures
            kind == Self::of_code(value),
    {
        match value {
            0x0000_0007 => Self::MouseMoveRel,
            0x0000_0005 => Self::MouseMoveAbs,
            0x0000_0008 => Self::MouseButtonDown,
            0x0000_0009 => Self::MouseButtonUp,
            0x0000_0003 => Self::KeyDown,
            0x0000_0004 => Self::KeyUp,
            0x0000_000a => Self::MouseScroll,
            0x5500_0001 => Self::MouseHScroll,
            0x5500_0002 => Self::Touch,
            0x5500_0003 => Self::Pen,
            0x0000_000c => Self::ControllerMulti,
            0x5500_0004 => Self::ControllerArrival,
            0x5500_0005 => Self::ControllerTouch,
            0x5500_0006 => Self::ControllerMotion,
            0x5500_0007 => Self::ControllerBattery,
            0x0000_000d => Self::Haptics,
            0x0000_0017 => Self::Utf8Text,
            value => Self::Unknown(value),
        }
    }
}

/// Reading a code keeps the code: no two codes are read as the same kind.
pub proof fn codes_survive_reading(message: u16, input: u32)
    ensures
        ControlMessageType::of_code(message).code() == message,
        InputDataType::of_code(input).code() == input,
{
}

/// Every named kind is read back from its own code.
pub proof fn named_kinds_have_their_own_codes(message: ControlMessageType, input: InputDataType)
    ensures
        !(message is Unknown) ==> ControlMessageType::of_code(message.code()) == message,
        !(input is Unknown) ==> InputDataType::of_code(input.code()) == input,
{
}

// ---------------------------------------------------------------------------
// Envelopes
// ---------------------------------------------------------------------------
/// The bytes of an encrypted packet: type, length of what follows, sequence
/// number, tag and payload.
pub open spec fn encrypted_packet_bytes(sequence: u32, tag: Seq<u8>, payload: Seq<u8>) -> Seq<u8> {
    le16(ENCRYPTED_PACKET_TYPE) + le16((4 + tag.len() + payload.len()) as u16) + le32(sequence)
        + tag + payload
}

/// `data` is an encrypted packet.
pub open spec fn is_encrypted_packet(data: Seq<u8>) -> bool {
    &&& 24 <= data.len() <= u16::MAX + 4
    &&& data.take(2) == le16(ENCRYPTED_PACKET_TYPE)
    &&& data.subrange(2, 4) == le16((data.len() - 4) as u16)
}

/// `data` is a decrypted packet.
pub open spec fn is_control_payload(data: Seq<u8>) -> bool {
    &&& 4 <= data.len() <= u16::MAX + 4
    &&& data.subrange(2, 4) == le16((data.len() - 4) as u16)
}

/// Reads an encrypted packet.
pub fn parse_encrypted_control_packet<'a>(data: &'a [u8]) -> (packet: Result<
    EncryptedControlPacket<'a>,
    ControlError,
>)
    ensures
        packet is Ok <==> is_encrypted_packet(data@),
        match packet {
            Ok(p) => {
                &&& p.tag@.len() == GCM_TAG_LEN
                &&& 4 + p.tag@.len() + p.payload@.len() <= u16::MAX
                &&& data@ == encrypted_packet_bytes(p.sequence, p.tag@, p.payload@)
            },
            Err(ControlError::EncryptedPacketTooShort) => data@.len() < 24,
            Err(ControlError::UnsupportedPacketType(kind)) => {
                &&& data@.len() >= 24
                &&& data@.take(2) == le16(kind)
                &&& kind != ENCRYPTED_PACKET_TYPE
            },
            Err(ControlError::EncryptedLengthMismatch { declared, actual }) => {
                &&& data@.len() >= 24
                &&& data@.take(2) == le16(ENCRYPTED_PACKET_TYPE)
                &&& declared <= u16::MAX
                &&& data@.subrange(2, 4) == le16(declared as u16)
                &&& actual == data@.len() - 4
                &&& declared != actual
            },
            Err(_) => false,
        },
{
    let total: usize = data.len();
    if total < 24 {
        return Err(ControlError::EncryptedPacketTooShort);
    }
    let packet_type: u16 = read_le16(data, 0);
    assert(data@.subrange(0, 2) =~= data@.take(2));
    if packet_type != ENCRYPTED_PACKET_TYPE {
        proof {
            integer_bytes_are_distinct(packet_type, ENCRYPTED_PACKET_TYPE, 0, 0);
        }
        return Err(ControlError::UnsupportedPacketType(packet_type));
    }
    let declared: usize = read_le16(data, 2) as usize;
    let actual: usize = total - 4;
    if declared != actual {
        proof {
            integer_bytes_are_distinct(declared as u16, actual as u16, 0, 0);
        }
        return Err(ControlError::EncryptedLengthMismatch { declared, actual });
    }
    let sequence: u32 = read_le32(data, 4);
    let tag = &data[8..24];
    let payload = &data[24..total];
    assert(data@ =~= data@.take(2) + data@.subrange(2, 4) + data@.subrange(4, 8) + tag@ + payload@);
    Ok(EncryptedControlPacket { sequence, tag, payload })
}

/// Two encrypted packets with the same bytes say the same: what a packet was
/// made of is what is read back from it.
pub proof fn encrypted_packets_are_unambiguous(
    sequence: u32,
    tag: Seq<u8>,
    payload: Seq<u8>,
    other_sequence: u32,
    other_tag: Seq<u8>,
    other_payload: Seq<u8>,
)
    requires
        tag.len() == GCM_TAG_LEN,
        other_tag.len() == GCM_TAG_LEN,
        encrypted_packet_bytes(sequence, tag, payload) == encrypted_packet_bytes(
            other_sequence,
            other_tag,
            other_payload,
        ),
    ensures
        sequence == other_sequence,
        tag == other_tag,
        payload == other_payload,
{
    let a = encrypted_packet_bytes(sequence, tag, payload);
    let b = encrypted_packet_bytes(other_sequence, other_tag, other_payload);
    assert(a.subrange(4, 8) =~= le32(sequence));
    assert(b.subrange(4, 8) =~= le32(other_sequence));
    integer_bytes_are_distinct(0, 0, sequence, other_sequence);
    assert(a.subrange(8, 24) =~= tag);
    assert(b.subrange(8, 24) =~= other_tag);
    assert(a.skip(24) =~= payload);
    assert(b.skip(24) =~= other_payload);
}

/// The bytes of a decrypted packet: message code, length of the body, body.
pub open spec fn control_payload_bytes(code: u16, body: Seq<u8>) -> Seq<u8> {
    le16(code) + le16(body.len() as u16) + body
}

/// Reads a decrypted packet.
pub fn parse_control_payload<'a>(data: &'a [u8]) -> (payload: Result<
    ControlPayload<'a>,
    ControlError,
>)
    ensures
        payload is Ok <==> is_control_payload(data@),
        match payload {
            Ok(p) => {
                &&& p.declared_len == p.body@.len()
                &&& p.body@.len() <= u16::MAX
                &&& data@ == control_payload_bytes(p.message_type.code(), p.body@)
                &&& p.message_type == ControlMessageType::of_code(p.message_type.code())
            },
            Err(ControlError::PayloadTooShort) => data@.len() < 4,
            Err(ControlError::PayloadLengthMismatch { declared, actual }) => {
                &&& data@.len() >= 4
                &&& declared <= u16::MAX
                &&& data@.subrange(2, 4) == le16(declared as u16)
                &&& actual == data@.len() - 4
                &&& declared != actual
            },
            Err(_) => false,
        },
{
    let total: usize = data.len();
    if total < 4 {
        return Err(ControlError::PayloadTooShort);
    }
    let code: u16 = read_le16(data, 0);
    let message_type = ControlMessageType::from_wire(code);
    proof {
        codes_survive_reading(code, 0);
    }
    let declared_len: usize = read_le16(data, 2) as usize;
    let body = &data[4..total];
    if declared_len != body.len() {
        proof {
            integer_bytes_are_distinct(declared_len as u16, body@.len() as u16, 0, 0);
        }
        return Err(
            ControlError::PayloadLengthMismatch { declared: declared_len, actual: body.len() },
        );
    }
    assert(data@ =~= data@.subrange(0, 2) + data@.subrange(2, 4) + body@);
    Ok(ControlPayload { message_type, declared_len, body })
}

/// Two decrypted packets with the same bytes say the same.
pub proof fn control_payloads_are_unambiguous(
    code: u16,
    body: Seq<u8>,
    other_code: u16,
    other_body: Seq<u8>,
)
    requires
        control_payload_bytes(code, body) == control_payload_bytes(other_code, other_body),
    ensures
        code == other_code,
        body == other_body,
{
    let a = control_payload_bytes(code, body);
    let b = control_payload_bytes(other_code, other_body);
    assert(a.subrange(0, 2) =~= le16(code));
    assert(b.subrange(0, 2) =~= le16(other_code));
    integer_bytes_are_distinct(code, other_code, 0, 0);
    assert(a.skip(4) =~= body);
    assert(b.skip(4) =~= other_body);
}

/// Reads the beginning of an input event.
pub fn parse_input_data_header(data: &[u8]) -> (header: Result<InputDataHeader, ControlError>)
    ensures
        match header {
            Ok(h) => {
                &&& data@.len() >= 8
                &&& h.message_size <= u32::MAX
                &&& data@.take(4) == be32(h.message_size as u32)
                &&& h.message_size <= data@.len()
                &&& data@.subrange(4, 8) == le32(h.input_type.code())
                &&& h.input_type == InputDataType::of_code(h.input_type.code())
            },
            Err(ControlError::InputTooShort) => data@.len() < 8,
            Err(ControlError::InputSizeExceedsBody { declared, actual }) => {
                &&& data@.len() >= 8
                &&& declared <= u32::MAX
                &&& data@.take(4) == be32(declared as u32)
                &&& actual == data@.len()
                &&& declared > actual
            },
            Err(_) => false,
        },
{
    let total: usize = data.len();
    if total < 8 {
        return Err(ControlError::InputTooShort);
    }
    let message_size: usize = read_be32(data, 0) as usize;
    assert(data@.subrange(0, 4) =~= data@.take(4));
    if message_size > total {
        return Err(ControlError::InputSizeExceedsBody { declared: message_size, actual: total });
    }
    let code: u32 = read_le32(data, 4);
    proof {
        codes_survive_reading(0, code);
    }
    Ok(InputDataHeader { message_size, input_type: InputDataType::from_wire(code) })
}

// ---------------------------------------------------------------------------
// Classification
// ---------------------------------------------------------------------------
/// What a packet of the control channel turned out to be.
#[derive(Clone, Copy, Debug, PartialEq, Eq, Structural)]
pub enum ControlReport {
    Encrypted { sequence: u32, payload_len: usize, tag_len: usize },
    Input { message_size: usize, input_type: InputDataType },
    MalformedInput { declared_len: usize, error: ControlError },
    Message { message_type: ControlMessageType, declared_len: usize, body_len: usize },
    Unrecognized { len: usize },
}

/// What a decrypted packet says.
pub fn report_control_payload(payload: &ControlPayload<'_>) -> (report: ControlReport)
    ensures
        match report {
            ControlReport::Input { message_size, input_type } => {
                &&& payload.message_type is InputData
                &&& payload.body@.len() >= 8
                &&& message_size <= u32::MAX
                &&& payload.body@.take(4) == be32(message_size as u32)
                &&& message_size <= payload.body@.len()
                &&& payload.body@.subrange(4, 8) == le32(input_type.code())
                &&& input_type == InputDataType::of_code(input_type.code())
            },
            ControlReport::MalformedInput { declared_len, error } => {
                &&& payload.message_type is InputData
                &&& declared_len == payload.declared_len
                &&& match error {
                    ControlError::InputTooShort => payload.body@.len() < 8,
                    ControlError::InputSizeExceedsBody { declared, actual } => {
                        &&& payload.body@.len() >= 8
                        &&& declared <= u32::MAX
                        &&& payload.body@.take(4) == be32(declared as u32)
                        &&& actual == payload.body@.len()
                        &&& declared > actual
                    },
                    _ => false,
                }
            },
            ControlReport::Message { message_type, declared_len, body_len } => {
                &&& !(payload.message_type is InputData)
                &&& message_type == payload.message_type
                &&& declared_len == payload.declared_len
                &&& body_len == payload.body@.len()
            },
            _ => false,
        },
{
    let is_input = match payload.message_type {
        ControlMessageType::InputData => true,
        _ => false,
    };
    if is_input {
        match parse_input_data_header(payload.body) {
            Ok(header) => ControlReport::Input {
                message_size: header.message_size,
                input_type: header.input_type,
            },
            Err(error) => ControlReport::MalformedInput {
                declared_len: payload.declared_len,
                error,
            },
        }
    } else {
        ControlReport::Message {
            message_type: payload.message_type,
            declared_len: payload.declared_len,
            body_len: payload.body.len(),
        }
    }
}

/// Tells what a packet of the control channel is. One that could be read both
/// ways counts as encrypted.
pub fn inspect_control_packet(data: &[u8]) -> (report: ControlReport)
    ensures
        match report {
            ControlReport::Encrypted { sequence, payload_len, tag_len } => {
                &&& is_encrypted_packet(data@)
                &&& data@.subrange(4, 8) == le32(sequence)
                &&& tag_len == GCM_TAG_LEN
                &&& payload_len == data@.len() - 24
            },
            ControlReport::Input { message_size, input_type } => {
                &&& !is_encrypted_packet(data@) && is_control_payload(data@)
                &&& data@.take(2) == le16(ControlMessageType::InputData.code())
                &&& data@.len() >= 12
                &&& message_size <= u32::MAX
                &&& data@.subrange(4, 8) == be32(message_size as u32)
                &&& message_size <= data@.len() - 4
                &&& data@.subrange(8, 12) == le32(input_type.code())
                &&& input_type == InputDataType::of_code(input_type.code())
            },
            ControlReport::MalformedInput { declared_len, error } => {
                &&& !is_encrypted_packet(data@) && is_control_payload(data@)
                &&& data@.take(2) == le16(ControlMessageType::InputData.code())
                &&& declared_len == data@.len() - 4
                &&& match error {
                    ControlError::InputTooShort => data@.len() < 12,
                    ControlError::InputSizeExceedsBody { declared, actual } => {
                        &&& data@.len() >= 12
                        &&& declared <= u32::MAX
                        &&& data@.subrange(4, 8) == be32(declared as u32)
                        &&& actual == data@.len() - 4
                        &&& declared > actual
                    },
                    _ => false,
                }
            },
            ControlReport::Message { message_type, declared_len, body_len } => {
                &&& !is_encrypted_packet(data@) && is_control_payload(data@)
                &&& data@.take(2) == le16(message_type.code())
                &&& message_type == ControlMessageType::of_code(message_type.code())
                &&& !(message_type is InputData)
                &&& declared_len == data@.len() - 4
                &&& body_len == data@.len() - 4
            },
            ControlReport::Unrecognized { len } => {
                &&& !is_encrypted_packet(data@) && !is_control_payload(data@)
                &&& len == data@.len()
            },
        },
{
    let ghost total = data@.len();
    match parse_encrypted_control_packet(data) {
        Ok(packet) => {
            proof {
                assert(data@.take(2) =~= le16(ENCRYPTED_PACKET_TYPE));
                assert(data@.subrange(2, 4) =~= le16((total - 4) as u16));
                assert(data@.subrange(4, 8) =~= le32(packet.sequence));
            }
            return ControlReport::Encrypted {
                sequence: packet.sequence,
                payload_len: packet.payload.len(),
                tag_len: packet.tag.len(),
            };
        },
        Err(_) => {},
    }
    match parse_control_payload(data) {
        Ok(payload) => {
            proof {
                assert(data@.take(2) =~= le16(payload.message_type.code()));
                assert(data@.subrange(2, 4) =~= le16((total - 4) as u16));
                if total >= 8 {
                    assert(payload.body@.take(4) =~= data@.subrange(4, 8));
                }
                if total >= 12 {
                    assert(payload.body@.subrange(4, 8) =~= data@.subrange(8, 12));
                }
            }
            report_control_payload(&payload)
        },
        Err(_) => ControlReport::Unrecognized { len: data.len() },
    }
}

// ---------------------------------------------------------------------------
// What the bytes of a packet say
// ---------------------------------------------------------------------------
/// The kind of message that each code of the protocol is read as; any other code is
/// kept as it came.
pub proof fn message_codes_are_those_of_the_protocol(value: u16, kind: ControlMessageType)
    requires
        call_ensures(ControlMessageType::from_wire, (value,), kind),
    ensures
        kind is StartA <==> value == 0x0305,
        kind is StartB <==> value == 0x0307,
        kind is InvalidateRefFrames <==> value == 0x0301,
        kind is LossStats <==> value == 0x0201,
        kind is FrameStats <==> value == 0x0204,
        kind is InputData <==> value == 0x0206,
        kind is Termination <==> value == 0x0100,
        kind is PeriodicPing <==> value == 0x0200,
        kind is IdrFrame <==> value == 0x0302,
        kind is HdrMode <==> value == 0x010e,
        kind is RumbleData <==> value == 0x010b,
        kind is RumbleTriggers <==> value == 0x5500,
        kind is MotionEvent <==> value == 0x5501,
        kind is RgbLed <==> value == 0x5502,
        kind matches ControlMessageType::Unknown(v) ==> v == value,
{
}

/// The kind of input event that each code of the protocol is read as; any other code
/// is kept as it came.
pub proof fn input_codes_are_those_of_the_protocol(value: u32, kind: InputDataType)
    requires
        call_ensures(InputDataType::from_wire, (value,), kind),
    ensures
        kind is MouseMoveRel <==> value == 7,
        kind is MouseMoveAbs <==> value == 5,
        kind is MouseButtonDown <==> value == 8,
        kind is MouseButtonUp <==> value == 9,
        kind is KeyDown <==> value == 3,
        kind is KeyUp <==> value == 4,
        kind is MouseScroll <==> value == 0xa,
        kind is MouseHScroll <==> value == 0x5500_0001,
        kind is Touch <==> value == 0x5500_0002,
        kind is Pen <==> value == 0x5500_0003,
        kind is ControllerMulti <==> value == 0xc,
        kind is ControllerArrival <==> value == 0x5500_0004,
        kind is ControllerTouch <==> value == 0x5500_0005,
        kind is ControllerMotion <==> value == 0x5500_0006,
        kind is ControllerBattery <==> value == 0x5500_0007,
        kind is Haptics <==> value == 0xd,
        kind is Utf8Text <==> value == 0x17,
        kind matches InputDataType::Unknown(v) ==> v == value,
{
}

/// An input packet is told apart by its first two bytes, 06 02, and by a length that
/// is right; it says its size, most significant byte first, and then the code of its
/// event, least significant byte first.
pub proof fn input_packets_are_read_by_their_bytes(data: &[u8], report: ControlReport)
    requires
        call_ensures(inspect_control_packet, (data,), report),
        12 <= data@.len(),
        data@[0] == 0x06 && data@[1] == 0x02,
        data@[3] * 256 + data@[2] == data@.len() - 4,
    ensures
        ({
            let size = data@[4] * 0x100_0000 + data@[5] * 0x1_0000 + data@[6] * 256 + data@[7];
            let code = data@[11] * 0x100_0000 + data@[10] * 0x1_0000 + data@[9] * 256 + data@[8];
            &&& report is Input <==> size <= data@.len() - 4
            &&& size > data@.len() - 4 ==> report == (ControlReport::MalformedInput {
                declared_len: (data@.len() - 4) as usize,
                error: ControlError::InputSizeExceedsBody {
                    declared: size as usize,
                    actual: (data@.len() - 4) as usize,
                },
            })
            &&& report matches ControlReport::Input { message_size, input_type } ==> {
                &&& message_size == size
                &&& input_type is MouseMoveRel <==> code == 7
                &&& input_type is MouseMoveAbs <==> code == 5
                &&& input_type is MouseButtonDown <==> code == 8
                &&& input_type is MouseButtonUp <==> code == 9
                &&& input_type is KeyDown <==> code == 3
                &&& input_type is KeyUp <==> code == 4
                &&& input_type is MouseScroll <==> code == 0xa
                &&& input_type is MouseHScroll <==> code == 0x5500_0001
                &&& input_type is Touch <==> code == 0x5500_0002
                &&& input_type is Pen <==> code == 0x5500_0003
                &&& input_type is ControllerMulti <==> code == 0xc
                &&& input_type is ControllerArrival <==> code == 0x5500_0004
                &&& input_type is ControllerTouch <==> code == 0x5500_0005
                &&& input_type is ControllerMotion <==> code == 0x5500_0006
                &&& input_type is ControllerBattery <==> code == 0x5500_0007
                &&& input_type is Haptics <==> code == 0xd
                &&& input_type is Utf8Text <==> code == 0x17
                &&& input_type matches InputDataType::Unknown(v) ==> v == code
            }
        }),
{
    lemma_packet_numbers(data@);
    match report {
        ControlReport::Input { message_size, input_type } => {
            lemma_integer_bytes(0, message_size as u32);
            lemma_integer_bytes(0, input_type.code());
        },
        ControlReport::MalformedInput {
            error: ControlError::InputSizeExceedsBody { declared, .. },
            ..
        } => {
            lemma_integer_bytes(0, declared as u32);
        },
        ControlReport::Message { message_type, .. } => {
            lemma_integer_bytes(message_type.code(), 0);
        },
        _ => {},
    }
}

/// A packet that is neither an encrypted nor an input packet by its first two bytes,
/// and whose length is right, is a message of the kind that its code, least
/// significant byte first, stands for.
pub proof fn messages_are_read_by_their_bytes(data: &[u8], report: ControlReport)
    requires
        call_ensures(inspect_control_packet, (data,), report),
        4 <= data@.len(),
        !(data@[0] == 0x06 && data@[1] == 0x02),
        !(data@.len() >= 24 && data@[0] == 0x01 && data@[1] == 0x00),
        data@[3] * 256 + data@[2] == data@.len() - 4,
    ensures
        report matches ControlReport::Message { message_type, declared_len, body_len } && {
            let code = data@[1] * 256 + data@[0];
            &&& declared_len == data@.len() - 4
            &&& body_len == data@.len() - 4
            &&& message_type is StartA <==> code == 0x0305
            &&& message_type is StartB <==> code == 0x0307
            &&& message_type is InvalidateRefFrames <==> code == 0x0301
            &&& message_type is LossStats <==> code == 0x0201
            &&& message_type is FrameStats <==> code == 0x0204
            &&& message_type is InputData <==> code == 0x0206
            &&& message_type is Termination <==> code == 0x0100
            &&& message_type is PeriodicPing <==> code == 0x0200
            &&& message_type is IdrFrame <==> code == 0x0302
            &&& message_type is HdrMode <==> code == 0x010e
            &&& message_type is RumbleData <==> code == 0x010b
            &&& message_type is RumbleTriggers <==> code == 0x5500
            &&& message_type is MotionEvent <==> code == 0x5501
            &&& message_type is RgbLed <==> code == 0x5502
            &&& message_type matches ControlMessageType::Unknown(v) ==> v == code
        },
{
    lemma_packet_numbers(data@);
    match report {
        ControlReport::Message { message_type, .. } => {
            lemma_integer_bytes(message_type.code(), 0);
        },
        _ => {},
    }
}

/// An encrypted packet begins with 01 00 and a length that is right; then come the
/// sequence number, least significant byte first, a tag of sixteen bytes and the
/// payload.
pub proof fn encrypted_packets_are_read_by_their_bytes<'a>(
    data: &'a [u8],
    report: ControlReport,
    packet: Result<EncryptedControlPacket<'a>, ControlError>,
)
    requires
        call_ensures(inspect_control_packet, (data,), report),
        call_ensures(parse_encrypted_control_packet, (data,), packet),
        24 <= data@.len(),
        data@[0] == 0x01 && data@[1] == 0x00,
        data@[3] * 256 + data@[2] == data@.len() - 4,
    ensures
        ({
            let sequence = data@[7] * 0x100_0000 + data@[6] * 0x1_0000 + data@[5] * 256 + data@[4];
            &&& report == (ControlReport::Encrypted {
                sequence: sequence as u32,
                payload_len: (data@.len() - 24) as usize,
                tag_len: 16,
            })
            &&& packet matches Ok(p) && p.sequence == sequence && p.tag@ == data@.subrange(8, 24)
                && p.payload@ == data@.skip(24)
        }),
{
    lemma_packet_numbers(data@);
    match report {
        ControlReport::Encrypted { sequence, .. } => {
            lemma_integer_bytes(0, sequence);
        },
        _ => {},
    }
    match packet {
        Ok(p) => {
            lemma_integer_bytes(0, p.sequence);
            assert(data@.subrange(4, 8) =~= le32(p.sequence));
            assert(data@.subrange(8, 24) =~= p.tag@);
            assert(data@.skip(24) =~= p.payload@);
        },
        Err(_) => {},
    }
}

/// Bytes that are too few for their kind, or whose length is wrong, are no packet.
pub proof fn bytes_of_the_wrong_length_are_no_packet(data: &[u8], report: ControlReport)
    requires
        call_ensures(inspect_control_packet, (data,), report),
        data@.len() < 4 || data@[3] * 256 + data@[2] != data@.len() - 4,
    ensures
        report == (ControlReport::Unrecognized { len: data@.len() as usize }),
{
    if data@.len() >= 4 {
        lemma_packet_numbers(data@);
    }
}

proof fn lemma_packet_numbers(data: Seq<u8>)
    requires
        4 <= data.len(),
    ensures
        data.len() >= 24 && data[0] == 1 && data[1] == 0 && data[3] * 256 + data[2] == data.len() - 4
            <==> is_encrypted_packet(data),
        data[3] * 256 + data[2] == data.len() - 4 <==> is_control_payload(data),
        data.take(2)[0] == data[0] && data.take(2)[1] == data[1],
        data.len() >= 8 ==> data.subrange(4, 8)[0] == data[4] && data.subrange(4, 8)[1] == data[5]
            && data.subrange(4, 8)[2] == data[6] && data.subrange(4, 8)[3] == data[7],
        data.len() >= 12 ==> data.subrange(8, 12)[0] == data[8] && data.subrange(8, 12)[1] == data[9]
            && data.subrange(8, 12)[2] == data[10] && data.subrange(8, 12)[3] == data[11],
        le16(0x0206)[0] == 6 && le16(0x0206)[1] == 2,
{
    let part = data.subrange(2, 4);
    assert(part[0] == data[2] && part[1] == data[3]);
    if data.len() <= u16::MAX + 4 {
        let n = (data.len() - 4) as u16;
        lemma_integer_bytes(n, 0);
        if data[3] * 256 + data[2] == n {
            assert(part =~= le16(n));
        }
    }
    assert(data.take(2)[0] == data[0] && data.take(2)[1] == data[1]);
    if data[0] == 1 && data[1] == 0 {
        assert(data.take(2) =~= le16(ENCRYPTED_PACKET_TYPE));
    }
}

/// An input packet that ends before the code of its event is malformed.
pub proof fn short_input_packets_are_malformed(data: &[u8], report: ControlReport)
    requires
        call_ensures(inspect_control_packet, (data,), report),
        4 <= data@.len() < 12,
        data@[0] == 0x06 && data@[1] == 0x02,
        data@[3] * 256 + data@[2] == data@.len() - 4,
    ensures
        report == (ControlReport::MalformedInput {
            declared_len: (data@.len() - 4) as usize,
            error: ControlError::InputTooShort,
        }),
{
    lemma_packet_numbers(data@);
    match report {
        ControlReport::Message { message_type, .. } => {
            lemma_integer_bytes(message_type.code(), 0);
        },
        _ => {},
    }
}

/// The body of a decrypted packet is what follows its first four bytes.
pub proof fn bodies_follow_the_length<'a>(
    data: &'a [u8],
    payload: Result<ControlPayload<'a>, ControlError>,
)
    requires
        call_ensures(parse_control_payload, (data,), payload),
        4 <= data@.len(),
        data@[3] * 256 + data@[2] == data@.len() - 4,
    ensures
        payload matches Ok(p) && p.body@ == data@.skip(4) && p.declared_len == data@.len() - 4,
{
    lemma_packet_numbers(data@);
    match payload {
        Ok(p) => {
            assert(data@.skip(4) =~= p.body@);
        },
        Err(_) => {},
    }
}

/// The control channel has two channels for up to eight peers, and is looked at every ten
/// milliseconds; encrypted packets are of type one and carry tags of sixteen bytes.
pub proof fn the_channel_has_its_numbers()
    ensures
        CONTROL_CHANNELS == 2,
        CONTROL_PEERS == 8,
        CONTROL_POLL_INTERVAL_MS == 10,
        ENCRYPTED_PACKET_TYPE == 1,
        GCM_TAG_LEN == 16,
{
}

} // verus!
