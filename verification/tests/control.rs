use sunrise::control::{
    inspect_control_packet, parse_control_payload, parse_encrypted_control_packet,
    parse_input_data_header, ControlError, ControlMessageType, ControlReport, InputDataType,
    GCM_TAG_LEN,
};

#[test]
fn parses_encrypted_control_packet_envelope() {
    let mut packet = Vec::new();
    packet.extend_from_slice(&0x0001_u16.to_le_bytes());
    packet.extend_from_slice(&24_u16.to_le_bytes());
    packet.extend_from_slice(&42_u32.to_le_bytes());
    packet.extend_from_slice(&[0xab; GCM_TAG_LEN]);
    packet.extend_from_slice(&[0xcd; 4]);

    let parsed = parse_encrypted_control_packet(&packet).unwrap();

    assert_eq!(parsed.sequence, 42);
    assert_eq!(parsed.tag, &[0xab; GCM_TAG_LEN]);
    assert_eq!(parsed.payload, &[0xcd; 4]);
}

#[test]
fn rejects_encrypted_control_packet_length_mismatch() {
    let packet = [
        0x01, 0x00, // type
        0x08, 0x00, // wrong len
        0x01, 0x00, 0x00, 0x00, // seq
        0x00, 0x00, 0x00, 0x00, // partial tag
    ];

    assert!(parse_encrypted_control_packet(&packet).is_err());
}

#[test]
fn parses_decrypted_control_payload_header() {
    let payload = [
        0x06, 0x02, // INPUT_DATA
        0x08, 0x00, // body len
        0x00, 0x00, 0x00, 0x08, // input message size, big endian
        0x03, 0x00, 0x00, 0x00, // KEY_DOWN, little endian
    ];

    let parsed = parse_control_payload(&payload).unwrap();
    let input = parse_input_data_header(parsed.body).unwrap();

    assert_eq!(parsed.message_type, ControlMessageType::InputData);
    assert_eq!(parsed.declared_len, 8);
    assert_eq!(input.message_size, 8);
    assert_eq!(input.input_type, InputDataType::KeyDown);
}

#[test]
fn maps_common_input_data_types() {
    assert_eq!(
        InputDataType::from_wire(0x0000_0007),
        InputDataType::MouseMoveRel
    );
    assert_eq!(InputDataType::from_wire(0x0000_0004), InputDataType::KeyUp);
    assert_eq!(
        InputDataType::from_wire(0x5500_0004),
        InputDataType::ControllerArrival
    );
    assert_eq!(
        InputDataType::from_wire(0xdead_beef),
        InputDataType::Unknown(0xdead_beef)
    );
}

#[test]
fn tells_why_an_encrypted_packet_is_refused() {
    assert_eq!(
        parse_encrypted_control_packet(&[1, 0, 19, 0]).unwrap_err(),
        ControlError::EncryptedPacketTooShort
    );
    let mut packet = vec![0_u8; 28];
    packet[0] = 2;
    assert_eq!(
        parse_encrypted_control_packet(&packet).unwrap_err(),
        ControlError::UnsupportedPacketType(2)
    );
    packet[0] = 1;
    packet[2] = 23;
    assert_eq!(
        parse_encrypted_control_packet(&packet).unwrap_err(),
        ControlError::EncryptedLengthMismatch { declared: 23, actual: 24 }
    );
}

#[test]
fn tells_why_a_decrypted_packet_is_refused() {
    assert_eq!(
        parse_control_payload(&[1, 0, 0]).unwrap_err(),
        ControlError::PayloadTooShort
    );
    assert_eq!(
        parse_control_payload(&[1, 0, 2, 0, 9]).unwrap_err(),
        ControlError::PayloadLengthMismatch { declared: 2, actual: 1 }
    );
    assert_eq!(
        parse_input_data_header(&[0; 7]).unwrap_err(),
        ControlError::InputTooShort
    );
    assert_eq!(
        parse_input_data_header(&[0, 0, 0, 9, 3, 0, 0, 0]).unwrap_err(),
        ControlError::InputSizeExceedsBody { declared: 9, actual: 8 }
    );
}

#[test]
fn classifies_control_packets() {
    let mut encrypted = vec![1_u8, 0, 22, 0, 7, 0, 0, 0];
    encrypted.extend_from_slice(&[0; 16]);
    encrypted.extend_from_slice(&[5, 6]);
    assert_eq!(
        inspect_control_packet(&encrypted),
        ControlReport::Encrypted { sequence: 7, payload_len: 2, tag_len: 16 }
    );
    assert_eq!(
        inspect_control_packet(&[0x02, 0x03, 1, 0, 9]),
        ControlReport::Message {
            message_type: ControlMessageType::IdrFrame,
            declared_len: 1,
            body_len: 1,
        }
    );
    assert_eq!(
        inspect_control_packet(&[0x06, 0x02, 8, 0, 0, 0, 0, 8, 4, 0, 0, 0]),
        ControlReport::Input { message_size: 8, input_type: InputDataType::KeyUp }
    );
    assert_eq!(
        inspect_control_packet(&[0x06, 0x02, 1, 0, 0]),
        ControlReport::MalformedInput { declared_len: 1, error: ControlError::InputTooShort }
    );
    assert_eq!(
        inspect_control_packet(&[1, 2, 3]),
        ControlReport::Unrecognized { len: 3 }
    );
}

#[test]
fn every_message_code_has_its_kind() {
    let table = [
        (0x0305, ControlMessageType::StartA),
        (0x0307, ControlMessageType::StartB),
        (0x0301, ControlMessageType::InvalidateRefFrames),
        (0x0201, ControlMessageType::LossStats),
        (0x0204, ControlMessageType::FrameStats),
        (0x0206, ControlMessageType::InputData),
        (0x0100, ControlMessageType::Termination),
        (0x0200, ControlMessageType::PeriodicPing),
        (0x0302, ControlMessageType::IdrFrame),
        (0x010e, ControlMessageType::HdrMode),
        (0x010b, ControlMessageType::RumbleData),
        (0x5500, ControlMessageType::RumbleTriggers),
        (0x5501, ControlMessageType::MotionEvent),
        (0x5502, ControlMessageType::RgbLed),
        (0x1234, ControlMessageType::Unknown(0x1234)),
    ];
    for (code, kind) in table {
        assert_eq!(ControlMessageType::from_wire(code), kind);
    }
}
