use babel_kad::codec::WireError;
use babel_kad::control::decode_frame;
use babel_kad::control::BabelMessage;
use babel_kad::control::ControlMessage;
use babel_kad::control::Handshake;
use babel_kad::control::InvalidAttribute;
use babel_kad::control::Message;
use babel_kad::control::CONTROL_MAGIC_NUMBER;
use babel_kad::frame::Decoder;
use babel_kad::frame::Encoder;
use babel_kad::frame::Frame;
use babel_kad::frame::MessageCode;
use babel_kad::frame::State;
use babel_kad::props::Properties;
use babel_kad::protocol::ProtocolID;
use babel_kad::protocol::ProtocolMessageID;

fn app_message(payload: Vec<u8>) -> BabelMessage {
    BabelMessage {
        source_protocol: ProtocolID::new(100),
        target_protocol: ProtocolID::new(-2),
        message_id: ProtocolMessageID::new(105),
        message: payload,
    }
}

#[test]
fn message_code_values() {
    assert_eq!(MessageCode::Control.to_i8(), 0);
    assert_eq!(MessageCode::Application.to_i8(), 1);
    assert_eq!(MessageCode::from_i8(0), Some(MessageCode::Control));
    assert_eq!(MessageCode::from_i8(1), Some(MessageCode::Application));
    assert_eq!(MessageCode::from_i8(2), None);
    assert_eq!(MessageCode::from_i8(-1), None);
}

#[test]
fn frame_layout_is_length_code_payload() {
    let mut enc = Encoder::new(());
    enc.write(MessageCode::Application, &vec![0xaa, 0xbb, 0xcc]).unwrap();
    assert_eq!(enc.bytes(), &vec![0, 0, 0, 4, 1, 0xaa, 0xbb, 0xcc]);
    enc.write(MessageCode::Control, &vec![]).unwrap();
    assert_eq!(enc.bytes(), &vec![0, 0, 0, 1, 0]);
    enc.into_inner();
}

#[test]
fn heartbeat_frame_bytes() {
    let mut enc = Encoder::new(5u8);
    enc.control(&ControlMessage::Heartbeat).unwrap();
    assert_eq!(enc.bytes(), &vec![0, 0, 0, 5, 0, 0, 0, 0, 0]);
    assert_eq!(*enc.get_mut(), 5);
    assert_eq!(enc.into_inner(), 5);
}

#[test]
fn application_frame_bytes() {
    let mut enc = Encoder::new(());
    enc.application(&app_message(vec![9, 8])).unwrap();
    assert_eq!(enc.bytes(), &vec![0, 0, 0, 9, 1, 0, 100, 0xff, 0xfe, 0, 105, 9, 8]);
    enc.encode(&Message::Application(app_message(vec![]))).unwrap();
    assert_eq!(enc.bytes(), &vec![0, 0, 0, 7, 1, 0, 100, 0xff, 0xfe, 0, 105]);
}

#[test]
fn decoder_yields_frame_fed_whole() {
    let mut dec = Decoder::new(());
    let input = vec![0, 0, 0, 4, 1, 0xaa, 0xbb, 0xcc, 0, 0];
    let got = dec.feed(&input, 0).unwrap();
    assert_eq!(got.used, 8);
    let frame = got.frame.unwrap();
    assert_eq!(frame.code, MessageCode::Application);
    assert_eq!(frame.payload, vec![0xaa, 0xbb, 0xcc]);
    assert_eq!(dec.state(), State::ReadingSize { read: 0 });
    let rest = dec.feed(&input, 8).unwrap();
    assert_eq!(rest.used, 2);
    assert!(rest.frame.is_none());
    assert_eq!(dec.state(), State::ReadingSize { read: 2 });
}

#[test]
fn decoder_is_robust_to_one_byte_fragments() {
    let mut props = Properties::new();
    props.insert_i16("magic_number", 0x4505);
    props.insert("listen_address", vec![127, 0, 0, 1, 0x1f, 0x90]);
    let mut enc = Encoder::new(());
    enc.control(&ControlMessage::FirstHandshake(Handshake::new(props))).unwrap();
    let bytes = enc.bytes().clone();

    let mut whole = Decoder::new(());
    let all = whole.decode(&bytes, 0).unwrap();
    assert_eq!(all.used, bytes.len());
    let expected = match all.message.unwrap() {
        Message::Control(ControlMessage::FirstHandshake(h)) => h,
        other => panic!("unexpected message {:?}", other),
    };

    let mut dec = Decoder::new(());
    let mut result = None;
    for (i, b) in bytes.iter().enumerate() {
        let step = dec.decode(&vec![*b], 0).unwrap();
        assert_eq!(step.used, 1);
        if i + 1 < bytes.len() {
            assert!(step.message.is_none());
            let expected_state = if i + 1 < 4 {
                State::ReadingSize { read: i + 1 }
            } else if i + 1 == 4 {
                State::ReadingCode
            } else {
                State::ReadingPayload { read: i + 1 - 5, code: MessageCode::Control }
            };
            assert_eq!(dec.state(), expected_state);
        } else {
            result = step.message;
        }
    }
    match result.unwrap() {
        Message::Control(ControlMessage::FirstHandshake(h)) => {
            assert_eq!(h.magic_number, expected.magic_number);
            assert_eq!(h.magic_number, CONTROL_MAGIC_NUMBER);
            assert_eq!(h.properties.len(), 2);
            assert_eq!(h.properties.get("magic_number"), expected.properties.get("magic_number"));
            assert_eq!(h.properties.get_i16("magic_number").unwrap().unwrap(), 0x4505);
            assert_eq!(
                h.properties.get("listen_address").unwrap(),
                &vec![127, 0, 0, 1, 0x1f, 0x90]
            );
        }
        other => panic!("unexpected message {:?}", other),
    }
    assert_eq!(dec.state(), State::ReadingSize { read: 0 });
}

#[test]
fn decoder_reads_consecutive_frames_from_one_buffer() {
    let mut enc = Encoder::new(());
    let mut stream = Vec::new();
    enc.application(&app_message(vec![1])).unwrap();
    stream.extend_from_slice(enc.bytes());
    enc.control(&ControlMessage::Heartbeat).unwrap();
    stream.extend_from_slice(enc.bytes());
    let mut dec = Decoder::new(());
    let first = dec.decode(&stream, 0).unwrap();
    assert_eq!(first.used, 12);
    match first.message.unwrap() {
        Message::Application(m) => {
            assert_eq!(m.source_protocol, ProtocolID::new(100));
            assert_eq!(m.target_protocol, ProtocolID::new(-2));
            assert_eq!(m.message_id, ProtocolMessageID::new(105));
            assert_eq!(m.message, vec![1]);
        }
        other => panic!("unexpected message {:?}", other),
    }
    let second = dec.decode(&stream, first.used).unwrap();
    assert_eq!(second.used, 9);
    assert!(matches!(second.message, Some(Message::Control(ControlMessage::Heartbeat))));
}

#[test]
fn decoder_rejects_bad_length_and_unknown_code() {
    let mut dec = Decoder::new(());
    assert_eq!(dec.feed(&vec![0, 0, 0, 0, 1], 0).unwrap_err(), WireError::BadLength);
    let mut dec = Decoder::new(());
    assert_eq!(dec.feed(&vec![0xff, 0xff, 0xff, 0xff], 0).unwrap_err(), WireError::BadLength);
    let mut dec = Decoder::new(());
    assert_eq!(dec.feed(&vec![0, 0, 0, 2, 7, 0], 0).unwrap_err(), WireError::UnknownCode);
}

#[test]
fn decode_frame_reports_truncated_and_unknown_payloads() {
    let short = Frame { code: MessageCode::Application, payload: vec![0, 1, 0, 2, 0] };
    assert_eq!(decode_frame(&short).unwrap_err(), WireError::Truncated);
    let opcode = Frame { code: MessageCode::Control, payload: vec![0, 0, 0, 9] };
    assert_eq!(decode_frame(&opcode).unwrap_err(), WireError::UnknownOpcode);
    let cut = Frame { code: MessageCode::Control, payload: vec![0, 0, 0, 1, 0x79, 0x67] };
    assert_eq!(decode_frame(&cut).unwrap_err(), WireError::Truncated);
    let empty = Frame { code: MessageCode::Control, payload: vec![] };
    assert_eq!(decode_frame(&empty).unwrap_err(), WireError::Truncated);
}

#[test]
fn control_messages_round_trip() {
    let mut buf = Vec::new();
    ControlMessage::InvalidAttribute(InvalidAttribute { magic_number: -7 }).serialize(&mut buf).unwrap();
    assert_eq!(buf, vec![0, 0, 0, 3, 0xff, 0xff, 0xff, 0xf9]);
    match ControlMessage::deserialize(&buf).unwrap() {
        ControlMessage::InvalidAttribute(a) => assert_eq!(a.magic_number, -7),
        other => panic!("unexpected message {:?}", other),
    }
    let mut buf = Vec::new();
    let hs = ControlMessage::SecondHandshake(Handshake::new(Properties::new()));
    assert_eq!(hs.opcode(), 2);
    hs.serialize(&mut buf).unwrap();
    assert_eq!(buf, vec![0, 0, 0, 2, 0x79, 0x67, 0x64, 0x72, 0, 0, 0, 0]);
    match ControlMessage::deserialize(&buf).unwrap() {
        ControlMessage::SecondHandshake(h) => {
            assert_eq!(h.magic_number, 0x79676472);
            assert_eq!(h.properties.len(), 0);
        }
        other => panic!("unexpected message {:?}", other),
    }
    assert_eq!(ControlMessage::Heartbeat.opcode(), 0);
    assert!(matches!(
        ControlMessage::deserialize(&vec![0, 0, 0, 0]).unwrap(),
        ControlMessage::Heartbeat
    ));
}

#[test]
fn babel_message_round_trip() {
    let mut buf = Vec::new();
    app_message(vec![]).serialize(&mut buf);
    assert_eq!(buf, vec![0, 100, 0xff, 0xfe, 0, 105]);
    let back = BabelMessage::deserialize(&buf).unwrap();
    assert_eq!(back.source_protocol.value(), 100);
    assert_eq!(back.target_protocol.value(), -2);
    assert_eq!(back.message_id.value(), 105);
    assert!(back.message.is_empty());
}

#[test]
fn decoder_keeps_its_source() {
    let mut dec = Decoder::new(String::from("socket"));
    dec.get_mut().push('!');
    assert_eq!(dec.into_inner(), "socket!");
}

#[test]
fn payload_longer_than_length_field_is_refused() {
    let payload = vec![0u8; i32::MAX as usize];
    let mut enc = Encoder::new(());
    assert_eq!(enc.write(MessageCode::Application, &payload).unwrap_err(), WireError::TooLong);
    assert!(enc.bytes().is_empty());
}
