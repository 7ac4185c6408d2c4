use executor::codec::{decode, encode};
use executor::error::RuntimeErrorType;
use executor::model::{MessageType, SystemCommand, SystemMessage};

fn round_trips(message: SystemMessage) {
    let encoded = encode(&message);
    let decoded = decode(&encoded).expect("an encoded envelope must decode");
    assert_eq!(message, decoded);
}

#[test]
fn round_trip_command_test() {
    round_trips(SystemMessage {
        from: String::from("arnold"),
        payload: None,
        correlation_id: None,
        command: Some(SystemCommand::Ping),
        message_type: MessageType::Command,
    });
}

#[test]
fn round_trip_full_test() {
    round_trips(SystemMessage {
        from: String::from("silvester"),
        payload: Some(vec![0, 1, 10, 92, 255, 10, 10]),
        correlation_id: Some(String::from("123")),
        command: Some(SystemCommand::Sequence(4294967295)),
        message_type: MessageType::Response,
    });
}

#[test]
fn round_trip_awkward_text_test() {
    round_trips(SystemMessage {
        from: String::from("a\\name\nwith breaks\\n"),
        payload: Some(Vec::new()),
        correlation_id: Some(String::from("\n\\\n")),
        command: Some(SystemCommand::Sequence(0)),
        message_type: MessageType::Request,
    });
}

#[test]
fn round_trip_unicode_test() {
    round_trips(SystemMessage {
        from: String::from("актер-žluťoučký-例"),
        payload: None,
        correlation_id: Some(String::from("корелација")),
        command: Some(SystemCommand::HealthCheck),
        message_type: MessageType::Command,
    });
}

#[test]
fn round_trip_every_command_test() {
    let commands = vec![
        SystemCommand::Ping,
        SystemCommand::Pong,
        SystemCommand::Ack,
        SystemCommand::NoAck,
        SystemCommand::HealthCheck,
        SystemCommand::Okay,
        SystemCommand::Failed,
        SystemCommand::Sequence(123),
    ];
    for command in commands {
        round_trips(SystemMessage {
            from: String::from("worker"),
            payload: None,
            correlation_id: None,
            command: Some(command),
            message_type: MessageType::Command,
        });
    }
}

#[test]
fn encoding_is_inspectable_test() {
    let message = SystemMessage {
        from: String::from("arnold"),
        payload: None,
        correlation_id: None,
        command: Some(SystemCommand::Ping),
        message_type: MessageType::Command,
    };
    let encoded = encode(&message);
    let text = String::from_utf8(encoded).expect("the encoding is text");
    assert_eq!("type=command\nfrom=arnold\ncorr=-\ncmd=ping\npayload=-\n", text);
}

#[test]
fn encoding_sequence_test() {
    let message = SystemMessage {
        from: String::from("b"),
        payload: Some(vec![104, 105]),
        correlation_id: Some(String::from("c1")),
        command: Some(SystemCommand::Sequence(123)),
        message_type: MessageType::Request,
    };
    let encoded = encode(&message);
    let text = String::from_utf8(encoded).expect("the encoding is text");
    assert_eq!("type=request\nfrom=b\ncorr=+c1\ncmd=seq:123\npayload=+hi\n", text);
}

#[test]
fn decode_empty_buffer_test() {
    let err = decode(&Vec::new()).expect_err("an empty buffer must be rejected");
    assert_eq!("binary.empty", err.message);
    assert_eq!(RuntimeErrorType::InvalidData, err.error_type);
}

#[test]
fn decode_garbage_test() {
    let err = decode(&vec![120, 120, 120, 120]).expect_err("garbage must be rejected");
    assert_eq!("invalid.message", err.message);
    assert_eq!(RuntimeErrorType::InvalidData, err.error_type);

    let truncated = "type=command\nfrom=a\n".as_bytes().to_vec();
    assert!(decode(&truncated).is_err());

    let wrong_tag = "kind=command\nfrom=a\ncorr=-\ncmd=ping\npayload=-\n".as_bytes().to_vec();
    assert!(decode(&wrong_tag).is_err());

    let trailing = "type=command\nfrom=a\ncorr=-\ncmd=ping\npayload=-\nmore".as_bytes().to_vec();
    assert!(decode(&trailing).is_err());

    let bad_number = "type=command\nfrom=a\ncorr=-\ncmd=seq:99999999999\npayload=-\n"
        .as_bytes()
        .to_vec();
    assert!(decode(&bad_number).is_err());
}

#[test]
fn decode_accepts_plain_text_form_test() {
    let buffer = "type=command\nfrom=eve\ncorr=+tag\ncmd=ack\npayload=+ok\n".as_bytes().to_vec();
    let message = decode(&buffer).expect("a well formed buffer decodes");
    assert_eq!("eve", message.from);
    assert_eq!(Some(String::from("tag")), message.correlation_id);
    assert_eq!(Some(SystemCommand::Ack), message.command);
    assert_eq!(Some(vec![111, 107]), message.payload);
    assert!(matches!(message.message_type, MessageType::Command));
}
