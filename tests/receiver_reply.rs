use dc09::ack_message::AckMessage;
use dc09::checksum::calculate_crc;
use dc09::message::{DC09Message, Timestamp};
use dc09::parser::{parse_dc09, DC09Error};
use dc09::receiver::{build_reply, create_server_config, process_bytes, FrameOutcome};
use dc09::scenarios::{DiallerConfig, Scenarios};

fn frame_of(body: &str) -> String {
    format!("\n{:04X}{:04X}{}\r", calculate_crc(body), body.len(), body)
}

fn at() -> Timestamp {
    Timestamp { year: 2025, month: 9, day: 24, hour: 16, minute: 20, second: 1 }
}

#[test]
fn ack_message_writes_its_fields_verbatim() {
    let ack = AckMessage::new_at(7, Some("R1"), None, "1234", at());
    assert_eq!(ack.account, "#1234");
    assert_eq!(ack.timestamp, "_16:20:01,09-24-2025");
    assert_eq!(ack.to_string(), frame_of("\"ACK\"0007R1#1234[]_16:20:01,09-24-2025"));
    let parsed = parse_dc09(&ack.to_string(), None).unwrap();
    assert_eq!(parsed.token, "ACK");
    assert_eq!(parsed.validate("1234", 7), Ok(()));
    let now = AckMessage::new(1, None, Some("L2"), "9");
    assert!(now.timestamp.starts_with('_'));
    assert_eq!(now.timestamp.len(), 20);
}

#[test]
fn error_messages_describe_each_error() {
    assert_eq!(DC09Error::ParseHeaderError.message(), "failed to parse DC09 message header");
    assert_eq!(DC09Error::ParsePayloadError.message(), "failed to parse DC09 message payload");
    assert_eq!(DC09Error::DecryptError.message(), "failed to decrypt DC09 message");
    assert_eq!(DC09Error::InvalidLength.message(), "invalid DC09 message length");
    assert_eq!(DC09Error::InvalidCrc.message(), "invalid DC09 message CRC");
    assert_eq!(DC09Error::InvalidSequenceNumber.message(), "invalid sequence number");
    assert_eq!(DC09Error::InvalidAccountNumber.message(), "invalid account number");
}

fn configured() -> Scenarios {
    let mut d = DiallerConfig::new("500".to_owned(), 1, false, 2);
    d.key = Some("0123456789abcdef".to_owned());
    Scenarios { diallers: vec![d], scenarios: vec![] }
}

#[test]
fn server_config_is_built_from_file_and_default_key() {
    let s = configured();
    let config = create_server_config(Some(&s), Some("ffffffffffffffffffffffff"), true);
    assert!(config.send_naks);
    let names: Vec<&str> = config.diallers.iter().map(|(n, _)| n.as_str()).collect();
    assert_eq!(names, vec!["500", "501"]);
    assert_eq!(config.keys.len(), 2);
    let bare = create_server_config(None, None, false);
    assert!(bare.diallers.is_empty() && bare.keys.is_empty() && !bare.send_naks);
}

#[test]
fn reply_uses_the_key_of_the_sending_account() {
    let s = configured();
    let config = create_server_config(Some(&s), Some("ffffffffffffffffffffffff"), false);
    let request = DC09Message::new("*SIA-DCS".to_owned(), "501".to_owned(), 12, Some("#501|NRR".to_owned()));
    let frame = request.to_encrypted("0123456789abcdef").unwrap();
    let reply = build_reply(&frame, &config).unwrap();
    let ack = parse_dc09(&reply, Some("0123456789abcdef")).unwrap();
    assert_eq!(ack.token, "*ACK");
    assert_eq!(ack.validate("501", 12), Ok(()));
}

#[test]
fn reply_to_unknown_account_uses_default_key() {
    let s = configured();
    let config = create_server_config(Some(&s), Some("ffffffffffffffffffffffff"), true);
    let request = DC09Message::new("SIA-DCS".to_owned(), "777".to_owned(), 3, None);
    let reply = build_reply(&request.to_string(), &config).unwrap();
    let nak = parse_dc09(&reply, None).unwrap();
    assert_eq!(nak.token, "NAK");
    assert_eq!(nak.validate("777", 3), Ok(()));
    let wrong_key = DC09Message::new("*SIA-DCS".to_owned(), "777".to_owned(), 3, Some("x".to_owned()))
        .to_encrypted("0123456789abcdef")
        .unwrap();
    assert_eq!(build_reply(&wrong_key, &config), Err(DC09Error::DecryptError));
}

#[test]
fn malformed_frame_gets_no_reply() {
    let config = create_server_config(None, None, false);
    assert_eq!(build_reply("\n96ED0016\"SIA-DCS\"0001L0#1234[]X\r", &config), Err(DC09Error::InvalidLength));
    assert_eq!(build_reply("nonsense", &config), Err(DC09Error::ParseHeaderError));
}

#[test]
fn bytes_must_be_text_before_they_are_parsed() {
    let config = create_server_config(None, None, false);
    assert!(matches!(process_bytes(&[0xFF, 0xFE, 0x00], &config), FrameOutcome::NotText));
    assert!(matches!(process_bytes(b"junk", &config), FrameOutcome::Rejected(DC09Error::ParseHeaderError)));
    let frame = DC09Message::new("SIA-DCS".to_owned(), "1234".to_owned(), 8, None).to_string();
    match process_bytes(frame.as_bytes(), &config) {
        FrameOutcome::Reply(r) => assert_eq!(parse_dc09(&r, None).unwrap().validate("1234", 8), Ok(())),
        _ => panic!("a valid frame gets a reply"),
    }
}
