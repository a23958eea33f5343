use dc09::checksum::calculate_crc;
use dc09::crypto::{decrypt, encrypt};
use dc09::message::{DC09Message, Timestamp};
use dc09::parser::{parse_dc09, parse_dc09_account_name, remove_padding, validate, DC09Error};

fn frame_of(body: &str) -> String {
    format!("\n{:04X}{:04X}{}\r", calculate_crc(body), body.len(), body)
}

#[test]
fn crc_of_standard_check_string() {
    assert_eq!(calculate_crc("123456789"), 0xBB3D);
    assert_eq!(calculate_crc("\"SIA-DCS\"0001L0#1234[]"), 0x96ED);
    assert_eq!(calculate_crc(""), 0);
}

#[test]
fn empty_payload_serializes_exactly() {
    let msg = DC09Message::new("SIA-DCS".to_owned(), "1234".to_owned(), 1, None).with_line_prefix(Some("L0".to_owned()));
    assert_eq!(msg.to_string(), "\n96ED0016\"SIA-DCS\"0001L0#1234[]\r");
}

#[test]
fn missing_line_prefix_is_written_as_l0() {
    let msg = DC09Message::new("SIA-DCS".to_owned(), "1234".to_owned(), 1, None);
    assert_eq!(msg.to_string(), "\n96ED0016\"SIA-DCS\"0001L0#1234[]\r");
    let parsed = parse_dc09(&msg.to_string(), None).unwrap();
    assert_eq!(parsed.line_prefix.as_deref(), Some("L0"));
}

#[test]
fn full_payload_parses_back_field_by_field() {
    let parsed = parse_dc09("\nF4D20029\"SIA-DCS\"0001RF3L77#1234[#1234|NRR|Atest]\r", None).unwrap();
    assert_eq!(parsed.token, "SIA-DCS");
    assert_eq!(parsed.sequence, 1);
    assert_eq!(parsed.receiver.as_deref(), Some("RF3"));
    assert_eq!(parsed.line_prefix.as_deref(), Some("L77"));
    assert_eq!(parsed.account, "1234");
    assert_eq!(parsed.data.as_deref(), Some("#1234|NRR|Atest"));
    assert!(parsed.extended.is_empty());
    assert_eq!(parsed.timestamp, None);
}

#[test]
fn nak_parse_gives_sequence_zero() {
    let parsed = parse_dc09("\nE4410025\"NAK\"0000R0L0A0[]_16:20:01,09-24-2025\r", None).unwrap();
    assert_eq!(parsed.sequence, 0);
    assert_eq!(parsed.receiver.as_deref(), Some("R0"));
    assert_eq!(parsed.line_prefix.as_deref(), Some("L0"));
    assert_eq!(parsed.data, None);
    assert_eq!(parsed.timestamp.as_deref(), Some("16:20:01,09-24-2025"));
}

#[test]
fn clear_round_trip_with_extended_and_timestamp() {
    let mut msg = DC09Message::new("SIA-DCS".to_owned(), "77AB".to_owned(), 9999, Some("#77AB|NBA1".to_owned()))
        .with_receiver(Some("R12".to_owned()))
        .with_line_prefix(Some("L3".to_owned()));
    msg.extended = vec!["X1".to_owned(), "".to_owned(), "Hab[c".to_owned()];
    msg.timestamp = Some("10:00:00,01-02-2025".to_owned());
    let frame = msg.to_string();
    assert_eq!(parse_dc09(&frame, None).unwrap(), msg);
}

#[test]
fn extended_segments_are_serialized_in_order() {
    let mut msg = DC09Message::new("SIA-DCS".to_owned(), "1".to_owned(), 2, None).with_line_prefix(Some("L0".to_owned()));
    msg.extended = vec!["a".to_owned(), "b".to_owned()];
    assert_eq!(msg.get_payload(), "[][a][b]");
    assert_eq!(msg.to_string(), frame_of("\"SIA-DCS\"0002L0#1[][a][b]"));
}

#[test]
fn encrypted_round_trip_with_each_key_length() {
    for key in ["0123456789abcdef", "0123456789abcdef01234567", "0123456789abcdef0123456789abcdef"] {
        let msg = DC09Message::new("SIA-DCS".to_owned(), "1234".to_owned(), 42, Some("#1234|NRR|Atest".to_owned()))
            .with_line_prefix(Some("L5".to_owned()));
        let frame = msg.to_encrypted(key).unwrap();
        assert!(frame.contains("\"*SIA-DCS\"0042L5#1234["));
        assert!(!frame.contains(']'));
        let parsed = parse_dc09(&frame, Some(key)).unwrap();
        assert_eq!(parsed.token, "*SIA-DCS");
        assert_eq!(parsed.data.as_deref(), Some("#1234|NRR|Atest"));
        assert_eq!(parsed.account, "1234");
        assert_eq!(parsed.sequence, 42);
        assert_eq!(parsed.line_prefix.as_deref(), Some("L5"));
    }
}

#[test]
fn encrypted_frame_is_upper_hex_of_whole_blocks() {
    let key = "aaaaaaaaaaaaaaaabbbbbbbbbbbbbbbb";
    let msg = DC09Message::new("*SIA-DCS".to_owned(), "1234".to_owned(), 1, Some("#1234|NRR|Atest".to_owned()));
    let frame = msg.to_encrypted(key).unwrap();
    let start = frame.find('[').unwrap() + 1;
    let hex = &frame[start..frame.len() - 1];
    assert_eq!(hex.len() % 32, 0);
    assert!(hex.chars().all(|c| c.is_ascii_digit() || ('A'..='F').contains(&c)));
}

#[test]
fn encryption_rejects_bad_key_length() {
    let msg = DC09Message::new("SIA-DCS".to_owned(), "1234".to_owned(), 1, Some("x".to_owned()));
    assert_eq!(msg.to_encrypted("short"), None);
    assert_eq!(encrypt("abc", b"0123456789"), None);
}

#[test]
fn encrypt_then_decrypt_keeps_message_after_padding() {
    let key = b"0123456789abcdef";
    for message in ["", "a", "|exactly16bytes|", "some longer text that spans blocks"] {
        let hex = encrypt(message, key).unwrap();
        let plain = decrypt(&hex, key).unwrap();
        assert_eq!(plain.len() % 16, 0);
        let pad = plain.len() - message.len();
        assert!((1..=16).contains(&pad));
        assert!(plain[..pad].chars().all(|c| c.is_ascii_alphanumeric()));
        assert_eq!(&plain[pad..], message);
    }
}

#[test]
fn decrypt_rejects_bad_input() {
    let key = b"0123456789abcdef";
    assert_eq!(decrypt("ABC", key), None);
    assert_eq!(decrypt("ZZ", key), None);
    assert_eq!(decrypt("00112233", key), None);
    assert_eq!(decrypt("00112233445566778899AABBCCDDEEFF", b"bad"), None);
}

#[test]
fn remove_padding_takes_text_after_first_bar() {
    assert_eq!(remove_padding("Xy1|#1234|NRR"), "#1234|NRR");
    assert_eq!(remove_padding("no bar"), "no bar");
    assert_eq!(remove_padding("|"), "");
}

#[test]
fn header_error_on_garbage() {
    assert_eq!(parse_dc09("hello", None), Err(DC09Error::ParseHeaderError));
    assert_eq!(parse_dc09("", None), Err(DC09Error::ParseHeaderError));
    assert_eq!(parse_dc09("\n96ED0016\"SIA-DCS\"0001L0[]\r", None), Err(DC09Error::ParseHeaderError));
}

#[test]
fn length_error_when_body_grows_or_shrinks() {
    assert_eq!(parse_dc09("\n96ED0016\"SIA-DCS\"0001L0#1234[]X\r", None), Err(DC09Error::InvalidLength));
    assert_eq!(parse_dc09("\n96ED0016\"SIA-DCS\"0001L0#1234[\r", None), Err(DC09Error::InvalidLength));
}

#[test]
fn crc_error_on_any_flipped_payload_byte_or_crc_digit() {
    let frame = "\nF4D20029\"SIA-DCS\"0001RF3L77#1234[#1234|NRR|Atest]\r";
    let start = frame.find('[').unwrap() + 1;
    let end = frame.len() - 2;
    for i in start..end {
        let mut bytes = frame.as_bytes().to_vec();
        bytes[i] = if bytes[i] == b'Q' { b'W' } else { b'Q' };
        let tampered = String::from_utf8(bytes).unwrap();
        assert_eq!(parse_dc09(&tampered, None), Err(DC09Error::InvalidCrc));
    }
    for i in 1..5 {
        let mut bytes = frame.as_bytes().to_vec();
        bytes[i] = if bytes[i] == b'0' { b'1' } else { b'0' };
        let tampered = String::from_utf8(bytes).unwrap();
        assert_eq!(parse_dc09(&tampered, None), Err(DC09Error::InvalidCrc));
    }
}

#[test]
fn payload_error_without_closing_bracket() {
    let frame = frame_of("\"SIA-DCS\"0001L0#1234[abc");
    assert_eq!(parse_dc09(&frame, None), Err(DC09Error::ParsePayloadError));
}

#[test]
fn decrypt_error_without_key_or_with_wrong_data() {
    let key = "aaaaaaaaaaaaaaaabbbbbbbbbbbbbbbb";
    let msg = DC09Message::new("*SIA-DCS".to_owned(), "1234".to_owned(), 1, Some("#1234|NRR|Atest".to_owned()));
    let frame = msg.to_encrypted(key).unwrap();
    assert_eq!(parse_dc09(&frame, None), Err(DC09Error::DecryptError));
    let not_hex = frame_of("\"*SIA-DCS\"0001L0#1234[XYZ");
    assert_eq!(parse_dc09(&not_hex, Some(key)), Err(DC09Error::DecryptError));
}

#[test]
fn validate_checks_length_then_crc() {
    let frame = "\n96ED0016\"SIA-DCS\"0001L0#1234[]\r";
    assert_eq!(validate(frame, 0x16, 0x96ED), Ok(()));
    assert_eq!(validate(frame, 0x17, 0x96ED), Err(DC09Error::InvalidLength));
    assert_eq!(validate(frame, 0x16, 0x96EE), Err(DC09Error::InvalidCrc));
    assert_eq!(validate("short", 0, 0), Err(DC09Error::InvalidLength));
}

#[test]
fn message_validate_checks_sequence_then_account() {
    let msg = DC09Message::new("ACK".to_owned(), "1234".to_owned(), 5, None);
    assert_eq!(msg.validate("1234", 5), Ok(()));
    assert_eq!(msg.validate("9999", 5), Err(DC09Error::InvalidAccountNumber));
    assert_eq!(msg.validate("9999", 6), Err(DC09Error::InvalidSequenceNumber));
}

#[test]
fn setters_ignore_values_without_their_letter() {
    let msg = DC09Message::new("SIA-DCS".to_owned(), "1".to_owned(), 1, None)
        .with_receiver(Some("F3".to_owned()))
        .with_line_prefix(Some("77".to_owned()));
    assert_eq!(msg.receiver, None);
    assert_eq!(msg.line_prefix, None);
    let msg = msg.with_receiver(Some("R1".to_owned())).with_receiver(Some("x".to_owned())).with_receiver(None);
    assert_eq!(msg.receiver.as_deref(), Some("R1"));
}

#[test]
fn was_encrypted_follows_the_star() {
    assert!(DC09Message::new("*SIA-DCS".to_owned(), "1".to_owned(), 1, None).was_encrypted());
    assert!(!DC09Message::new("SIA-DCS".to_owned(), "1".to_owned(), 1, None).was_encrypted());
    assert!(!DC09Message::new("".to_owned(), "1".to_owned(), 1, None).was_encrypted());
}

#[test]
fn account_name_is_read_from_the_clear_header() {
    assert_eq!(parse_dc09_account_name("\n00000000\"*SIA-DCS\"0001L0#5678[ABCD\r").unwrap(), "5678");
    assert_eq!(parse_dc09_account_name("junk"), Err(DC09Error::ParseHeaderError));
}

#[test]
fn timestamp_is_formatted_in_dc09_form() {
    let t = Timestamp { year: 2025, month: 9, day: 24, hour: 16, minute: 20, second: 1 };
    assert_eq!(t.format(), "16:20:01,09-24-2025");
    let msg = DC09Message::new("ACK".to_owned(), "A0".to_owned(), 0, None).with_timestamp(t);
    assert_eq!(msg.timestamp.as_deref(), Some("16:20:01,09-24-2025"));
    let now = Timestamp::now();
    assert_eq!(now.format().len(), 19);
}

#[test]
fn timestamp_years_keep_at_least_four_digits() {
    let t = Timestamp { year: -44, month: 3, day: 15, hour: 0, minute: 0, second: 0 };
    assert_eq!(t.format(), "00:00:00,03-15--0044");
    let t = Timestamp { year: 12345, month: 12, day: 31, hour: 23, minute: 59, second: 59 };
    assert_eq!(t.format(), "23:59:59,12-31-12345");
    let t = Timestamp { year: 7, month: 1, day: 2, hour: 3, minute: 4, second: 5 };
    assert_eq!(t.format(), "03:04:05,01-02-0007");
}

#[test]
fn encrypted_message_without_data_round_trips() {
    let key = "aaaaaaaaaaaaaaaabbbbbbbbbbbbbbbb";
    let msg = DC09Message::new("*NULL".to_owned(), "1234".to_owned(), 3, None).with_line_prefix(Some("L0".to_owned()));
    for _ in 0..20 {
        let frame = msg.to_encrypted(key).unwrap();
        assert_eq!(parse_dc09(&frame, Some(key)).unwrap(), msg);
    }
    let mut stamped = DC09Message::new("*ACK".to_owned(), "1234".to_owned(), 3, None).with_line_prefix(Some("L0".to_owned()));
    stamped.timestamp = Some("16:20:01,09-24-2025".to_owned());
    let frame = stamped.to_encrypted(key).unwrap();
    assert_eq!(parse_dc09(&frame, Some(key)).unwrap(), stamped);
}

#[test]
fn decrypted_data_that_is_empty_after_padding_is_none() {
    let key = "0123456789abcdef";
    let hex = dc09::crypto::encrypt_padded("A|]AAAAAAAAAAAAA", key.as_bytes()).unwrap();
    let frame = frame_of(&format!("\"*SIA-DCS\"0001L0#1234[{}", hex));
    let parsed = parse_dc09(&frame, Some(key)).unwrap();
    assert_eq!(parsed.data, None);
    let hex = dc09::crypto::encrypt_padded("Ab]AAAAAAAAAAAAA", key.as_bytes()).unwrap();
    let frame = frame_of(&format!("\"*SIA-DCS\"0001L0#1234[{}", hex));
    assert_eq!(parse_dc09(&frame, Some(key)).unwrap().data, None);
}
