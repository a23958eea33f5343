use dc09::checksum::calculate_crc;
use dc09::dialler::{Dialler, SignalMap};
use dc09::message::{DC09Message, Timestamp};
use dc09::parser::{parse_dc09, DC09Error};
use dc09::receiver::{build_response_at, build_response_message};
use dc09::scenarios::{DiallerConfig, ScenarioConfig, Scenarios, SignalConfig};
use dc09::setup::{build_diallers, build_signals_map, create_diallers, setup_message_queues};
use dc09::utils::build_keys_map;
use std::collections::HashMap;

fn at() -> Timestamp {
    Timestamp { year: 2025, month: 9, day: 24, hour: 16, minute: 20, second: 1 }
}

fn frame_of(body: &str) -> String {
    format!("\n{:04X}{:04X}{}\r", calculate_crc(body), body.len(), body)
}

#[test]
fn ack_echoes_account_sequence_receiver_and_prefix() {
    let request = parse_dc09("\nF4D20029\"SIA-DCS\"0001RF3L77#1234[#1234|NRR|Atest]\r", None).unwrap();
    let response = build_response_at(request, None, false, at());
    assert_eq!(response, frame_of("\"ACK\"0001RF3L77#1234[]_16:20:01,09-24-2025"));
}

#[test]
fn nak_echoes_request_when_asked_for() {
    let request = parse_dc09("\n96ED0016\"SIA-DCS\"0001L0#1234[]\r", None).unwrap();
    let response = build_response_at(request, None, true, at());
    assert_eq!(response, frame_of("\"NAK\"0001L0#1234[]_16:20:01,09-24-2025"));
    let parsed = parse_dc09(&response, None).unwrap();
    assert_eq!(parsed.token, "NAK");
    assert_eq!(parsed.validate("1234", 1), Ok(()));
}

#[test]
fn encrypted_request_gets_encrypted_response() {
    let key = "aaaaaaaaaaaaaaaabbbbbbbbbbbbbbbb";
    let request = DC09Message::new("*SIA-DCS".to_owned(), "1234".to_owned(), 7, Some("#1234|NRR|Atest".to_owned()))
        .with_line_prefix(Some("L0".to_owned()));
    let frame = request.to_encrypted(key).unwrap();
    let parsed = parse_dc09(&frame, Some(key)).unwrap();
    let response = build_response_message(parsed, Some(key), false);
    assert!(response.contains("\"*ACK\"0007L0#1234["));
    let ack = parse_dc09(&response, Some(key)).unwrap();
    assert_eq!(ack.token, "*ACK");
    assert_eq!(ack.validate("1234", 7), Ok(()));
    let clear = parse_dc09(&response, None);
    assert_eq!(clear, Err(DC09Error::DecryptError));
}

#[test]
fn two_requests_get_their_own_responses() {
    let first = parse_dc09(&DC09Message::new("SIA-DCS".to_owned(), "1111".to_owned(), 3, None).to_string(), None).unwrap();
    let second = parse_dc09(&DC09Message::new("SIA-DCS".to_owned(), "2222".to_owned(), 9, None).to_string(), None).unwrap();
    let a = parse_dc09(&build_response_at(first, None, false, at()), None).unwrap();
    let b = parse_dc09(&build_response_at(second, None, false, at()), None).unwrap();
    assert_eq!((a.account.as_str(), a.sequence), ("1111", 3));
    assert_eq!((b.account.as_str(), b.sequence), ("2222", 9));
}

#[test]
fn sequence_wraps_from_9999_to_1() {
    let config = DiallerConfig::new("1234".to_owned(), 9999, false, 1);
    let keys = HashMap::new();
    let mut diallers = build_diallers(&config, &keys, 0, false);
    let d = &mut diallers[0];
    let first = d.prepare_message("SIA-DCS".to_owned(), "".to_owned(), at()).unwrap();
    let second = d.prepare_message("SIA-DCS".to_owned(), "".to_owned(), at()).unwrap();
    assert_eq!(parse_dc09(&first, None).unwrap().sequence, 9999);
    assert_eq!(parse_dc09(&second, None).unwrap().sequence, 1);
}

#[test]
fn consecutive_sends_count_up() {
    let mut d = Dialler::new("1234".to_owned(), false).with_start_sequence(4);
    assert_eq!(d.next_sequence(), 5);
    assert_eq!(d.next_sequence(), 6);
    let mut d = Dialler::new("1234".to_owned(), false).with_start_sequence(9998);
    assert_eq!(d.next_sequence(), 9999);
    assert_eq!(d.next_sequence(), 1);
    assert_eq!(d.next_sequence(), 2);
}

#[test]
fn ack_with_other_account_is_reported() {
    let mut d = Dialler::new("1234".to_owned(), false).with_start_sequence(4);
    d.prepare_message("SIA-DCS".to_owned(), "#1234|NRR".to_owned(), at()).unwrap();
    let wrong = DC09Message::new("ACK".to_owned(), "9999".to_owned(), 5, None).to_string();
    assert_eq!(d.process_ack_message(&wrong), Err(DC09Error::InvalidAccountNumber));
    let late = DC09Message::new("ACK".to_owned(), "1234".to_owned(), 4, None).to_string();
    assert_eq!(d.process_ack_message(&late), Err(DC09Error::InvalidSequenceNumber));
    let right = DC09Message::new("ACK".to_owned(), "1234".to_owned(), 5, None).to_string();
    assert_eq!(d.process_ack_message(&right), Ok(()));
    assert_eq!(d.process_ack_message("garbage"), Err(DC09Error::ParseHeaderError));
}

#[test]
fn dialler_with_key_sends_encrypted_frames() {
    let mut keys = HashMap::new();
    keys.insert(1u16, "aaaaaaaaaaaaaaaabbbbbbbbbbbbbbbb".to_owned());
    let mut d = Dialler::new("1234".to_owned(), true).with_key(&keys, 1).with_line_prefix(Some("L2".to_owned()));
    assert_eq!(d.key(), Some("aaaaaaaaaaaaaaaabbbbbbbbbbbbbbbb"));
    let frame = d.prepare_message("SIA-DCS".to_owned(), "#1234|NRR|Atest".to_owned(), at()).unwrap();
    let parsed = parse_dc09(&frame, d.key()).unwrap();
    assert_eq!(parsed.token, "*SIA-DCS");
    assert_eq!(parsed.data.as_deref(), Some("#1234|NRR|Atest"));
    assert_eq!(parsed.timestamp.as_deref(), Some("16:20:01,09-24-2025"));
    assert_eq!(parsed.sequence, 1);
    let mut bad = HashMap::new();
    bad.insert(0u16, "short".to_owned());
    let mut e = Dialler::new("1".to_owned(), false).with_key(&bad, 0);
    assert_eq!(e.prepare_message("SIA-DCS".to_owned(), "".to_owned(), at()), None);
}

#[test]
fn signal_body_and_send_rules() {
    let d = Dialler::new("1234".to_owned(), false);
    assert_eq!(d.signal_body(&SignalConfig::new("SIA-DCS".to_owned(), Some("NRR|Atest".to_owned()), 1)), "#1234|NRR|Atest");
    assert_eq!(d.signal_body(&SignalConfig::new("NULL".to_owned(), None, 1)), "");
    let mut s = SignalConfig::new("SIA-DCS".to_owned(), None, 0);
    assert_eq!(s.send_count(), 1);
    s.repeat = 3;
    assert_eq!(s.send_count(), 3);
    s.delay = 50;
    assert!(!s.waits());
    s.delay = 51;
    assert!(s.waits());
}

fn scenarios() -> Scenarios {
    let mut d1 = DiallerConfig::new("100".to_owned(), 5, true, 2);
    d1.scenarios = Some(vec![2, 9, 1]);
    d1.key = Some("0123456789abcdef".to_owned());
    d1.receiver = Some("R1".to_owned());
    let d2 = DiallerConfig::new("xyz".to_owned(), 0, false, 0);
    Scenarios {
        diallers: vec![d1, d2],
        scenarios: vec![
            ScenarioConfig { id: 1, sequence: vec![SignalConfig::new("A".to_owned(), None, 1)] },
            ScenarioConfig {
                id: 2,
                sequence: vec![SignalConfig::new("B".to_owned(), None, 1), SignalConfig::new("C".to_owned(), None, 2)],
            },
        ],
    }
}

#[test]
fn signals_map_keys_scenarios_by_id_plus_one() {
    let s = scenarios();
    let map: SignalMap = build_signals_map("SIA-DCS".to_owned(), "hello".to_owned(), 4, Some(&s));
    assert_eq!(map.entries.len(), 4);
    let default = map.get(0, 0).unwrap();
    assert_eq!((default.token.as_str(), default.message.as_deref(), default.repeat), ("SIA-DCS", Some("hello"), 4));
    assert_eq!(map.get(2, 0).unwrap().token, "A");
    assert_eq!(map.get(3, 1).unwrap().token, "C");
    assert!(map.get(1, 0).is_none());
}

#[test]
fn diallers_are_created_from_the_file_or_the_default() {
    let s = scenarios();
    let keys = build_keys_map(Some(&s), Some("ffffffffffffffff"));
    let default = DiallerConfig::new("1234".to_owned(), 1, false, 3);
    let made = create_diallers(Some(&s), &default, &keys, false);
    let accounts: Vec<&str> = made.iter().map(|d| d.account()).collect();
    assert_eq!(accounts, vec!["100", "101", "xyz"]);
    assert_eq!(made[0].sequence, 4);
    assert_eq!(made[0].key(), Some("0123456789abcdef"));
    assert_eq!(made[0].receiver.as_deref(), Some("R1"));
    assert!(made[0].udp);
    assert_eq!(made[2].key(), None);
    assert_eq!(made[2].sequence, 0);
    let fallback = create_diallers(None, &default, &keys, false);
    let accounts: Vec<&str> = fallback.iter().map(|d| d.account()).collect();
    assert_eq!(accounts, vec!["1234", "1235", "1236"]);
    assert_eq!(fallback[0].key(), Some("ffffffffffffffff"));
    let fixed = create_diallers(None, &default, &keys, true);
    assert!(fixed.iter().all(|d| d.account() == "1234"));
}

#[test]
fn queues_follow_the_assigned_scenarios() {
    let s = scenarios();
    let keys = build_keys_map(Some(&s), None);
    let default = DiallerConfig::new("1234".to_owned(), 1, false, 1);
    let mut made = create_diallers(Some(&s), &default, &keys, false);
    setup_message_queues(&mut made, Some(&s));
    let q0: Vec<(u16, u16)> = made[0].queue.iter().copied().collect();
    assert_eq!(q0, vec![(3, 0), (3, 1), (2, 0)]);
    let q1: Vec<(u16, u16)> = made[1].queue.iter().copied().collect();
    assert_eq!(q1, vec![(2, 0), (3, 0), (3, 1)]);
    let mut plain = create_diallers(None, &default, &keys, false);
    setup_message_queues(&mut plain, None);
    let q: Vec<(u16, u16)> = plain[0].queue.iter().copied().collect();
    assert_eq!(q, vec![(0, 0)]);
}

#[test]
fn next_signal_skips_unknown_entries() {
    let s = scenarios();
    let map = build_signals_map("SIA-DCS".to_owned(), "hello".to_owned(), 1, Some(&s));
    let mut d = Dialler::new("1".to_owned(), false);
    d.push_signal(7, 7);
    d.push_signal(3, 1);
    d.add_default_signal();
    assert_eq!(d.next_signal(&map).unwrap().token, "C");
    assert_eq!(d.next_signal(&map).unwrap().token, "SIA-DCS");
    assert!(d.next_signal(&map).is_none());
    assert!(d.queue.is_empty());
}

#[test]
fn ack_bytes_must_be_text() {
    let mut d = Dialler::new("1234".to_owned(), false).with_start_sequence(4);
    d.prepare_message("SIA-DCS".to_owned(), "".to_owned(), at()).unwrap();
    assert_eq!(d.process_ack_buffer(&[0xC3, 0x28]), None);
    let right = DC09Message::new("ACK".to_owned(), "1234".to_owned(), 5, None).to_string();
    assert_eq!(d.process_ack_buffer(right.as_bytes()), Some(Ok(())));
    d.set_timeout(Some(1500));
    assert_eq!(d.timeout_ms, Some(1500));
    assert_eq!(d.sequence, 5);
}

#[test]
fn encrypted_reply_carries_no_data() {
    let key = "aaaaaaaaaaaaaaaabbbbbbbbbbbbbbbb";
    let request = DC09Message::new("*SIA-DCS".to_owned(), "1234".to_owned(), 7, Some("#1234|NRR".to_owned()));
    let parsed = parse_dc09(&request.to_encrypted(key).unwrap(), Some(key)).unwrap();
    let reply = parse_dc09(&build_response_at(parsed, Some(key), false, at()), Some(key)).unwrap();
    assert_eq!(reply.data, None);
    assert_eq!(reply.timestamp.as_deref(), Some("16:20:01,09-24-2025"));
}
