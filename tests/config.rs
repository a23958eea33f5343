use dc09::receiver::ServerConfig;
use dc09::scenarios::{DiallerConfig, ScenarioConfig, Scenarios, SignalConfig};
use dc09::utils::{
    build_keys_map, get_account_name, is_account_prefix_valid, is_receiver_valid, parse_account_prefix, parse_key,
    parse_receiver,
};

fn dialler(name: &str, key: Option<&str>, scenarios: Option<Vec<u16>>, count: u16) -> DiallerConfig {
    let mut d = DiallerConfig::new(name.to_owned(), 1, false, count);
    d.key = key.map(String::from);
    d.scenarios = scenarios;
    d
}

fn sample() -> Scenarios {
    Scenarios {
        diallers: vec![
            dialler("1000", Some("0123456789abcdef"), Some(vec![2]), 2),
            dialler("abc", None, None, 0),
            dialler("abc", Some("0123456789abcdef01234567"), Some(vec![1]), 1),
        ],
        scenarios: vec![
            ScenarioConfig { id: 1, sequence: vec![SignalConfig::new("SIA-DCS".to_owned(), Some("NRR".to_owned()), 1)] },
            ScenarioConfig {
                id: 2,
                sequence: vec![
                    SignalConfig::new("SIA-DCS".to_owned(), None, 0),
                    SignalConfig::new("NULL".to_owned(), None, 3),
                ],
            },
        ],
    }
}

#[test]
fn key_lengths_are_checked() {
    assert_eq!(parse_key("0123456789abcdef"), Ok("0123456789abcdef".to_owned()));
    assert!(parse_key("0123456789abcdef01234567").is_ok());
    assert!(parse_key("0123456789abcdef0123456789abcdef").is_ok());
    assert_eq!(parse_key("0123456789abcde"), Err("key length must be 16, 24 or 32 bytes".to_owned()));
    assert!(parse_key("").is_err());
}

#[test]
fn receiver_and_prefix_are_checked() {
    assert!(is_receiver_valid("RF3"));
    assert!(is_receiver_valid("R123456"));
    assert!(!is_receiver_valid("R1234567"));
    assert!(!is_receiver_valid("R"));
    assert!(!is_receiver_valid("LF3"));
    assert!(!is_receiver_valid("RG"));
    assert!(is_account_prefix_valid("L77"));
    assert!(!is_account_prefix_valid("77"));
    assert_eq!(parse_receiver("R1"), Ok("R1".to_owned()));
    assert_eq!(parse_receiver("X1"), Err("invalid receiver number".to_owned()));
    assert_eq!(parse_account_prefix("L0"), Ok("L0".to_owned()));
    assert_eq!(parse_account_prefix("L"), Err("invalid account prefix (receiver line number)".to_owned()));
}

#[test]
fn scenarios_validate_names_the_first_bad_key() {
    assert_eq!(sample().validate(), Ok(()));
    let mut s = sample();
    s.diallers[1].key = Some("bad".to_owned());
    s.diallers[2].key = Some("worse".to_owned());
    assert_eq!(s.validate(), Err("abc: key length must be 16, 24 or 32 bytes".to_owned()));
}

#[test]
fn scenario_lookups_take_the_first_match() {
    let s = sample();
    assert_eq!(s.get_scenario_ids("1000"), Some(&[2u16][..]));
    assert_eq!(s.get_scenario_ids("abc"), None);
    assert_eq!(s.get_scenario_ids("nobody"), None);
    assert_eq!(s.get_sequence(2).map(|v| v.len()), Some(2));
    assert_eq!(s.get_sequence(7).map(|v| v.len()), None);
}

#[test]
fn keys_map_holds_default_and_dialler_keys() {
    let s = sample();
    let keys = build_keys_map(Some(&s), Some("ffffffffffffffff"));
    assert_eq!(keys.len(), 3);
    assert_eq!(keys.get(&0).map(String::as_str), Some("ffffffffffffffff"));
    assert_eq!(keys.get(&1).map(String::as_str), Some("0123456789abcdef"));
    assert_eq!(keys.get(&2), None);
    assert_eq!(keys.get(&3).map(String::as_str), Some("0123456789abcdef01234567"));
    assert!(build_keys_map(None, None).is_empty());
}

#[test]
fn account_names_count_up_from_a_numeric_name() {
    assert_eq!(get_account_name(2, Some(1234), "1234", false), "1236");
    assert_eq!(get_account_name(2, Some(1234), "1234", true), "1234");
    assert_eq!(get_account_name(2, None, "abc", false), "abc");
    assert_eq!(get_account_name(1, Some(u32::MAX), "4294967295", false), "4294967296");
    assert_eq!(get_account_name(0, Some(0), "0", false), "0");
}

#[test]
fn server_config_maps_accounts_to_dialler_keys() {
    let s = sample();
    let keys = build_keys_map(Some(&s), Some("ffffffffffffffff"));
    let config = ServerConfig::new(s.diallers.clone(), keys, false);
    let names: Vec<(&str, u16)> = config.diallers.iter().map(|(n, i)| (n.as_str(), *i)).collect();
    assert_eq!(names, vec![("1000", 1), ("1001", 1), ("abc", 2), ("abc", 3)]);
    let frame = |account: &str| format!("\n00000000\"*SIA-DCS\"0001L0#{}[00\r", account);
    assert_eq!(config.get_key_for_message(&frame("1001")), Some("0123456789abcdef"));
    assert_eq!(config.get_key_for_message(&frame("abc")), Some("0123456789abcdef01234567"));
    assert_eq!(config.get_key_for_message(&frame("999")), Some("ffffffffffffffff"));
    assert_eq!(config.get_key_for_message("junk"), Some("ffffffffffffffff"));
}

#[test]
fn server_config_without_default_key_may_have_none() {
    let s = sample();
    let keys = build_keys_map(Some(&s), None);
    let config = ServerConfig::new(s.diallers.clone(), keys, true);
    assert!(config.send_naks);
    assert_eq!(config.get_key_for_message("\n00000000\"SIA-DCS\"0001L0#abc[]\r"), Some("0123456789abcdef01234567"));
    assert_eq!(config.get_key_for_message("\n00000000\"SIA-DCS\"0001L0#777[]\r"), None);
}
