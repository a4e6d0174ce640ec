use std::collections::hash_map::DefaultHasher;
use std::hash::Hasher;
use xproxy::cfg::{parse_u64, to_hash, ConfigItem, ConfigMap, DEFAULT_CONFIG};

#[test]
fn to_hash_is_decimal_default_hash() {
    for key in [&b""[..], &b"abc"[..], "芜湖，起飞~🚀".as_bytes()] {
        let mut h = DefaultHasher::new();
        h.write(key);
        assert_eq!(to_hash(key), h.finish().to_string());
    }
}

#[test]
fn to_hash_is_deterministic() {
    assert_eq!(to_hash(b"key"), to_hash(b"key"));
    assert!(to_hash(b"key").chars().all(|c| c.is_ascii_digit()));
}

#[test]
fn default_config_has_every_item() {
    let map = ConfigMap::parse(DEFAULT_CONFIG);
    assert_eq!(map.get(ConfigItem::ClientAddr).map(|s| s.as_str()), Some("127.0.0.1:7878"));
    assert_eq!(map.get(ConfigItem::Key).map(|s| s.as_str()), Some("芜湖，起飞~🚀"));
    assert_eq!(map.get(ConfigItem::ServerAddr).map(|s| s.as_str()), Some("127.0.0.1:8989"));
    assert_eq!(map.get(ConfigItem::TimeOutSec).map(|s| s.as_str()), Some("3"));
}

#[test]
fn later_line_overrides_earlier() {
    let map = ConfigMap::parse("key = a\nkey = b\n");
    assert_eq!(map.get(ConfigItem::Key).map(|s| s.as_str()), Some("b"));
}

#[test]
fn lines_without_separator_are_skipped() {
    let map = ConfigMap::parse("key=a\n# comment\nserver_addr =x\n");
    assert_eq!(map.get(ConfigItem::Key), None);
    assert_eq!(map.get(ConfigItem::ServerAddr), None);
}

#[test]
fn value_keeps_later_separators_and_spaces() {
    let map = ConfigMap::parse("key = a = b \n");
    assert_eq!(map.get(ConfigItem::Key).map(|s| s.as_str()), Some("a = b "));
}

#[test]
fn crlf_line_endings_are_stripped() {
    let map = ConfigMap::parse("time_out_sec = 5\r\nkey = k\r\n");
    assert_eq!(map.get(ConfigItem::TimeOutSec).map(|s| s.as_str()), Some("5"));
    assert_eq!(map.get(ConfigItem::Key).map(|s| s.as_str()), Some("k"));
}

#[test]
fn lone_carriage_return_stays_in_last_line() {
    let map = ConfigMap::parse("key = k\r");
    assert_eq!(map.get(ConfigItem::Key).map(|s| s.as_str()), Some("k\r"));
}

#[test]
fn empty_config_has_nothing() {
    let map = ConfigMap::parse("");
    assert_eq!(map.get(ConfigItem::ClientAddr), None);
}

#[test]
fn parse_u64_matches_std() {
    for s in [
        "0", "3", "+7", "", "+", "-1", "-0", " 3", "3 ", "1a", "007",
        "18446744073709551615", "18446744073709551616", "99999999999999999999",
        "+18446744073709551615",
    ] {
        assert_eq!(parse_u64(s), s.parse::<u64>().ok(), "input {:?}", s);
    }
}
