use ruuvimqtt::reading::key_of;
use ruuvimqtt::utils::{
    alias_map, hex_byte, mac_from_captures, parse_alias, parse_alias_checked, str_to_mac, Alias,
    MAC_PATTERN,
};

#[test]
fn mac_with_colons() {
    assert_eq!(str_to_mac("AA:BB:CC:DD:EE:FF"), Ok([0xAA, 0xBB, 0xCC, 0xDD, 0xEE, 0xFF]));
}

#[test]
fn mac_with_other_separators_and_cases() {
    assert_eq!(str_to_mac("aa-bb-cc-dd-ee-ff"), Ok([0xAA, 0xBB, 0xCC, 0xDD, 0xEE, 0xFF]));
    assert_eq!(str_to_mac("01.23.45.67.89.aB"), Ok([0x01, 0x23, 0x45, 0x67, 0x89, 0xAB]));
    assert_eq!(str_to_mac("AABBCCDDEEFF"), Ok([0xAA, 0xBB, 0xCC, 0xDD, 0xEE, 0xFF]));
}

#[test]
fn mac_with_single_digits_and_prefix() {
    assert_eq!(str_to_mac("1:2:3:4:5:6"), Ok([1, 2, 3, 4, 5, 6]));
    assert_eq!(str_to_mac("0x1:2:3:4:5:6"), Ok([1, 2, 3, 4, 5, 6]));
    assert_eq!(str_to_mac("AA:BB:CC:DD:EE:F"), Ok([0xAA, 0xBB, 0xCC, 0xDD, 0xEE, 0x0F]));
}

#[test]
fn mac_of_wrong_length() {
    assert_eq!(str_to_mac(""), Err("Invalid mac address"));
    assert_eq!(str_to_mac("1:2:3:4:5"), Err("Invalid mac address"));
    assert_eq!(str_to_mac("1:2:3:4:5:"), Err("Invalid mac address"));
    assert_eq!(str_to_mac("AA:BB:CC:DD:EE:FF:"), Err("Invalid mac address"));
    assert_eq!(str_to_mac("AA:BB:CC:DD:EE:FF:00"), Err("Invalid mac address"));
}

#[test]
fn mac_length_counts_bytes() {
    // Nine characters, eleven bytes, five digits.
    assert_eq!(str_to_mac("é1é2:3:4:5"), Err("Invalid byte count"));
}

#[test]
fn mac_of_wrong_byte_count() {
    assert_eq!(str_to_mac("AA:BB:CC:DD:EE"), Err("Invalid byte count"));
    assert_eq!(str_to_mac("A:BB:CC:DD:EE:F:1"), Err("Invalid byte count"));
    assert_eq!(str_to_mac("no address here"), Err("Invalid byte count"));
    assert_eq!(str_to_mac("zzzzzzzzzzzz"), Err("Invalid byte count"));
}

#[test]
fn mac_from_what_a_search_found() {
    let six: Vec<Option<String>> =
        ["1", "02", "a", "Bc", "ff", "0"].iter().map(|t| Some(t.to_string())).collect();
    assert_eq!(mac_from_captures(11, &Some(six.clone())), Ok([1, 2, 0xA, 0xBC, 0xFF, 0]));
    assert_eq!(mac_from_captures(17, &Some(six.clone())), Ok([1, 2, 0xA, 0xBC, 0xFF, 0]));
    assert_eq!(mac_from_captures(10, &Some(six.clone())), Err("Invalid mac address"));
    assert_eq!(mac_from_captures(18, &Some(six.clone())), Err("Invalid mac address"));
    assert_eq!(mac_from_captures(12, &Some(six[..5].to_vec())), Err("Invalid byte count"));
    assert_eq!(mac_from_captures(12, &Some(Vec::new())), Err("Invalid byte count"));
    assert_eq!(mac_from_captures(12, &None), Err("Invalid mac address"));
    let mut gap = six.clone();
    gap[3] = None;
    assert_eq!(mac_from_captures(12, &Some(gap)), Err("Invalid mac address"));
    let mut long = six.clone();
    long[0] = Some("123".to_string());
    assert_eq!(mac_from_captures(12, &Some(long)), Err("Invalid mac address"));
    let mut odd = six;
    odd[5] = Some("g".to_string());
    assert_eq!(mac_from_captures(12, &Some(odd)), Err("Invalid mac address"));
}

#[test]
fn hex_bytes() {
    assert_eq!(hex_byte("0"), Some(0));
    assert_eq!(hex_byte("f"), Some(15));
    assert_eq!(hex_byte("F"), Some(15));
    assert_eq!(hex_byte("10"), Some(16));
    assert_eq!(hex_byte("aB"), Some(0xAB));
    assert_eq!(hex_byte("ff"), Some(255));
    assert_eq!(hex_byte(""), None);
    assert_eq!(hex_byte("100"), None);
    assert_eq!(hex_byte("g"), None);
    assert_eq!(hex_byte("1g"), None);
    assert_eq!(hex_byte("+1"), None);
    assert_eq!(hex_byte("é"), None);
}

#[test]
fn hex_bytes_match_std() {
    for b in 0u8..=255 {
        assert_eq!(hex_byte(&format!("{:x}", b)), Some(b));
        assert_eq!(hex_byte(&format!("{:02X}", b)), Some(b));
    }
}

#[test]
fn pattern_is_the_mac_pattern() {
    assert_eq!(MAC_PATTERN, "(0x)?([0-9a-fA-F]{1,2})[:.-]?");
}

#[test]
fn alias_with_name() {
    let alias = parse_alias("AA:BB:CC:DD:EE:FF=kitchen").unwrap();
    assert_eq!(alias.address, [0xAA, 0xBB, 0xCC, 0xDD, 0xEE, 0xFF]);
    assert_eq!(alias.name, "kitchen");
}

#[test]
fn alias_name_is_all_that_follows_the_first_separator() {
    let alias = parse_alias("1:2:3:4:5:6=a=b").unwrap();
    assert_eq!(alias.address, [1, 2, 3, 4, 5, 6]);
    assert_eq!(alias.name, "a=b");
    let empty = parse_alias("1:2:3:4:5:6=").unwrap();
    assert_eq!(empty.name, "");
    let wide = parse_alias("1:2:3:4:5:6=sääasema ☀").unwrap();
    assert_eq!(wide.name, "sääasema ☀");
}

#[test]
fn alias_without_separator() {
    assert_eq!(parse_alias("AA:BB:CC:DD:EE:FF").unwrap_err(), "invalid alias");
    assert_eq!(parse_alias("").unwrap_err(), "invalid alias");
    assert_eq!(parse_alias_checked("kitchen").unwrap_err(), "invalid alias");
}

#[test]
fn checked_alias_reports_a_bad_address() {
    assert_eq!(parse_alias_checked("kitchen=AA:BB:CC:DD:EE:FF").unwrap_err(), "Invalid mac address");
    assert_eq!(parse_alias_checked("=name").unwrap_err(), "Invalid mac address");
    assert_eq!(parse_alias_checked("AA:BB:CC:DD:EE=name").unwrap_err(), "Invalid byte count");
    let alias = parse_alias_checked("AA:BB:CC:DD:EE:FF=sauna").unwrap();
    assert_eq!(alias.address, [0xAA, 0xBB, 0xCC, 0xDD, 0xEE, 0xFF]);
    assert_eq!(alias.name, "sauna");
}

#[test]
fn alias_map_of_nothing() {
    assert!(alias_map(&Vec::new()).is_empty());
}

#[test]
fn alias_map_keeps_the_later_name() {
    let aliases = vec![
        Alias { address: [1, 2, 3, 4, 5, 6], name: "first".to_string() },
        Alias { address: [0xAA, 0xBB, 0xCC, 0xDD, 0xEE, 0xFF], name: "other".to_string() },
        Alias { address: [1, 2, 3, 4, 5, 6], name: "second".to_string() },
    ];
    let map = alias_map(&aliases);
    assert_eq!(map.len(), 2);
    assert_eq!(map.get(&key_of(&[1, 2, 3, 4, 5, 6])), Some(&"second".to_string()));
    assert_eq!(map.get(&0xAABBCCDDEEFF), Some(&"other".to_string()));
    assert_eq!(map.get(&key_of(&[9, 9, 9, 9, 9, 9])), None);
}

#[test]
fn alias_map_is_ordered_by_address() {
    let aliases = vec![
        Alias { address: [2, 0, 0, 0, 0, 0], name: "b".to_string() },
        Alias { address: [1, 0xFF, 0, 0, 0, 0], name: "a".to_string() },
        Alias { address: [2, 0, 0, 0, 0, 1], name: "c".to_string() },
    ];
    let names: Vec<String> = alias_map(&aliases).values().cloned().collect();
    assert_eq!(names, vec!["a".to_string(), "b".to_string(), "c".to_string()]);
}

#[test]
fn keys_are_big_endian() {
    assert_eq!(key_of(&[0xAA, 0xBB, 0xCC, 0xDD, 0xEE, 0xFF]), 0xAABBCCDDEEFF);
    assert_eq!(key_of(&[0, 0, 0, 0, 0, 0]), 0);
    assert_eq!(key_of(&[0, 0, 0, 0, 1, 0]), 256);
    assert_eq!(key_of(&[0xFF; 6]), 0xFFFF_FFFF_FFFF);
}
