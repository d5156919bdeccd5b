use sysmaster_exts::utils::{check_attr_format, check_value_format, get_property_from_string, replace_whitespace};
use sysmaster_exts::utils::commons::{replace_chars, replace_ifname, DEVMASTER_LEGAL_CHARS};
use sysmaster_exts::rules::RulesError;

#[test]
fn mod_test_check_value_format() {
    // valid value
    check_value_format("", "aaa$devnode{ID_PATH}bbb", false).unwrap();
    check_value_format("", "aaa$tempnode{ID_PATH}ccc", false).unwrap();
    check_value_format("", "aaa$sysfs{ID_PATH}ccc", false).unwrap();
    check_value_format("", "aaa$kernel{ID_PATH}ccc", false).unwrap();
    check_value_format("", "aaa$number{ID_PATH}ccc", false).unwrap();
    check_value_format("", "aaa$driver{ID_PATH}ccc", false).unwrap();
    check_value_format("", "aaa$devpath{ID_PATH}ccc", false).unwrap();
    check_value_format("", "aaa$id{ID_PATH}ccc", false).unwrap();
    check_value_format("", "aaa$major{ID_PATH}ccc", false).unwrap();
    check_value_format("", "aaa$minor{ID_PATH}ccc", false).unwrap();
    check_value_format("", "aaa$parent{ID_PATH}ccc", false).unwrap();
    check_value_format("", "aaa$name{ID_PATH}ccc", false).unwrap();
    check_value_format("", "aaa$links{ID_PATH}ccc", false).unwrap();
    check_value_format("", "aaa$root{ID_PATH}ccc", false).unwrap();
    check_value_format("", "aaa$sys{ID_PATH}ccc", false).unwrap();

    check_value_format("", "aaa$devnode{ID_PATH}bbb$env{ID_FSTYPE}ccc$result", false).unwrap();

    check_value_format("", "aaa$attr{ID_PATH}ccc", false).unwrap();
    check_value_format("", "aaa$env{ID_PATH}ccc", false).unwrap();
    check_value_format("", "aaa$attr", false).unwrap_err();
    check_value_format("", "aaa$env", false).unwrap_err();

    // invalid value
    check_value_format("", "aaa$devnode{ID_PATH}bbb", false).unwrap();

    check_value_format("", "aaa$resultbbb", false).unwrap_err();
    check_value_format("", "aaa$result bbb", false).unwrap();
    check_value_format("", "aaa$result", false).unwrap();
    check_value_format("", "aaa$result{0}bbb", false).unwrap();
}

#[test]
fn pattern_check_error_kinds() {
    assert_eq!(check_value_format("", "", true), Err(RulesError::InvalidValue));
    assert_eq!(check_value_format("", "$bogus", false), Err(RulesError::InvalidFormatter));
    assert_eq!(check_value_format("", "%E", false), Err(RulesError::InvalidFormat));
    assert_eq!(check_value_format("", "$result{x}", false), Err(RulesError::InvalidFormat));
    assert_eq!(check_attr_format("", ""), Err(RulesError::InvalidAttribute));
    assert_eq!(check_attr_format("", "plain"), Ok(()));
}

#[test]
fn mod_test_replace_chars() {
    assert_eq!(replace_chars("abcd!efg", DEVMASTER_LEGAL_CHARS), "abcd_efg");
    assert_eq!(replace_chars("abcd\\xefg", DEVMASTER_LEGAL_CHARS), "abcd\\xefg");
    assert_eq!(replace_chars("abcd\tefg", DEVMASTER_LEGAL_CHARS), "abcd efg");
}

#[test]
fn mod_test_get_property_from_string() {
    assert_eq!(get_property_from_string("A=B").unwrap(), ("A".to_string(), "B".to_string()));
    assert_eq!(get_property_from_string("A=BB").unwrap(), ("A".to_string(), "BB".to_string()));
    assert_eq!(get_property_from_string("A=\"B\"").unwrap(), ("A".to_string(), "B".to_string()));
    assert_eq!(get_property_from_string("A='B'").unwrap(), ("A".to_string(), "B".to_string()));
    assert_eq!(get_property_from_string("A=\"C=D\"").unwrap(), ("A".to_string(), "C=D".to_string()));
    assert_eq!(get_property_from_string("A='C=D'").unwrap(), ("A".to_string(), "C=D".to_string()));
    assert_eq!(get_property_from_string("A=C=D").unwrap(), ("A".to_string(), "C=D".to_string()));
    assert_eq!(get_property_from_string("A=C D").unwrap(), ("A".to_string(), "C D".to_string()));
    assert!(get_property_from_string("#A=B").is_err());
    assert!(get_property_from_string("=B").is_err());
    assert!(get_property_from_string("A=").is_err());
    assert!(get_property_from_string("A='B\"").is_err());
    assert!(get_property_from_string("A=\"B'").is_err());
    assert!(get_property_from_string("A=\"B").is_err());
    assert!(get_property_from_string("A='B").is_err());
    assert!(get_property_from_string("A=B\"").is_err());
    assert!(get_property_from_string("A=B'").is_err());
}

#[test]
fn mod_test_replace_ifname() {
    assert_eq!(replace_ifname("aaa/bbb"), "aaa_bbb");
    assert_eq!(replace_ifname("aaa:bbb"), "aaa_bbb");
    assert_eq!(replace_ifname("aaa%bbb"), "aaa_bbb");
    assert_eq!(replace_ifname("aaa bbb"), "aaa_bbb");
}

#[test]
fn pattern_replace_whitespace() {
    assert_eq!(replace_whitespace("hello   world"), "hello_world");
    assert_eq!(replace_whitespace(" a\tb\n"), "_a_b_");
    assert_eq!(replace_whitespace(""), "");
}
