use sysmaster_exts::utils::commons::{
    check_value_format, encode_devnode_name, EncodeError, get_first_path_component, get_property_from_string,
    parse_subsystem_kernel, replace_chars, replace_ifname, replace_whitespace, str_satisfy, PropertyError,
    DEVMASTER_LEGAL_CHARS,
};
use sysmaster_exts::utils::trie::Trie;
use sysmaster_exts::rules::RulesError;

#[test]
fn commons_test_check_value_format() {
    // valid long formatter
    check_value_format("", "aaa $devnode    ccc", false).unwrap();
    check_value_format("", "aaa $tempnode   ccc", false).unwrap();
    check_value_format("", "aaa $kernel     ccc", false).unwrap();
    check_value_format("", "aaa $number     ccc", false).unwrap();
    check_value_format("", "aaa $driver     ccc", false).unwrap();
    check_value_format("", "aaa $devpath    ccc", false).unwrap();
    check_value_format("", "aaa $id         ccc", false).unwrap();
    check_value_format("", "aaa $major      ccc", false).unwrap();
    check_value_format("", "aaa $minor      ccc", false).unwrap();
    check_value_format("", "aaa $parent     ccc", false).unwrap();
    check_value_format("", "aaa $name       ccc", false).unwrap();
    check_value_format("", "aaa $links      ccc", false).unwrap();
    check_value_format("", "aaa $root       ccc", false).unwrap();
    check_value_format("", "aaa $sys        ccc", false).unwrap();
    check_value_format("", "aaa $result     ccc", false).unwrap();
    check_value_format("", "aaa $attr{[net/lo]ifindex} ccc", false).unwrap();

    check_value_format("", "aaa$attr{xxx}ccc", false).unwrap();
    check_value_format("", "aaa$sysfs{xxx}ccc", false).unwrap();
    check_value_format("", "aaa$result{0}ccc", false).unwrap();
    check_value_format("", "aaa$result{0+}ccc", false).unwrap();

    // test short formatter
    check_value_format("", "aaa %N   ccc", false).unwrap();
    check_value_format("", "aaa %N   ccc", false).unwrap();
    check_value_format("", "aaa %k   ccc", false).unwrap();
    check_value_format("", "aaa %n   ccc", false).unwrap();
    check_value_format("", "aaa %d   ccc", false).unwrap();
    check_value_format("", "aaa %p   ccc", false).unwrap();
    check_value_format("", "aaa %b   ccc", false).unwrap();
    check_value_format("", "aaa %M   ccc", false).unwrap();
    check_value_format("", "aaa %m   ccc", false).unwrap();
    check_value_format("", "aaa %P   ccc", false).unwrap();
    check_value_format("", "aaa %D   ccc", false).unwrap();
    check_value_format("", "aaa %L   ccc", false).unwrap();
    check_value_format("", "aaa %r   ccc", false).unwrap();
    check_value_format("", "aaa %S   ccc", false).unwrap();
    check_value_format("", "aaa %c   ccc", false).unwrap();
    check_value_format("", "aaa %s{[net/lo]ifindex} ccc", false).unwrap();

    check_value_format("", "aaa$s{xxx}ccc", false).unwrap_err();
    check_value_format("", "aaa$c{0}ccc", false).unwrap_err();
    check_value_format("", "aaa$c{0+}ccc", false).unwrap_err();

    // test multiple formatters
    check_value_format("", "aaa$devnode{xxx}bbb$env{ID_FSTYPE}ccc$result", false).unwrap();

    // 'attr', 'sysfs' and 'env' formatters must follow attribute
    check_value_format("", "aaa$attr", false).unwrap_err();
    check_value_format("", "aaa$sysfs", false).unwrap_err();
    check_value_format("", "aaa$env", false).unwrap_err();

    // test && and %%
    check_value_format("", "$$", false).unwrap();
    check_value_format("", "$$kernel", false).unwrap();
    check_value_format("", "$$1", false).unwrap();
    check_value_format("", "%%", false).unwrap();
    check_value_format("", "%%N", false).unwrap();
    check_value_format("", "%%1", false).unwrap();
}

#[test]
fn commons_check_value_format_errors() {
    assert_eq!(check_value_format("", "", true), Err(RulesError::InvalidValue));
    assert_eq!(check_value_format("", "", false), Ok(()));
    assert_eq!(check_value_format("", "$attr{unclosed", false), Err(RulesError::InvalidFormat));
    assert_eq!(check_value_format("", "$result{x}", false), Err(RulesError::InvalidFormat));
    assert_eq!(check_value_format("", "$resultbbb", false), Ok(()));
}

#[test]
fn commons_test_replace_chars() {
    assert_eq!(replace_chars("abcd!efg", DEVMASTER_LEGAL_CHARS), "abcd_efg");
    assert_eq!(replace_chars("abcd\\xefg", DEVMASTER_LEGAL_CHARS), "abcd\\xefg");
    assert_eq!(replace_chars("abcd\tefg", DEVMASTER_LEGAL_CHARS), "abcd efg");
}

#[test]
fn replace_chars_without_space_in_white_list() {
    assert_eq!(replace_chars("a b\tc", ""), "a_b_c");
    assert_eq!(replace_chars("a\\", ""), "a_");
    assert_eq!(replace_chars("", ""), "");
}

#[test]
fn commons_test_get_property_from_string() {
    assert_eq!(get_property_from_string("A=B").unwrap(), ("A".to_string(), "B".to_string()));
    assert_eq!(get_property_from_string("A = B").unwrap(), ("A".to_string(), "B".to_string()));
    assert_eq!(get_property_from_string("A  =  B").unwrap(), ("A".to_string(), "B".to_string()));
    assert_eq!(get_property_from_string("A=BB").unwrap(), ("A".to_string(), "BB".to_string()));
    assert_eq!(get_property_from_string("A=\"B\"").unwrap(), ("A".to_string(), "B".to_string()));
    assert_eq!(get_property_from_string("A  =  \"B\"").unwrap(), ("A".to_string(), "B".to_string()));
    assert_eq!(get_property_from_string("A='B'").unwrap(), ("A".to_string(), "B".to_string()));
    assert_eq!(get_property_from_string("A  =  'B'").unwrap(), ("A".to_string(), "B".to_string()));
    assert_eq!(get_property_from_string("A=\"C=D\"").unwrap(), ("A".to_string(), "C=D".to_string()));
    assert_eq!(get_property_from_string("A='C=D'").unwrap(), ("A".to_string(), "C=D".to_string()));
    assert_eq!(get_property_from_string("A=C=D").unwrap(), ("A".to_string(), "C=D".to_string()));
    assert_eq!(get_property_from_string("A=C D").unwrap(), ("A".to_string(), "C D".to_string()));
    assert!(get_property_from_string("#A=B").is_err());
    assert!(get_property_from_string("=B").is_err());
    assert!(get_property_from_string("A=").is_err());
    assert!(get_property_from_string("A='B\"").is_err());
    assert!(get_property_from_string("A=\"B'").is_err());
    assert!(get_property_from_string("A=\"B").is_err());
    assert!(get_property_from_string("A='B").is_err());
    assert!(get_property_from_string("A=B\"").is_err());
    assert!(get_property_from_string("A=B'").is_err());
}

#[test]
fn property_error_kinds() {
    assert_eq!(get_property_from_string("  #A=B"), Err(PropertyError::Commented));
    assert_eq!(get_property_from_string("A="), Err(PropertyError::Malformed));
    assert_eq!(get_property_from_string("A=\"B'"), Err(PropertyError::UnmatchedQuotes));
}

#[test]
fn commons_test_replace_ifname() {
    assert_eq!(replace_ifname("aaa/bbb"), "aaa_bbb");
    assert_eq!(replace_ifname("aaa:bbb"), "aaa_bbb");
    assert_eq!(replace_ifname("aaa%bbb"), "aaa_bbb");
    assert_eq!(replace_ifname("aaa bbb"), "aaa_bbb");
}

#[test]
fn replace_ifname_is_idempotent() {
    let once = replace_ifname("a b/c:d\u{7f}e");
    assert_eq!(once, "a_b_c_d_e");
    assert_eq!(replace_ifname(&once), once);
}

#[test]
fn test_replace_whitespace() {
    assert_eq!(&replace_whitespace("hello world"), "hello_world");
    assert_eq!(&replace_whitespace("hello world "), "hello_world");
    assert_eq!(&replace_whitespace(" hello world"), "_hello_world");
    assert_eq!(&replace_whitespace(""), "");
    assert_eq!(&replace_whitespace("hello   world"), "hello_world");
    assert_eq!(&replace_whitespace("hello world   "), "hello_world");
    assert_eq!(&replace_whitespace("   hello   world"), "_hello_world");
    assert_eq!(&replace_whitespace("hello   world   hi"), "hello_world_hi");
    assert_eq!(&replace_whitespace("        "), "");
    assert_eq!(&replace_whitespace("a        "), "a");
    assert_eq!(&replace_whitespace("        a"), "_a");
}

#[test]
fn test_str_satisfy() {
    assert!(str_satisfy("aaa", |c| c.is_ascii_lowercase()));
    assert!(str_satisfy("123", |c| c.is_ascii_digit()));
}

#[test]
fn str_satisfy_rejects() {
    assert!(!str_satisfy("a1a", |c| c.is_ascii_lowercase()));
    assert!(str_satisfy("", |c| c.is_ascii_digit()));
}

#[test]
fn test_get_first_path_component() {
    assert_eq!(
        get_first_path_component("/sys/class/device/10002000", "/sys/class/device/").unwrap(),
        "10002000"
    );
    assert_eq!(
        get_first_path_component("/sys/class/device/10002000/aaa", "/sys/class/device/").unwrap(),
        "10002000"
    );
    assert_eq!(
        get_first_path_component("/sys/class/device/10002000/aaa/bbb", "/sys/class/device/").unwrap(),
        "10002000"
    );
}

#[test]
fn first_path_component_without_prefix() {
    assert_eq!(get_first_path_component("/sys/block/sda", "/sys/class/"), None);
    assert_eq!(get_first_path_component("/sys/class/", "/sys/class/"), Some(""));
}

#[test]
fn encode_devnode_name_escapes() {
    let mut out = String::new();
    assert_eq!(encode_devnode_name("a b\\c", &mut out), Ok(()));
    assert_eq!(out, "a\\x20b\\x5cc");
    let mut out = String::from("x");
    assert_eq!(encode_devnode_name("", &mut out), Err(EncodeError::Empty));
    assert_eq!(out, "x");
    let mut out = String::new();
    assert_eq!(encode_devnode_name("é", &mut out), Ok(()));
    assert_eq!(out, "é");
}

#[test]
fn subsystem_kernel_parts() {
    let p = parse_subsystem_kernel("[net/lo]/address", true).unwrap();
    assert_eq!(p.subsystem, "net");
    assert_eq!(p.sysname, "lo");
    assert_eq!(p.attribute, "address");
    assert!(parse_subsystem_kernel("[net]", false).is_err());
    assert!(parse_subsystem_kernel("[net/]", false).is_err());
    assert!(parse_subsystem_kernel("[net/lo", false).is_err());
    assert!(parse_subsystem_kernel("net/lo", false).is_err());
    assert!(parse_subsystem_kernel("[net/lo]", false).is_ok());
    assert!(parse_subsystem_kernel("[net/lo]/", true).is_err());
}

#[test]
fn test_trie() {
    let mut root = Trie::new(0);
    root.insert("hello");
    root.insert("world");
    root.insert("hell");

    assert!(root.search("hello"));
    assert!(root.search("world"));
    assert!(root.search("hell"));
    assert!(!root.search("water"));
    let world = root.search_prefix("world");
    assert!(world.is_some());
    assert_eq!(root.node_depth(world.unwrap()), 5);
    assert!(root.search_prefix("hell").is_some());
    assert!(root.search_prefix("helloworld").is_none());
    let whole: Vec<char> = "helloworld".chars().collect();
    assert!(root.search_prefix_partial(&whole, 0).is_some());
}

#[test]
fn replace_whitespace_is_idempotent() {
    for s in ["hello \t world  ", " a\nb", "\t", "x y\r\nz", "", "already_plain"] {
        let once = sysmaster_exts::utils::commons::replace_whitespace(s);
        assert!(!once.chars().any(|c| c.is_ascii_whitespace()));
        assert_eq!(sysmaster_exts::utils::commons::replace_whitespace(&once), once);
    }
}

#[test]
fn imported_property_lines() {
    use_imported_property_lines();
}

fn use_imported_property_lines() {
    let text = "ID_A=1\n# comment\n\nbogus\nID_B = \"two words\"\nID_C='x'";
    let props = sysmaster_exts::utils::commons::imported_properties(text);
    assert_eq!(
        props,
        vec![
            ("ID_A".to_string(), "1".to_string()),
            ("ID_B".to_string(), "two words".to_string()),
            ("ID_C".to_string(), "x".to_string()),
        ]
    );
    assert_eq!(
        sysmaster_exts::utils::commons::imported_properties("A=1\nB='\nC=\"é\nD=é"),
        vec![("A".to_string(), "1".to_string()), ("D".to_string(), "é".to_string())]
    );
}

#[test]
fn check_value_format_cut_off_placeholder() {
    assert_eq!(check_value_format("", "aaa$sy", false), Err(RulesError::InvalidFormat));
    assert_eq!(check_value_format("", "aaa$syx", false), Err(RulesError::InvalidFormat));
    assert_eq!(check_value_format("", "aaa$kernel", false), Ok(()));
    assert_eq!(check_value_format("", "aaa$result", false), Ok(()));
}

#[test]
fn replace_chars_keeps_multibyte_chars() {
    assert_eq!(replace_chars("é", DEVMASTER_LEGAL_CHARS), "é");
    assert_eq!(replace_chars("a€!b", DEVMASTER_LEGAL_CHARS), "a€_b");
    let once = replace_chars("x y!é\tz", "");
    assert_eq!(once, "x_y_é_z");
    assert_eq!(replace_chars(&once, ""), once);
    assert_eq!(once.chars().count(), "x y!é\tz".chars().count());
}

#[test]
fn property_with_lone_quote() {
    assert_eq!(get_property_from_string("A=\""), Err(PropertyError::UnmatchedQuotes));
    assert_eq!(get_property_from_string("A='"), Err(PropertyError::UnmatchedQuotes));
    assert_eq!(get_property_from_string("A=\"é"), Err(PropertyError::UnmatchedQuotes));
    assert_eq!(get_property_from_string("A=\"é\""), Ok(("A".to_string(), "é".to_string())));
}

#[test]
fn check_value_format_multibyte() {
    assert_eq!(check_value_format("", "é", false), Ok(()));
    assert_eq!(check_value_format("", "é$kernel ü", false), Ok(()));
    assert_eq!(check_value_format("", "$env{ü}x", false), Ok(()));
    assert_eq!(check_value_format("", "é$nope", false), Err(RulesError::InvalidFormat));
}
