use sysmaster_exts::rules::node::{
    prior_dir_path, prior_link_fields, prior_link_priority, prior_link_target, prioritized_devnode,
    skips_prior_entry, PriorLinkError,
};

#[test]
fn test_get_prior_dir() {
    assert_eq!(prior_dir_path("/../xxx"), None);
    assert_eq!(prior_dir_path("xxx"), None);
}

#[test]
fn prior_dir_of_dev_link() {
    assert_eq!(
        prior_dir_path("/dev/test/update_prior_dir").unwrap(),
        "/run/devmaster/links/test\\x2fupdate_prior_dir"
    );
    assert_eq!(prior_dir_path("/dev/").unwrap(), "/run/devmaster/links/");
    assert_eq!(prior_dir_path("/devx/sda"), None);
}

#[test]
fn prior_link_reading() {
    /* Missing link priority. */
    let (p, d) = prior_link_fields(":/dev/loop0").unwrap();
    assert_eq!(p, "");
    assert_eq!(d, "/dev/loop0");
    assert_eq!(prior_link_priority(&p, true), Err(PriorLinkError::ParseInt));

    /* Non-existing device node path. */
    let (p, d) = prior_link_fields("0:xxx").unwrap();
    assert_eq!(p, "0");
    assert_eq!(d, "xxx");
    assert_eq!(prior_link_priority(&p, false), Err(PriorLinkError::NoDevice));
    assert_eq!(prior_link_priority(&p, true), Ok(0));

    assert_eq!(prior_link_fields("1:2:3"), Err(PriorLinkError::Invalid));
    assert_eq!(prior_link_fields("sda"), Err(PriorLinkError::Invalid));
    assert_eq!(prior_link_priority("-100", true), Ok(-100));
    assert_eq!(prior_link_priority("+7", true), Ok(7));
    assert_eq!(prior_link_priority("2147483648", true), Err(PriorLinkError::ParseInt));
}

#[test]
fn prior_link_round_trip() {
    assert_eq!(prior_link_target(-5, "/dev/sda"), "-5:/dev/sda");
    assert_eq!(prior_link_target(i32::MIN, "/dev/sdb"), "-2147483648:/dev/sdb");
    for prio in [i32::MIN, -1, 0, 42, i32::MAX] {
        let t = prior_link_target(prio, "/dev/sdc");
        let (p, d) = prior_link_fields(&t).unwrap();
        assert_eq!(d, "/dev/sdc");
        assert_eq!(prior_link_priority(&p, true), Ok(prio));
    }
}

#[test]
fn prioritized_claims() {
    assert!(skips_prior_entry("."));
    assert!(skips_prior_entry(".lock"));
    assert!(!skips_prior_entry("b8:0"));
    assert_eq!(prioritized_devnode(&vec![]), None);
    assert_eq!(prioritized_devnode(&vec![None, Some((i32::MIN, "/dev/a".to_string()))]), None);
    let es = vec![
        Some((0, "/dev/a".to_string())),
        None,
        Some((10, "/dev/b".to_string())),
        Some((10, "/dev/c".to_string())),
        Some((-3, "/dev/d".to_string())),
    ];
    assert_eq!(prioritized_devnode(&es), Some("/dev/b".to_string()));
}
