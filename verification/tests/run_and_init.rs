use sysmaster_exts::init::{retry_after, ChannelError, TimeoutCounter, ACCEPT_COUNT};
use sysmaster_exts::run::{
    replace_unit_suffix, transient_plan, transient_service_set_properties, unit_name_with_suffix, RunArgs, RunError,
    UnitProperty,
};
use sysmaster_exts::utils::commons::sysattr_subdir_split;

fn prop(k: &str, v: &str) -> UnitProperty {
    UnitProperty { key: k.to_string(), value: v.to_string() }
}

#[test]
fn service_properties() {
    let args = RunArgs {
        description: "d".to_string(),
        collect: true,
        property: vec!["Nice=5".to_string()],
        send_sighup: true,
        remain_after_exit: true,
        service_type: "oneshot".to_string(),
        uid: "1000".to_string(),
        gid: "100".to_string(),
        working_directory: "/tmp".to_string(),
        setenv: vec!["A=1".to_string(), "B=2".to_string()],
        args_cmdline: vec!["/bin/sleep".to_string(), "1".to_string()],
        ..Default::default()
    };
    let p = transient_service_set_properties(&args, true).unwrap();
    assert_eq!(
        p,
        vec![
            prop("Description", "d"),
            prop("CollectMode", "inactive-or-failed"),
            prop("Nice", "5"),
            prop("SendSIGHUP", "true"),
            prop("RemainAfterExit", "true"),
            prop("Type", "oneshot"),
            prop("User", "1000"),
            prop("Group", "100"),
            prop("WorkingDirectory", "/tmp"),
            prop("Environment", "A=1 B=2"),
            prop("ExecStart", "/bin/sleep 1 "),
        ]
    );
    assert_eq!(transient_service_set_properties(&args, false).unwrap_err(), RunError::InvalidEnvironment);
    let bad = RunArgs { property: vec!["Nice".to_string()], ..Default::default() };
    assert_eq!(transient_service_set_properties(&bad, true).unwrap_err(), RunError::InvalidProperty);
    let none = RunArgs::default();
    assert!(transient_service_set_properties(&none, false).unwrap().is_empty());
}

#[test]
fn transient_plans() {
    let args = RunArgs { args_cmdline: vec!["true".to_string()], ..Default::default() };
    let p = transient_plan(&args, true).unwrap();
    assert_eq!(p.suffix, ".service");
    assert_eq!(p.properties, vec![prop("ExecStart", "true ")]);
    assert!(p.service_properties.is_none());

    let args = RunArgs {
        timer_property: vec!["OnActiveSec=1".to_string()],
        args_cmdline: vec!["true".to_string()],
        ..Default::default()
    };
    let p = transient_plan(&args, true).unwrap();
    assert_eq!(p.suffix, ".timer");
    assert_eq!(p.properties, vec![prop("OnActiveSec", "1"), prop("RemainAfterElapse", "false")]);
    assert_eq!(p.service_properties.unwrap(), vec![prop("ExecStart", "true ")]);

    let args = RunArgs { socket_property: vec!["ListenStream=/tmp/s".to_string()], ..Default::default() };
    let p = transient_plan(&args, true).unwrap();
    assert_eq!(p.suffix, ".socket");
    assert_eq!(p.properties, vec![prop("ListenStream", "/tmp/s")]);

    let args = RunArgs { path_property: vec!["bad".to_string()], ..Default::default() };
    assert_eq!(transient_plan(&args, true).unwrap_err(), RunError::InvalidProperty);
}

#[test]
fn unit_names() {
    assert_eq!(unit_name_with_suffix("test", ".service"), "test.service");
    assert_eq!(unit_name_with_suffix("test.service", ".service"), "test.service");
    assert_eq!(unit_name_with_suffix("test.mount", ".service"), "test.mount.service");
    assert_eq!(replace_unit_suffix("a.b.timer", ".service").unwrap(), "a.b.service");
    assert!(replace_unit_suffix("abc", ".service").is_none());
    for name in ["x", "x.service", "x.timer", ""] {
        let once = unit_name_with_suffix(name, ".service");
        assert_eq!(unit_name_with_suffix(&once, ".service"), once);
    }
}

#[test]
fn channel_retries() {
    assert_eq!(retry_after(ChannelError::Interrupted, 2, ACCEPT_COUNT), Some(2));
    assert_eq!(retry_after(ChannelError::WouldBlock, 2, ACCEPT_COUNT), Some(3));
    assert_eq!(retry_after(ChannelError::WouldBlock, 3, ACCEPT_COUNT), None);
    assert_eq!(retry_after(ChannelError::Other, 0, ACCEPT_COUNT), None);
}

#[test]
fn heartbeat_timeout() {
    let mut c = TimeoutCounter::new(3);
    assert!(!c.tick(false));
    assert!(!c.tick(false));
    assert!(c.tick(false));
    assert_eq!(c.current_cnt, 0);
    assert!(!c.tick(false));
    c.reset();
    assert_eq!(c.current_cnt, 0);
    assert!(c.tick(true));
    assert_eq!(c.current_cnt, 0);
    let mut one = TimeoutCounter::new(1);
    assert!(one.tick(false));
}

#[test]
fn sysattr_wildcard() {
    let (d, t) = sysattr_subdir_split("/sys/class/net/*/address").unwrap();
    assert_eq!(d, "/sys/class/net/");
    assert_eq!(t, "address");
    assert!(sysattr_subdir_split("/sys/class/net/lo/address").is_none());
    let (d, t) = sysattr_subdir_split("/*/").unwrap();
    assert_eq!(d, "/");
    assert_eq!(t, "");
}

#[test]
fn machine_id_args() {
    use_check_args();
}

fn use_check_args() {
    let v = |a: &[&str]| a.iter().map(|s| s.to_string()).collect::<Vec<String>>();
    assert!(sysmaster_exts::machine_id::check_args(&v(&["machine-id-setup"])));
    assert!(sysmaster_exts::machine_id::check_args(&v(&[])));
    assert!(sysmaster_exts::machine_id::check_args(&v(&["machine-id-setup", "--commit"])));
    assert!(sysmaster_exts::machine_id::check_args(&v(&["machine-id-setup", "--print", "--commit"])));
    assert!(!sysmaster_exts::machine_id::check_args(&v(&["machine-id-setup", "--commit", "--bogus"])));
    assert!(!sysmaster_exts::machine_id::check_args(&v(&["machine-id-setup", "--bogus", "--print"])));
}
