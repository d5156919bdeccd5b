use sysmaster_exts::random_seed::{RANDOM_POOL_SIZE_MAX, RANDOM_POOL_SIZE_MIN};
use sysmaster_exts::getty::{
    add_vt_getty, container_from_string, container_tty, detect_container, environ_value, extract_words,
    getty_unit_names, link_parent, serial_consoles, translate_name, tty_is_vc, ContainerFacts,
};
use sysmaster_exts::hostname::{choose_hostname, from_cmdline_values, hostname_is_set, needs_setting, Hostname};
use sysmaster_exts::init::{
    CommEvent, InitAction, InitEvent, InitMachine, InitState, Param, SignalConfig, is_alive, is_manageable,
    is_unmanageable,
};
use sysmaster_exts::random_seed::{
    id128_readable_check, machine_id_from, may_credit, parse_boolean, random_pool_size, sd_id128_from_string,
    seed_action, seed_buffer_size, unhexchar, credit_after_sync, CreditEntropy, RandPoolInfo, SeedAction,
};
use sysmaster_exts::run::{parse_args, to_unit_property, transient_unit_set_properties, unit_suffix_is_valid, RunArgs, RunError, UnitProperty};
use sysmaster_exts::sctl;
use sysmaster_exts::sysmonitor::{parse_zombie_count, ProcessFd, Switch, SysMonitor, ZombieCount};

#[test]
fn tty_is_vc_test() {
    assert!(tty_is_vc("tty0"));
    assert!(tty_is_vc("tty1"));
    assert!(tty_is_vc("tty63"));
    assert!(!tty_is_vc("tty64"));
    assert!(!tty_is_vc("ttyAMA0"));
    assert!(tty_is_vc("/dev/tty0"));
    assert!(tty_is_vc("/dev/tty63"));
    assert!(!tty_is_vc("/dev/tty64"));
}

#[test]
fn getty_helpers() {
    assert!(!tty_is_vc("tty"));
    assert!(!tty_is_vc("tty-1"));
    assert!(tty_is_vc("tty+5"));
    assert!(container_from_string("docker"));
    assert!(!container_from_string("oci"));
    assert_eq!(extract_words("a b  c"), vec!["a", "b", "", "c"]);
    assert_eq!(extract_words(""), vec![""]);
    assert_eq!(environ_value("A=1\0B=2\0", "B"), Some("2".to_string()));
    assert_eq!(environ_value("AB=1\0A=x=A=y", "A"), Some("x=y".to_string()));
    assert_eq!(environ_value("A=1", "C"), None);
    assert_eq!(
        getty_unit_names("serial", "ttyS0"),
        Some(("serial-getty@.service".to_string(), "serial-getty@ttyS0.service".to_string()))
    );
    assert_eq!(getty_unit_names("", "tty1"), Some(("getty@.service".to_string(), "getty@tty1.service".to_string())));
    assert_eq!(getty_unit_names("serial", ""), None);
    assert_eq!(link_parent("/run/gen/getty.target.wants/x"), Some("/run/gen/getty.target.wants".to_string()));
    assert_eq!(link_parent("/x"), None);
    assert_eq!(link_parent("x"), None);
    assert!(container_tty("/dev/pts/1"));
    assert!(!container_tty("/dev/pts/"));
    assert!(!container_tty(""));
    assert_eq!(serial_consoles("ttyAMA0 tty0 \n"), vec!["ttyAMA0".to_string()]);
}

#[test]
fn test_hostname_valid() {
    assert!(Hostname::new("foobar").valid());
    assert!(Hostname::new("foobar.com").valid());
    assert!(!Hostname::new("foobar.com.").valid());
    assert!(Hostname::new("fooBAR").valid());
    assert!(Hostname::new("fooBAR.com").valid());
    assert!(!Hostname::new("fooBAR.").valid());
    assert!(!Hostname::new("fooBAR.com.").valid());
    assert!(!Hostname::new("fööbar").valid());
    assert!(!Hostname::new("").valid());
    assert!(!Hostname::new(".").valid());
    assert!(!Hostname::new("..").valid());
    assert!(!Hostname::new("foobar.").valid());
    assert!(!Hostname::new(".foobar").valid());
    assert!(!Hostname::new("foo..bar").valid());
    assert!(!Hostname::new("foo.bar..").valid());
    assert!(!Hostname::new("xxxxxxxxxxxxxxxxxxxxxxxxxxxxxxxxxxxxxxxxxxxxxxxxxxxxxxxxxxxxxxxxxxxxxxxxxxxxxxxxxxxxxxxxxxxxxxxxxxxxxxxx").valid());
    assert!(!Hostname::new("au-xph5-rvgrdsb5hcxc-47et3a5vvkrc-server-wyoz4elpdpe3.openstack.local").valid());
    assert!(Hostname::new("local--host.localdomain").valid());
    assert!(!Hostname::new("localhost-.localdomain").valid());
    assert!(!Hostname::new("localhost.-localdomain").valid());
    assert!(Hostname::new("localhost.localdomain").valid());
}

#[test]
fn hostname_sources() {
    assert_eq!(Hostname::new("  host \n").to_string(), "host");
    assert!(Hostname::from_string(" bad..name ").is_none());
    assert_eq!(from_cmdline_values(Some(""), Some("second")).unwrap().to_string(), "second");
    assert_eq!(from_cmdline_values(Some("first"), Some("second")).unwrap().to_string(), "first");
    assert!(from_cmdline_values(None, None).is_none());
    assert_eq!(Hostname::default_from(Some("-bad")).to_string(), "localhost");
    assert_eq!(Hostname::default_from(Some("box")).to_string(), "box");
    assert!(choose_hostname(None, true, Hostname::new("d")).is_none());
    assert_eq!(choose_hostname(None, false, Hostname::new("d")).unwrap().to_string(), "d");
    assert_eq!(needs_setting(&Hostname::new("a"), &Hostname::new("a")), Ok(false));
    assert_eq!(needs_setting(&Hostname::new("a"), &Hostname::new("b")), Ok(true));
    assert!(needs_setting(&Hostname::new("-"), &Hostname::new("b")).is_err());
    assert!(!hostname_is_set(Some(&Hostname::new("(none)"))));
    assert!(hostname_is_set(Some(&Hostname::new("h"))));
    // a valid name read back from its written form is the same name
    for name in ["foobar.com", "local--host.localdomain", "a"] {
        let h = Hostname::from_string(name).unwrap();
        assert_eq!(Hostname::from_string(&h.to_string()).unwrap().to_string(), name);
    }
}

#[test]
fn sd_id128_from_string_test() {
    let buf = b"e57446f87c3f4f978a7eca30ff7197d3";
    assert_eq!(
        [229, 116, 70, 248, 124, 63, 79, 151, 138, 126, 202, 48, 255, 113, 151, 211],
        sd_id128_from_string(buf).unwrap()
    );
    let buf1 = b"E57446f8-7c3f-4f97-8a7e-ca30ff7197d3";
    assert_eq!(
        [229, 116, 70, 248, 124, 63, 79, 151, 138, 126, 202, 48, 255, 113, 151, 211],
        sd_id128_from_string(buf1).unwrap()
    );
    let buf2 = b"e57446f8+7c3f-4f97-8a7e-ca30ff7197d3";
    assert_eq!(Err(()), sd_id128_from_string(buf2));
}

#[test]
fn random_seed_decisions() {
    assert_eq!(unhexchar(b'f'), Ok(15));
    assert_eq!(unhexchar(b'A'), Ok(10));
    assert_eq!(unhexchar(b'g'), Err(()));
    assert!(!id128_readable_check(b"e57446f8"));
    assert!(id128_readable_check(b"x"));
    let mut buf = [0u8; 38];
    buf[..33].copy_from_slice(b"e57446f87c3f4f978a7eca30ff7197d3\n");
    assert_eq!(machine_id_from(&buf, 33).unwrap()[0], 229);
    assert!(machine_id_from(&buf, 12).is_err());
    assert_eq!(parse_boolean("yes"), Ok(true));
    assert_eq!(parse_boolean("off"), Ok(false));
    assert_eq!(parse_boolean("maybe"), Err(()));
    assert_eq!(may_credit(None, Ok(Some("1")), false), CreditEntropy::NoWay);
    assert_eq!(may_credit(Some("force"), Err(()), true), CreditEntropy::YesForced);
    assert_eq!(may_credit(Some("true"), Ok(Some("1")), false), CreditEntropy::YesPlease);
    assert_eq!(may_credit(Some("true"), Ok(Some("1")), true), CreditEntropy::NoWay);
    assert_eq!(may_credit(Some("true"), Ok(None), false), CreditEntropy::NoWay);
    assert_eq!(random_pool_size("4096\n"), 512);
    assert_eq!(random_pool_size("\n  \n8192\n"), 1024);
    assert_eq!(random_pool_size("x"), 512);
    assert_eq!(random_pool_size("999999999999"), 10485760);
    assert_eq!(seed_action("load"), Ok(SeedAction::Load));
    assert_eq!(seed_action("dump"), Err(()));
    assert_eq!(seed_buffer_size(512, 100), 512);
    assert_eq!(seed_buffer_size(512, 2048), 2048);
    assert_eq!(seed_buffer_size(512, u64::MAX), 10485760);
    assert!(!credit_after_sync(CreditEntropy::YesPlease, true, false));
    assert!(credit_after_sync(CreditEntropy::YesForced, true, false));
    let info = RandPoolInfo::for_len(512);
    assert_eq!((info.entropy_count, info.buf_size), (4096, 512));
}

#[test]
fn test_unit_suffix_is_valid() {
    assert!(unit_suffix_is_valid(".service"));
    assert!(unit_suffix_is_valid(".socket"));
    assert!(!unit_suffix_is_valid("service"));
    assert!(!unit_suffix_is_valid(".test"));
}

#[test]
fn test_to_unit_property() {
    assert_eq!(to_unit_property("aa=bb").unwrap(), UnitProperty { key: "aa".to_string(), value: "bb".to_string() });
    assert_eq!(to_unit_property("aa==bb").unwrap(), UnitProperty { key: "aa".to_string(), value: "=bb".to_string() });
    assert_eq!(to_unit_property("aa=").unwrap(), UnitProperty { key: "aa".to_string(), value: "".to_string() });
    assert!(to_unit_property("=").is_err());
}

#[test]
fn run_properties_and_args() {
    let props = transient_unit_set_properties("d", true, &vec!["A=1".to_string()]).unwrap();
    assert_eq!(props.len(), 3);
    assert_eq!(props[0], UnitProperty { key: "Description".to_string(), value: "d".to_string() });
    assert_eq!(props[1].value, "inactive-or-failed");
    assert!(transient_unit_set_properties("", false, &vec!["bad".to_string()]).is_err());

    let mut args = RunArgs { unit: "test".to_string(), user: true, args_cmdline: vec!["/bin/sleep".to_string(), "1".to_string()], ..Default::default() };
    assert!(parse_args(&mut args).is_ok());
    assert!(args.no_ask_password);
    assert_eq!(args.description, "/bin/sleep 1");

    let mut args = RunArgs {
        unit: "test".to_string(),
        socket_property: vec!["ListenStream=/tmp/server.socket".to_string()],
        timer_property: vec!["OnActiveSec=1".to_string()],
        on_boot: "1".to_string(),
        args_cmdline: vec!["sleep".to_string()],
        ..Default::default()
    };
    assert_eq!(parse_args(&mut args), Err(RunError::MultipleTriggers));
    assert_eq!(args.timer_property, vec!["OnActiveSec=1".to_string(), "OnBootSec=1".to_string()]);

    let mut args = RunArgs::default();
    assert_eq!(parse_args(&mut args), Err(RunError::NoCommand));
    let mut args = RunArgs { unit: "u".to_string(), timer_property: vec!["Persistent=true".to_string()], ..Default::default() };
    assert_eq!(parse_args(&mut args), Err(RunError::TimerPropertyWithoutTimer));
}

#[test]
fn init_params() {
    let mut p = Param::new();
    assert_eq!((p.init_param.time_cnt, p.init_param.time_wait), (5, 10));
    p.get_opt(vec![
        "init".to_string(),
        "--timecnt=1".to_string(),
        "--timewait=20".to_string(),
        "--timecnt=7".to_string(),
        "--timewait=3".to_string(),
    ]);
    assert_eq!((p.init_param.time_cnt, p.init_param.time_wait), (7, 20));
    assert!(p.manager_param.is_empty());
}

#[test]
fn init_state_machine() {
    let cfg = SignalConfig { zombie: 17, restart: 35, unrecover: 36, switch_root: 37, manager_pid: 100 };
    let mut m = InitMachine::new();
    assert!(!m.take_reexec());
    assert_eq!(m.step(InitEvent::Comm(CommEvent::PipOn), cfg), InitAction::Nothing);
    assert_eq!(m.state(), InitState::Run);
    assert_eq!(m.step(InitEvent::Signal(37, 1), cfg), InitAction::Nothing);
    assert_eq!(m.step(InitEvent::Signal(37, 100), cfg), InitAction::SwitchRoot);
    assert_eq!(m.step(InitEvent::Comm(CommEvent::PipTimeout), cfg), InitAction::Nothing);
    assert_eq!(m.state(), InitState::Reexec);
    assert!(m.take_reexec());
    assert!(!m.take_reexec());
    assert_eq!(m.step(InitEvent::Signal(36, 1), cfg), InitAction::Recycle);
    assert_eq!(m.state(), InitState::Unrecover);
    assert_eq!(m.step(InitEvent::Signal(35, 1), cfg), InitAction::Recreate);
    assert_eq!(m.step(InitEvent::Comm(CommEvent::PipOn), cfg), InitAction::Nothing);
    assert_eq!(m.state(), InitState::Unrecover);
    assert_eq!(m.step(InitEvent::Other, cfg), InitAction::CloseFd);
    assert!(is_alive("ALIVE") && is_manageable("MANAGEABLE") && is_unmanageable("UNMANAGEABLE"));
    assert!(!is_alive("alive"));
}

#[test]
fn sctl_report() {
    let r = sctl::Result::OK.report(1 << 16);
    assert_eq!((r.message, r.exit_code), (None, 0));
    let r = sctl::Result::Failure("x".to_string(), (1 << 16) | 3).report(1 << 16);
    assert_eq!((r.message, r.to_stdout, r.exit_code), (Some("x".to_string()), true, 3));
    let r = sctl::Result::Failure("y".to_string(), 300).report(1 << 16);
    assert_eq!((r.to_stdout, r.exit_code), (false, 1));
}

#[test]
fn sysmonitor_settings() {
    let mut z = ZombieCount::default();
    let parsed = ZombieCount { config: Switch { monitor: false, alarm: false }, alarm: 500, resume: 400, period: 60, status: false };
    z.load(parsed, SysMonitor { zombie_monitor: true, zombie_alarm: false, process_fd_num_monitor: false, process_fd_num_alarm: true, pscnt_monitor: false, pscnt_alarm: false });
    assert!(z.config.monitor && z.is_valid());
    assert!(z.should_report(500) && !z.should_report(499));
    assert_eq!(parse_zombie_count("12\n"), Some(12));
    assert_eq!(parse_zombie_count("x"), None);
    let mut f = ProcessFd::default();
    assert!(!f.is_valid());
    f.load(ProcessFd { config: Switch { monitor: false, alarm: false }, alarm: 80 }, SysMonitor { zombie_monitor: false, zombie_alarm: false, process_fd_num_monitor: true, process_fd_num_alarm: true, pscnt_monitor: true, pscnt_alarm: false });
    assert!(f.is_valid() && f.config.alarm);
    assert_eq!(f.threshold_text(), "80");
}

fn facts() -> ContainerFacts {
    ContainerFacts {
        proc_vz: false,
        proc_bc: false,
        os_release: "5.10.0\n".to_string(),
        tracer_pid: "0".to_string(),
        tracer_comm: String::new(),
        container_manager: String::new(),
        is_pid1: false,
        container_env: None,
        container_files: false,
    }
}

#[test]
fn container_detection() {
    assert!(!detect_container(&facts()));
    assert!(detect_container(&ContainerFacts { proc_vz: true, ..facts() }));
    assert!(!detect_container(&ContainerFacts { proc_vz: true, proc_bc: true, ..facts() }));
    assert!(detect_container(&ContainerFacts { os_release: "4.4.0-19041-Microsoft\n".to_string(), ..facts() }));
    assert!(detect_container(&ContainerFacts { tracer_pid: "42".to_string(), tracer_comm: "proot\n".to_string(), ..facts() }));
    assert!(!detect_container(&ContainerFacts { tracer_pid: "-3".to_string(), tracer_comm: "proot".to_string(), ..facts() }));
    assert!(detect_container(&ContainerFacts { container_manager: "docker".to_string(), ..facts() }));
    // the line as read keeps its newline, which no manager's name has
    assert!(!detect_container(&ContainerFacts { container_manager: "docker\n".to_string(), ..facts() }));
    assert!(detect_container(&ContainerFacts { is_pid1: true, container_env: Some("lxc".to_string()), ..facts() }));
    assert!(!detect_container(&ContainerFacts { is_pid1: true, container_env: Some("oci".to_string()), ..facts() }));
    assert!(detect_container(&ContainerFacts {
        is_pid1: true,
        container_env: Some("oci".to_string()),
        container_files: true,
        ..facts()
    }));
    assert!(detect_container(&ContainerFacts { container_files: true, ..facts() }));
    assert!(translate_name("oci", true));
    assert!(!translate_name("oci", false));
    assert!(translate_name("podman", false));
}

#[test]
fn vt_gettys() {
    let v = add_vt_getty();
    assert_eq!(v.len(), 6);
    assert_eq!(v[0], ("getty@.service".to_string(), "getty@tty1.service".to_string()));
    assert_eq!(v[5], ("getty@.service".to_string(), "getty@tty6.service".to_string()));
}

#[test]
fn init_param_parsers() {
    use_param_parsers();
}

fn use_param_parsers() {
    let mut p = Param::new();
    sysmaster_exts::init::parse_timecnt("--timecnt=3", "--timecnt=", &mut p.init_param);
    assert_eq!(p.init_param.time_cnt, 3);
    sysmaster_exts::init::parse_timecnt("--timecnt=1", "--timecnt=", &mut p.init_param);
    assert_eq!(p.init_param.time_cnt, 3);
    sysmaster_exts::init::parse_timecnt("--timecnt=x", "--timecnt=", &mut p.init_param);
    assert_eq!(p.init_param.time_cnt, 3);
    sysmaster_exts::init::parse_timewait("--timewait=10", "--timewait=", &mut p.init_param);
    assert_eq!(p.init_param.time_wait, 10);
    sysmaster_exts::init::parse_timewait("--timewait=9", "--timewait=", &mut p.init_param);
    assert_eq!(p.init_param.time_wait, 10);
    sysmaster_exts::init::parse_timewait("--timewait=60", "--timewait=", &mut p.init_param);
    assert_eq!((p.init_param.time_cnt, p.init_param.time_wait), (3, 60));
}

#[test]
fn container_getty_unit_names() {
    let (from, to) = sysmaster_exts::getty::container_getty_units("pts/0");
    assert_eq!(from, "container-getty@.service");
    assert_eq!(to, "container-getty@pts/0.service");
}

#[test]
fn mkdir_parents_lable_test() {
    use_mkdir_parents();
}

fn use_mkdir_parents() {
    let parent = sysmaster_exts::getty::link_parent;
    assert_eq!(parent("/tmp/a/").unwrap(), "/tmp/a");
    assert_eq!(parent("/tmp/a/b/b/").unwrap(), "/tmp/a/b/b");
    assert_eq!(parent("/tmp/a/c").unwrap(), "/tmp/a");
    assert_eq!(parent("/tmp/a////d/e//").unwrap(), "/tmp/a////d/e/");
    assert_eq!(parent("/top"), None);
    assert_eq!(parent("plain"), None);
}

#[test]
fn random_pool_size_test() {
    for content in ["4096\n", "256\n", "\n\n  \n", "", "abc\n", "999999999999\n", "\n32768"] {
        let n = random_pool_size(content);
        assert!(n >= RANDOM_POOL_SIZE_MIN);
        assert!(n <= RANDOM_POOL_SIZE_MAX);
    }
    assert_eq!(random_pool_size("4096\n"), 512);
    assert_eq!(random_pool_size("32768\n"), 4096);
    assert_eq!(random_pool_size(""), RANDOM_POOL_SIZE_MIN);
}
