use sysmaster_exts::rules::device_eval::{assignment_of, cmdline_import, import_parent, Assignment};
use sysmaster_exts::rules::TokenType;
use sysmaster_exts::rules::device_eval::{
    apply_format, edit_tags, find_value, group_holds, outside_match, set_property, outside_request, subst_value, token_match, DeviceView,
    OutsideRequest, OutsideResult,
};
use sysmaster_exts::rules::exec_unit::{sanitize_value, tag_change, ExecuteError, ExecuteUnitData, SubstError};
use sysmaster_exts::rules::{FormatSubstitutionType, OperatorType, ResolveNameTime, RuleToken, Rules};

fn disk() -> DeviceView {
    DeviceView {
        action: "add".to_string(),
        devpath: "/devices/pci0000:00/block/sda/sda1".to_string(),
        sysname: "sda1".to_string(),
        sysnum: Some("1".to_string()),
        subsystem: Some("block".to_string()),
        driver: None,
        devname: Some("/dev/sda1".to_string()),
        devnum: Some((8, 1)),
        devlinks: vec!["/dev/disk/by-id/ata-x".to_string(), "/dev/root".to_string()],
        tags: vec!["systemd".to_string(), "seat".to_string()],
        properties: vec![
            ("ID_FS_TYPE".to_string(), "ext4".to_string()),
            ("ID_SERIAL".to_string(), "a b".to_string()),
        ],
        parent_devname: Some("/dev/sda".to_string()),
        parent_sysname: Some("0:0:0:0".to_string()),
        parent_driver: Some("sd".to_string()),
    }
}

fn token(key: &str, attr: Option<&str>, op: &str, value: &str) -> RuleToken {
    let mut rules = Rules::new(vec![], ResolveNameTime::Never);
    RuleToken::parse_token(key.to_string(), attr.map(|a| a.to_string()), op.to_string(), value.to_string(), &mut rules)
        .unwrap()
}

fn no_attrs() -> Vec<(String, String)> {
    vec![]
}

#[test]
fn find_value_takes_the_first_entry() {
    let ps = vec![("A".to_string(), "1".to_string()), ("A".to_string(), "2".to_string())];
    assert_eq!(find_value(&ps, "A"), Some("1".to_string()));
    assert_eq!(find_value(&ps, "B"), None);
}

#[test]
fn sanitize_value_trims_and_replaces() {
    assert_eq!(sanitize_value("disk #1 \n"), "disk #1");
    assert_eq!(sanitize_value("a*b\t"), "a_b");
    assert_eq!(sanitize_value("é!"), "é_");
}

#[test]
fn subst_value_of_each_kind() {
    let d = disk();
    let mut u = ExecuteUnitData::new();
    u.set_program_result("one two");
    let attrs = vec![("size".to_string(), "12 \n".to_string()), ("model".to_string(), "x*y".to_string())];
    let v = |k: FormatSubstitutionType, a: Option<&str>| subst_value(k, a, &d, &u, &attrs);
    assert_eq!(v(FormatSubstitutionType::Devnode, None), Ok("/dev/sda1".to_string()));
    assert_eq!(v(FormatSubstitutionType::Attr, Some("size")), Ok("12".to_string()));
    assert_eq!(v(FormatSubstitutionType::Attr, Some("model")), Ok("x_y".to_string()));
    assert_eq!(v(FormatSubstitutionType::Attr, Some("missing")), Ok(String::new()));
    assert_eq!(v(FormatSubstitutionType::Attr, None), Err(ExecuteError::MissingAttribute));
    assert_eq!(v(FormatSubstitutionType::Env, Some("ID_FS_TYPE")), Ok("ext4".to_string()));
    assert_eq!(v(FormatSubstitutionType::Env, Some("NOPE")), Ok(String::new()));
    assert_eq!(v(FormatSubstitutionType::Env, None), Err(ExecuteError::MissingAttribute));
    assert_eq!(v(FormatSubstitutionType::Kernel, None), Ok("sda1".to_string()));
    assert_eq!(v(FormatSubstitutionType::KernelNumber, None), Ok("1".to_string()));
    assert_eq!(v(FormatSubstitutionType::Driver, None), Ok("sd".to_string()));
    assert_eq!(v(FormatSubstitutionType::Devpath, None), Ok("/devices/pci0000:00/block/sda/sda1".to_string()));
    assert_eq!(v(FormatSubstitutionType::Id, None), Ok("0:0:0:0".to_string()));
    assert_eq!(v(FormatSubstitutionType::Major, None), Ok("8".to_string()));
    assert_eq!(v(FormatSubstitutionType::Minor, None), Ok("1".to_string()));
    assert_eq!(v(FormatSubstitutionType::Result, None), Ok("one two".to_string()));
    assert_eq!(v(FormatSubstitutionType::Result, Some("1")), Ok("two".to_string()));
    assert_eq!(v(FormatSubstitutionType::Parent, None), Ok("sda".to_string()));
    assert_eq!(v(FormatSubstitutionType::Name, None), Ok("sda1".to_string()));
    assert_eq!(v(FormatSubstitutionType::Links, None), Ok("disk/by-id/ata-x root".to_string()));
    assert_eq!(v(FormatSubstitutionType::Root, None), Ok("/dev".to_string()));
    assert_eq!(v(FormatSubstitutionType::Sys, None), Ok("/sys".to_string()));
    assert_eq!(v(FormatSubstitutionType::Invalid, None), Err(ExecuteError::InvalidFormatter));
}

#[test]
fn subst_value_without_device_number() {
    let mut d = disk();
    d.devnum = None;
    d.devname = None;
    d.parent_devname = None;
    let u = ExecuteUnitData::new();
    let a = no_attrs();
    assert_eq!(subst_value(FormatSubstitutionType::Major, None, &d, &u, &a), Ok("0".to_string()));
    assert_eq!(subst_value(FormatSubstitutionType::Minor, None, &d, &u, &a), Ok("0".to_string()));
    assert_eq!(subst_value(FormatSubstitutionType::Devnode, None, &d, &u, &a), Ok(String::new()));
    assert_eq!(subst_value(FormatSubstitutionType::Parent, None, &d, &u, &a), Ok(String::new()));
}

#[test]
fn apply_format_fills_in_the_formatters() {
    let d = disk();
    let u = ExecuteUnitData::new();
    let a = vec![("size".to_string(), "12".to_string())];
    assert_eq!(apply_format("$kernel-%n", false, &d, &u, &a), Ok("sda1-1".to_string()));
    assert_eq!(apply_format("disk/$env{ID_SERIAL}", false, &d, &u, &a), Ok("disk/a b".to_string()));
    assert_eq!(apply_format("disk/$env{ID_SERIAL}", true, &d, &u, &a), Ok("disk/a_b".to_string()));
    assert_eq!(apply_format("%M:%m $attr{size} $$", false, &d, &u, &a), Ok("8:1 12 $".to_string()));
    assert_eq!(apply_format("plain", false, &d, &u, &a), Ok("plain".to_string()));
}

#[test]
fn apply_format_errors() {
    let d = disk();
    let u = ExecuteUnitData::new();
    let a = no_attrs();
    assert_eq!(apply_format("x$env{A", false, &d, &u, &a), Err(ExecuteError::BadFormatter(SubstError::Unclosed)));
    assert_eq!(apply_format("héllo", false, &d, &u, &a), Ok("héllo".to_string()));
    assert_eq!(apply_format("héllo", true, &d, &u, &a), Ok("héllo".to_string()));
    assert_eq!(apply_format("é-$kernel", false, &d, &u, &a), Ok("é-sda1".to_string()));
}

#[test]
fn token_match_device_values() {
    let d = disk();
    let mut u = ExecuteUnitData::new();
    u.set_program_result("ok");
    let m = |t: &RuleToken| token_match(t, &d, &u);
    assert_eq!(m(&token("ACTION", None, "==", "add|change")), Some(Ok(true)));
    assert_eq!(m(&token("ACTION", None, "!=", "add")), Some(Ok(false)));
    assert_eq!(m(&token("KERNEL", None, "==", "sd*")), Some(Ok(true)));
    assert_eq!(m(&token("KERNELS", None, "==", "nvme*")), Some(Ok(false)));
    assert_eq!(m(&token("DEVPATH", None, "==", "*/sda1")), Some(Ok(true)));
    assert_eq!(m(&token("SYMLINK", None, "==", "disk/*")), Some(Ok(false)));
    assert_eq!(m(&token("SYMLINK", None, "==", "/dev/root")), Some(Ok(true)));
    assert_eq!(m(&token("ENV", Some("ID_FS_TYPE"), "==", "ext*")), Some(Ok(true)));
    assert_eq!(m(&token("ENV", Some("MISSING"), "==", "")), Some(Ok(true)));
    assert_eq!(m(&token("TAG", None, "==", "seat")), Some(Ok(true)));
    assert_eq!(m(&token("TAG", None, "!=", "seat")), Some(Ok(false)));
    assert_eq!(m(&token("TAG", None, "!=", "other")), Some(Ok(true)));
    assert_eq!(m(&token("SUBSYSTEM", None, "==", "block")), Some(Ok(true)));
    assert_eq!(m(&token("DRIVER", None, "!=", "x")), Some(Ok(true)));
    assert_eq!(m(&token("RESULT", None, "==", "ok")), Some(Ok(true)));
    assert_eq!(m(&token("ATTR", Some("size"), "==", "1")), None);
}

#[test]
fn outside_match_results() {
    let attr = token("ATTR", Some("size"), "==", "1*");
    assert_eq!(outside_match(&attr, &OutsideResult::Attribute(Some("12".to_string()))), Some(Ok(true)));
    assert_eq!(outside_match(&attr, &OutsideResult::Attribute(None)), Some(Ok(false)));
    assert_eq!(outside_match(&attr, &OutsideResult::Found(true)), None);

    let test = token("TEST", Some("0644"), "==", "/dev/x");
    assert_eq!(outside_match(&test, &OutsideResult::FileTest(true, 0o600)), Some(Ok(true)));
    assert_eq!(outside_match(&test, &OutsideResult::FileTest(true, 0o011)), Some(Ok(false)));
    assert_eq!(outside_match(&test, &OutsideResult::FileTest(false, 0o777)), Some(Ok(false)));
    let untested = token("TEST", None, "!=", "/dev/x");
    assert_eq!(outside_match(&untested, &OutsideResult::FileTest(false, 0)), Some(Ok(true)));
    assert_eq!(outside_match(&untested, &OutsideResult::FormatFailed), Some(Ok(true)));

    let prog = token("PROGRAM", None, "==", "/bin/true");
    assert_eq!(outside_match(&prog, &OutsideResult::Program(Some(("".to_string(), 0)))), Some(Ok(true)));
    assert_eq!(outside_match(&prog, &OutsideResult::Program(Some(("".to_string(), 1)))), Some(Ok(false)));
    assert_eq!(outside_match(&prog, &OutsideResult::Program(None)), Some(Ok(false)));

    let db = token("IMPORT", Some("db"), "==", "ID_A");
    assert_eq!(outside_match(&db, &OutsideResult::Found(true)), Some(Ok(true)));
    assert_eq!(outside_match(&db, &OutsideResult::Found(false)), Some(Ok(false)));

    let builtin = token("IMPORT", Some("builtin"), "==", "path_id");
    assert_eq!(outside_match(&builtin, &OutsideResult::Builtin(Some(true))), Some(Ok(true)));
    assert_eq!(outside_match(&builtin, &OutsideResult::Builtin(None)), Some(Ok(false)));
}

#[test]
fn outside_requests_by_token() {
    assert_eq!(outside_request(&token("ATTR", Some("size"), "==", "1")), Some(OutsideRequest::Attribute));
    assert_eq!(outside_request(&token("ATTRS", Some("size"), "==", "1")), Some(OutsideRequest::Attribute));
    assert_eq!(outside_request(&token("TEST", None, "==", "/x")), Some(OutsideRequest::TestFile));
    assert_eq!(outside_request(&token("PROGRAM", None, "==", "/bin/true")), Some(OutsideRequest::RunProgram));
    assert_eq!(outside_request(&token("IMPORT", Some("program"), "==", "/bin/p")), Some(OutsideRequest::ImportProgram));
    assert_eq!(outside_request(&token("IMPORT", Some("file"), "==", "/x")), Some(OutsideRequest::ImportFile));
    assert_eq!(outside_request(&token("IMPORT", Some("db"), "==", "ID_A")), Some(OutsideRequest::ImportDb));
    assert_eq!(outside_request(&token("IMPORT", Some("cmdline"), "==", "quiet")), Some(OutsideRequest::ImportCmdline));
    assert_eq!(outside_request(&token("IMPORT", Some("builtin"), "==", "path_id")), Some(OutsideRequest::RunBuiltin));
    assert_eq!(outside_request(&token("KERNEL", None, "==", "sda")), None);
    assert_eq!(outside_request(&token("ENV", Some("A"), "=", "1")), None);
}

#[test]
fn each_token_is_decided_one_way() {
    let d = disk();
    let u = ExecuteUnitData::new();
    let kernel = token("KERNEL", None, "==", "sda*");
    assert!(token_match(&kernel, &d, &u).is_some());
    assert_eq!(outside_request(&kernel), None);
    assert_eq!(outside_match(&kernel, &OutsideResult::Found(true)), None);
    let test = token("TEST", None, "==", "/x");
    assert!(token_match(&test, &d, &u).is_none());
    assert!(outside_match(&test, &OutsideResult::FileTest(true, 0)).is_some());
    assert!(outside_match(&test, &OutsideResult::Found(true)).is_none());
}

#[test]
fn parent_groups() {
    let d = disk();
    let u = ExecuteUnitData::new();
    let group = vec![token("KERNELS", None, "==", "sd*"), token("ATTRS", Some("vendor"), "==", "ATA*")];
    assert!(group_holds(&group, &d, &u, &vec![None, Some("ATA     ".to_string())]));
    assert!(!group_holds(&group, &d, &u, &vec![None, Some("USB".to_string())]));
    assert!(!group_holds(&group, &d, &u, &vec![None, None]));
    assert!(!group_holds(&group, &d, &u, &vec![]));
    assert!(group_holds(&[], &d, &u, &vec![]));
}

#[test]
fn properties_are_replaced() {
    let mut props = vec![("A".to_string(), "1".to_string()), ("B".to_string(), "2".to_string())];
    set_property(&mut props, "A", "3");
    assert_eq!(props, vec![("B".to_string(), "2".to_string()), ("A".to_string(), "3".to_string())]);
    set_property(&mut props, "C", "");
    assert_eq!(props.len(), 3);
    assert_eq!(props[2], ("C".to_string(), String::new()));
}

#[test]
fn tag_edits() {
    let mut tags = vec!["a".to_string(), "b".to_string()];
    edit_tags(&mut tags, tag_change(OperatorType::Add, "b"));
    assert_eq!(tags, vec!["a".to_string(), "b".to_string()]);
    edit_tags(&mut tags, tag_change(OperatorType::Add, "c"));
    assert_eq!(tags, vec!["a".to_string(), "b".to_string(), "c".to_string()]);
    edit_tags(&mut tags, tag_change(OperatorType::Remove, "a"));
    assert_eq!(tags, vec!["b".to_string(), "c".to_string()]);
    edit_tags(&mut tags, tag_change(OperatorType::Add, "bad tag"));
    assert_eq!(tags, vec!["b".to_string(), "c".to_string()]);
    edit_tags(&mut tags, tag_change(OperatorType::Assign, "x"));
    assert_eq!(tags, vec!["x".to_string()]);
}

#[test]
fn cmdline_imports() {
    assert_eq!(cmdline_import(OperatorType::Match, "quiet", Some("quiet")), (true, Some(("quiet".to_string(), "1".to_string()))));
    assert_eq!(cmdline_import(OperatorType::Match, "root", Some("root=/dev/sda1")), (true, Some(("root".to_string(), "/dev/sda1".to_string()))));
    assert_eq!(cmdline_import(OperatorType::Match, "x", None), (false, None));
    assert_eq!(cmdline_import(OperatorType::Nomatch, "x", None), (true, None));
}

#[test]
fn parent_imports() {
    let parent = vec![("ID_A".to_string(), "1".to_string()), ("OTHER".to_string(), "2".to_string()), ("ID_B".to_string(), "3".to_string())];
    let mut props = vec![("ID_A".to_string(), "0".to_string()), ("KEEP".to_string(), "k".to_string())];
    assert_eq!(import_parent(OperatorType::Match, Some("ID_*"), Some(&parent), &mut props), Ok(true));
    assert_eq!(
        props,
        vec![("KEEP".to_string(), "k".to_string()), ("ID_A".to_string(), "1".to_string()), ("ID_B".to_string(), "3".to_string())]
    );
    let mut props = vec![];
    assert_eq!(import_parent(OperatorType::Match, Some("ID_*"), None, &mut props), Ok(false));
    assert_eq!(import_parent(OperatorType::Nomatch, Some("ID_*"), None, &mut props), Ok(true));
    assert_eq!(import_parent(OperatorType::Match, None, Some(&parent), &mut props), Ok(false));
    assert!(props.is_empty());
}

#[test]
fn assignments_by_kind() {
    assert_eq!(assignment_of(TokenType::AssignName), Assignment::Name);
    assert_eq!(assignment_of(TokenType::AssignModeId), Assignment::Mode);
    assert_eq!(assignment_of(TokenType::AssignOwner), Assignment::OwnerByName);
    assert_eq!(assignment_of(TokenType::AssignSeclabel), Assignment::Recorded);
    assert_eq!(assignment_of(TokenType::Goto), Assignment::Walk);
    assert_eq!(assignment_of(TokenType::AssignSysctl), Assignment::Unsupported);
    assert_eq!(assignment_of(TokenType::MatchKernel), Assignment::NotAssignment);
}
