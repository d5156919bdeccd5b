use sysmaster_exts::rules::exec_unit::{
    cmdline_property_value, devlink_priority, env_value, format_plan, get_subst_type, render_format, strip_dev, subst_links,
    tag_change, ExecuteError, ExecuteUnitData, FormatPiece, SubstError, TagEdit,
};
use sysmaster_exts::rules::rule_execute::{
    execution_mask, glob_set, globs_match, import_parent_keys, line_selected, list_match, pattern_match, test_mode_match,
    RulesWalk, WalkAction,
};
use sysmaster_exts::rules::{EscapeType, FormatSubstitutionType, OperatorType, ResolveNameTime, Rules};
use sysmaster_exts::utils::spawn::{plan_from_words, plan_spawn, SpawnError};

fn rules_of(files: &[(&str, &[&str])]) -> Rules {
    let mut rules = Rules::new(vec![], ResolveNameTime::Never);
    for (name, lines) in files {
        let lines: Vec<String> = lines.iter().map(|l| l.to_string()).collect();
        rules.parse_file(name.to_string(), &lines).unwrap();
    }
    rules
}

/// Walks the rules, answering each evaluation from `answer`, and records
/// the (file, line, token) positions asked for.
fn walk(rules: &Rules, remove: bool, devnum: bool, ifindex: bool, answer: &dyn Fn(usize, usize, usize) -> bool) -> Vec<(usize, usize, usize)> {
    let mask = execution_mask(remove, devnum, ifindex);
    let mut asked = Vec::new();
    let (mut w, mut a) = RulesWalk::start(rules, &mask);
    while let WalkAction::Evaluate { file, line, token, .. } = a {
        asked.push((file, line, token));
        let (w2, a2) = w.token_done(rules, &mask, answer(file, line, token));
        w = w2;
        a = a2;
    }
    asked
}

#[test]
fn walk_all_match() {
    let rules = rules_of(&[
        ("a.rules", &["ACTION==\"add\", SYMLINK+=\"x\"", "KERNEL==\"sda\", ENV{A}=\"1\""]),
        ("b.rules", &["ENV{B}=\"2\""]),
    ]);
    let asked = walk(&rules, false, true, false, &|_, _, _| true);
    assert_eq!(asked, vec![(0, 0, 0), (0, 0, 1), (0, 1, 0), (0, 1, 1), (1, 0, 0)]);
}

#[test]
fn walk_failed_token_skips_rest_of_line() {
    let rules = rules_of(&[("a.rules", &["ACTION==\"add\", SYMLINK+=\"x\"", "ENV{A}=\"1\""])]);
    let asked = walk(&rules, false, true, false, &|_, line, _| line != 0);
    assert_eq!(asked, vec![(0, 0, 0), (0, 1, 0)]);
}

#[test]
fn walk_mask_skips_lines() {
    // a line that only names the device node is skipped where the device
    // has no device number
    let rules = rules_of(&[("a.rules", &["SYMLINK+=\"x\"", "ENV{A}=\"1\""])]);
    let asked = walk(&rules, false, false, false, &|_, _, _| true);
    assert_eq!(asked, vec![(0, 1, 0)]);
    let asked = walk(&rules, false, true, false, &|_, _, _| true);
    assert_eq!(asked, vec![(0, 0, 0), (0, 1, 0)]);
    let asked = walk(&rules, true, true, false, &|_, _, _| true);
    assert_eq!(asked, vec![(0, 1, 0)]);
}

#[test]
fn walk_goto_jumps_to_label() {
    let rules = rules_of(&[(
        "a.rules",
        &["ACTION==\"add\", GOTO=\"end\"", "ENV{A}=\"1\"", "LABEL=\"end\"", "ENV{B}=\"2\""],
    )]);
    // the label line has no kind that is applied, so the walk goes on at
    // the line after it
    let asked = walk(&rules, false, false, false, &|_, _, _| true);
    assert_eq!(asked, vec![(0, 0, 0), (0, 0, 1), (0, 3, 0)]);
    // without the match, no jump
    let asked = walk(&rules, false, false, false, &|_, line, _| line != 0);
    assert_eq!(asked, vec![(0, 0, 0), (0, 1, 0), (0, 3, 0)]);
}

#[test]
fn walk_parent_tokens_once() {
    let rules = rules_of(&[("a.rules", &["KERNELS==\"a\", SUBSYSTEMS==\"b\", ENV{A}=\"1\""])]);
    let mask = execution_mask(false, false, false);
    let (w, a) = RulesWalk::start(&rules, &mask);
    assert_eq!(a, WalkAction::Evaluate { file: 0, line: 0, token: 0, on_parent: true });
    // both parent tokens are evaluated together against each ancestor
    assert_eq!(w.parent_group_end(&rules), 2);
    // the first parent token matched: the other one is passed over
    let (_, a) = w.token_done(&rules, &mask, true);
    assert_eq!(a, WalkAction::Evaluate { file: 0, line: 0, token: 2, on_parent: false });
}

#[test]
fn mask_and_selection() {
    let m = execution_mask(false, true, true);
    assert!(m.has_devlink && m.has_name && m.has_goto && m.update_something);
    let m = execution_mask(true, true, true);
    assert!(!m.has_devlink && !m.has_name);
    let rules = rules_of(&[("a.rules", &["LABEL=\"x\""])]);
    assert!(!line_selected(&rules.files[0].lines[0].line_type, &m));
}

#[test]
fn subst_type_reading() {
    let s = "a$kernel b";
    let mut idx = 0;
    assert_eq!(get_subst_type(s, &mut idx, false).unwrap().map(|x| x.0), None);
    assert_eq!(idx, 0);
    idx = 1;
    let r = get_subst_type(s, &mut idx, false).unwrap().unwrap();
    assert_eq!(r.0, FormatSubstitutionType::Kernel);
    assert_eq!(r.1, None);
    assert_eq!(idx, 8);

    let s = "%s{size}x";
    let mut idx = 0;
    let r = get_subst_type(s, &mut idx, false).unwrap().unwrap();
    assert_eq!(r.0, FormatSubstitutionType::Attr);
    assert_eq!(r.1, Some("size".to_string()));
    assert_eq!(idx, 8);

    let s = "$$";
    let mut idx = 0;
    assert!(get_subst_type(s, &mut idx, false).unwrap().is_none());
    assert_eq!(idx, 1);

    let s = "$nothing";
    let mut idx = 0;
    assert!(get_subst_type(s, &mut idx, false).unwrap().is_none());
    let mut idx = 0;
    assert_eq!(get_subst_type(s, &mut idx, true).unwrap_err(), SubstError::Invalid);

    let s = "$env{A";
    let mut idx = 0;
    assert_eq!(get_subst_type(s, &mut idx, false).unwrap_err(), SubstError::Unclosed);

    let mut idx = 3;
    assert_eq!(get_subst_type("abc", &mut idx, false).unwrap_err(), SubstError::OutOfRange);

    // "sysfs" is tried before "sys"
    let mut idx = 0;
    let r = get_subst_type("$sysfs{a}", &mut idx, false).unwrap().unwrap();
    assert_eq!(r.0, FormatSubstitutionType::Attr);
    let mut idx = 0;
    let r = get_subst_type("$sys", &mut idx, false).unwrap().unwrap();
    assert_eq!(r.0, FormatSubstitutionType::Sys);
}

#[test]
fn format_plan_and_render() {
    let p = format_plan("/dev/$name-%n $$x");
    assert!(p.error.is_none());
    let texts: String = p
        .pieces
        .iter()
        .map(|x| match x {
            FormatPiece::Text(c) => c.to_string(),
            FormatPiece::Subst(_, _) => "@".to_string(),
        })
        .collect();
    assert_eq!(texts, "/dev/@-@ $x");
    let out = render_format(&p.pieces, &vec!["sd a".to_string(), "1".to_string()], false);
    assert_eq!(out, "/dev/sd a-1 $x");
    let out = render_format(&p.pieces, &vec!["sd a".to_string(), "1".to_string()], true);
    assert_eq!(out, "/dev/sd_a-1 $x");

    let p = format_plan("x$env{A");
    assert_eq!(p.error, Some(SubstError::Unclosed));
    assert_eq!(p.pieces.len(), 1);

    // characters beyond ASCII stand for themselves, also before a formatter
    let p = format_plan("é$kernel");
    assert!(p.error.is_none());
    assert_eq!(p.pieces.len(), 2);
    assert_eq!(render_format(&p.pieces, &vec!["sda".to_string()], false), "ésda");
    let mut idx = 1;
    assert_eq!(get_subst_type("é$env{ü}", &mut idx, false).unwrap().unwrap().1, Some("ü".to_string()));
    assert_eq!(idx, 8);
}

#[test]
fn unit_owner_final() {
    let mut u = ExecuteUnitData::new();
    u.apply_owner(OperatorType::Assign, Some(5));
    assert_eq!(u.uid, Some(5));
    u.apply_owner(OperatorType::AssignFinal, Some(6));
    assert_eq!(u.uid, Some(6));
    assert!(u.owner_final);
    u.apply_owner(OperatorType::Assign, Some(7));
    assert_eq!(u.uid, Some(6));
    assert_eq!(u.apply_owner_id(OperatorType::Assign, "8"), Ok(()));
    assert_eq!(u.uid, Some(6));

    let mut u = ExecuteUnitData::new();
    assert_eq!(u.apply_owner_id(OperatorType::AssignFinal, "x"), Err(ExecuteError::ParseInt));
    assert!(u.owner_final);
    assert_eq!(u.uid, None);
    let mut u = ExecuteUnitData::new();
    assert_eq!(u.apply_group_id(OperatorType::Assign, "+12"), Ok(()));
    assert_eq!(u.gid, Some(12));
    u.apply_group(OperatorType::Assign, None);
    assert_eq!(u.gid, Some(12));
}

#[test]
fn unit_mode_and_watch() {
    let mut u = ExecuteUnitData::new();
    u.apply_mode(OperatorType::Assign, Some("0660"));
    assert_eq!(u.mode, Some(0o660));
    u.apply_mode(OperatorType::Assign, Some("999"));
    assert_eq!(u.mode, Some(0o660));
    assert_eq!(u.apply_watch(OperatorType::Assign, "true"), Ok(()));
    assert!(u.watch);
    assert_eq!(u.apply_watch(OperatorType::Assign, "yes"), Err(ExecuteError::ParseBool));
    assert!(u.watch);
}

#[test]
fn unit_name_and_devlinks() {
    let mut u = ExecuteUnitData::new();
    u.apply_name(OperatorType::Assign, true, Some("eth 0/1"), false);
    assert_eq!(u.name, "eth_0/1");
    u.apply_name(OperatorType::Assign, true, Some("a:b"), true);
    assert_eq!(u.name, "a_b");
    u.apply_name(OperatorType::Assign, false, Some("zz"), false);
    assert_eq!(u.name, "a_b");

    let mut u = ExecuteUnitData::new();
    let c = u.apply_devlink(OperatorType::Add, true, Some(" disk/a  disk/b "));
    assert!(!c.clear);
    assert_eq!(c.links, vec!["/dev/disk/a".to_string(), "/dev/".to_string(), "/dev/disk/b".to_string()]);
    u.set_escape_type(EscapeType::Replace);
    assert!(u.devlink_replaces_whitespace());
    let c = u.apply_devlink(OperatorType::AssignFinal, true, Some("a b"));
    assert!(c.clear);
    assert_eq!(c.links, vec!["/dev/a_b".to_string()]);
    let c = u.apply_devlink(OperatorType::Assign, true, Some("c"));
    assert!(!c.clear);
    assert!(c.links.is_empty());
    let mut u = ExecuteUnitData::new();
    let c = u.apply_devlink(OperatorType::Assign, false, Some("c"));
    assert!(!c.clear && c.links.is_empty());
}

#[test]
fn unit_run_lists() {
    let mut u = ExecuteUnitData::new();
    u.apply_run(OperatorType::Add, false, Some("prog a"));
    u.apply_run(OperatorType::Add, true, Some("kmod load"));
    assert_eq!(u.program_run_list, vec!["prog a".to_string()]);
    assert_eq!(u.builtin_run_list, vec!["kmod load".to_string()]);
    u.apply_run(OperatorType::AssignFinal, false, Some("prog b"));
    assert_eq!(u.program_run_list, vec!["prog b".to_string()]);
    assert!(u.builtin_run_list.is_empty());
    u.apply_run(OperatorType::Add, false, Some("prog c"));
    assert_eq!(u.program_run_list, vec!["prog b".to_string()]);
}

#[test]
fn unit_builtin_once() {
    let mut u = ExecuteUnitData::new();
    assert_eq!(u.builtin_gate(3, true, OperatorType::Match), None);
    assert_eq!(u.builtin_run, 8);
    assert!(!u.builtin_finish(3, false, OperatorType::Match));
    assert_eq!(u.builtin_ret, 8);
    // a second run answers from the recorded failure
    assert_eq!(u.builtin_gate(3, true, OperatorType::Match), Some(false));
    assert_eq!(u.builtin_gate(3, true, OperatorType::Nomatch), Some(true));
    assert_eq!(u.builtin_gate(4, false, OperatorType::Match), None);
    assert_eq!(u.builtin_run, 8);
    assert!(u.builtin_finish(4, true, OperatorType::Match));
    assert_eq!(u.builtin_ret, 8);
}

#[test]
fn unit_program_result() {
    let mut u = ExecuteUnitData::new();
    u.set_program_result("disk #1 \n");
    assert_eq!(u.program_result, "disk #1");
    u.set_program_result("a*b\t");
    assert_eq!(u.program_result, "a_b");
}

#[test]
fn env_and_tags_and_cmdline() {
    assert_eq!(env_value(OperatorType::Add, "", None, "", EscapeType::Unset), None);
    assert_eq!(env_value(OperatorType::Assign, "", None, "", EscapeType::Unset), Some(String::new()));
    assert_eq!(env_value(OperatorType::Add, "$x", Some("a"), "b", EscapeType::Unset), Some("a b".to_string()));
    assert_eq!(env_value(OperatorType::Assign, "$x", Some("a"), "b c", EscapeType::Unset), Some("b c".to_string()));
    assert_eq!(env_value(OperatorType::Assign, "$x", None, "b c", EscapeType::Replace), Some("b_c".to_string()));

    let t = tag_change(OperatorType::Assign, "seat-0_x");
    assert!(t.cleanup);
    assert!(matches!(t.edit, TagEdit::Add(ref s) if s == "seat-0_x"));
    let t = tag_change(OperatorType::Remove, "seat");
    assert!(!t.cleanup);
    assert!(matches!(t.edit, TagEdit::Remove(ref s) if s == "seat"));
    assert!(matches!(tag_change(OperatorType::Add, "a b").edit, TagEdit::Keep));

    assert_eq!(cmdline_property_value("root=/dev/sda"), "/dev/sda");
    assert_eq!(cmdline_property_value("quiet"), "1");
    assert_eq!(cmdline_property_value("quiet="), "1");
}

#[test]
fn spawn_plans() {
    let p = plan_spawn("ata_id --export '/dev/sd a'").unwrap();
    assert_eq!(
        p.programs,
        vec!["/lib/udev/ata_id".to_string(), "/lib/devmaster/ata_id".to_string(), "ata_id".to_string()]
    );
    assert_eq!(p.args, vec!["--export".to_string(), "/dev/sd a".to_string()]);
    let p = plan_spawn("/bin/echo hello world").unwrap();
    assert_eq!(p.programs, vec!["/bin/echo".to_string()]);
    assert_eq!(p.args.len(), 2);
    assert_eq!(plan_spawn("   ").unwrap_err(), SpawnError::Empty);
    assert_eq!(plan_spawn("echo 'a").unwrap_err(), SpawnError::Split);
    assert_eq!(plan_from_words(vec![]).unwrap_err(), SpawnError::Empty);
}

#[test]
fn subst_values() {
    let mut u = ExecuteUnitData::new();
    assert_eq!(u.subst_result(Some("x")).unwrap(), "");
    u.set_program_result("  one two\tthree  ");
    assert_eq!(u.subst_result(None).unwrap(), "one two three");
    assert_eq!(u.subst_result(Some("1")).unwrap(), "two");
    assert_eq!(u.subst_result(Some("1+")).unwrap(), "two three");
    assert_eq!(u.subst_result(Some("5")).unwrap(), "");
    assert_eq!(u.subst_result(Some("5+")).unwrap(), "");
    assert_eq!(u.subst_result(Some("a")).unwrap_err(), ExecuteError::ParseInt);
    assert_eq!(u.subst_result(Some("+")).unwrap_err(), ExecuteError::ParseInt);

    assert_eq!(strip_dev("/dev/sda"), "sda");
    assert_eq!(strip_dev("/dev//dev/x"), "x");
    assert_eq!(strip_dev("sda"), "sda");
    assert_eq!(subst_links(&vec!["/dev/disk/a".to_string(), "b".to_string()]), "disk/a b");
    assert_eq!(subst_links(&vec![]), "");

    assert_eq!(u.subst_name(Some("/dev/sda"), "sda"), "sda");
    assert_eq!(u.subst_name(None, "eth0"), "eth0");
    u.apply_name(OperatorType::Assign, true, Some("lan0"), false);
    assert_eq!(u.subst_name(Some("/dev/sda"), "sda"), "lan0");
}

#[test]
fn glob_patterns_and_matching() {
    let ps = glob_set("sd*|hd?").unwrap();
    assert_eq!(ps.len(), 2);
    assert!(globs_match(&ps, "sda1"));
    assert!(globs_match(&ps, "hdb"));
    assert!(!globs_match(&ps, "hdb1"));
    assert!(!globs_match(&ps, "nvme0n1"));
    assert!(pattern_match(OperatorType::Match, &ps, "sda"));
    assert!(!pattern_match(OperatorType::Nomatch, &ps, "sda"));
    assert!(pattern_match(OperatorType::Nomatch, &ps, "vda"));
    assert!(glob_set("[abc").is_none());
    assert!(glob_set("a|{b").is_none());

    let keys = vec!["ID_A".to_string(), "X".to_string(), "ID_B".to_string()];
    assert_eq!(import_parent_keys("ID_*", &keys).unwrap(), vec![0, 2]);
    assert_eq!(import_parent_keys("X|ID_B", &keys).unwrap(), vec![1, 2]);
    assert!(import_parent_keys("[", &keys).is_none());
}

#[test]
fn list_and_mode_tokens() {
    let ps = glob_set("disk/by-id/*").unwrap();
    let links = vec!["disk/by-path/x".to_string(), "disk/by-id/ata-1".to_string()];
    let other = vec!["disk/by-path/x".to_string()];
    assert!(list_match(OperatorType::Match, &ps, &links));
    assert!(!list_match(OperatorType::Nomatch, &ps, &links));
    assert!(!list_match(OperatorType::Match, &ps, &other));
    assert!(list_match(OperatorType::Nomatch, &ps, &other));
    assert!(!list_match(OperatorType::Match, &ps, &vec![]));
    assert!(list_match(OperatorType::Nomatch, &ps, &vec![]));

    assert!(test_mode_match(OperatorType::Match, Some("100"), 0o755));
    assert!(!test_mode_match(OperatorType::Nomatch, Some("100"), 0o755));
    assert!(!test_mode_match(OperatorType::Match, Some("002"), 0o755));
    assert!(test_mode_match(OperatorType::Nomatch, Some("002"), 0o755));
    // an unreadable mode counts as 0
    assert!(!test_mode_match(OperatorType::Match, Some("9"), 0o777));
    assert!(test_mode_match(OperatorType::Nomatch, Some("x"), 0o777));
    assert!(test_mode_match(OperatorType::Match, None, 0));
    assert!(!test_mode_match(OperatorType::Nomatch, None, 0o777));
}

#[test]
fn devlink_priority_values() {

    assert_eq!(devlink_priority("100"), Ok(100));
    assert_eq!(devlink_priority("-10"), Ok(-10));
    assert_eq!(devlink_priority("x"), Err(ExecuteError::ParseInt));
    assert_eq!(devlink_priority("2147483648"), Err(ExecuteError::ParseInt));
}

#[test]
fn iterators_run_to_the_end() {
    let rules = rules_of(&[("a.rules", &["ACTION==\"add\", SYMLINK+=\"x\"", "KERNEL==\"sda\"", "ENV{B}=\"2\""])]);
    let file = &rules.files[0];
    let mut it = file.iter();
    let first = it.next().unwrap();
    assert!(std::ptr::eq(first, &file.lines[0]));
    let rest = it.rest();
    assert_eq!(rest.len(), file.lines.len() - 1);
    for (k, l) in rest.iter().enumerate() {
        assert!(std::ptr::eq(*l, &file.lines[k + 1]));
    }
    assert!(it.next().is_none());
    assert_eq!(file.iter().rest().len(), file.lines.len());

    let line = &file.lines[0];
    let mut it = line.iter();
    let tokens = it.rest();
    assert_eq!(tokens.len(), 2);
    assert!(std::ptr::eq(tokens[1], &line.tokens[1]));
    assert!(it.next().is_none());
    assert!(it.rest().is_empty());
}
