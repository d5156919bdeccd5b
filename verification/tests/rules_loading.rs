use sysmaster_exts::rules::node::escape_prior_dir;
use sysmaster_exts::rules::rules_load::{builtin_command, parse_mode};
use sysmaster_exts::rules::{
    FormatSubstitutionType, OperatorType, ResolveNameTime, RuleFile, RuleLine, RuleToken, Rules, RulesError, SubstituteType,
    TokenType,
};

fn token(key: &str, attr: Option<&str>, op: &str, value: &str, rules: &mut Rules) -> Result<RuleToken, RulesError> {
    RuleToken::parse_token(key.to_string(), attr.map(|a| a.to_string()), op.to_string(), value.to_string(), rules)
}

#[test]
fn rule_load_test_rules_token() {
    assert!(RuleToken::new("ACTION".to_string(), None, "==".to_string(), "add".to_string()).is_ok());
    assert!(RuleToken::new("ACTION".to_string(), None, "!=".to_string(), "add".to_string()).is_ok());
    assert!(RuleToken::new("ACTION".to_string(), None, "*=".to_string(), "add".to_string()).is_err());
    assert!(RuleToken::new("ACTION".to_string(), Some("whatever".to_string()), "==".to_string(), "add".to_string())
        .is_err());
}

#[test]
fn basic_token_kinds() {
    let t = RuleToken::new("SYMLINK".to_string(), None, "+=".to_string(), "disk/x".to_string()).unwrap();
    assert_eq!(t.token_type(), TokenType::AssignDevlink);
    let t = RuleToken::new("SYMLINK".to_string(), None, "==".to_string(), "disk/x".to_string()).unwrap();
    assert_eq!(t.token_type(), TokenType::MatchDevlink);
    assert_eq!(
        RuleToken::new("ACTION".to_string(), None, "=".to_string(), "add".to_string()).unwrap_err(),
        RulesError::OperatorNotAllowed
    );
}

#[test]
fn pattern_line() {
    let l = RuleLine::from_pattern("ACTION==\"add\", SYMLINK+=\"a\"".to_string(), 3).unwrap();
    assert_eq!(l.tokens.len(), 2);
    assert_eq!(l.tokens[0].token_type(), TokenType::MatchAction);
    assert_eq!(l.tokens[1].get_token_value(), "a");
    assert_eq!(l.line_number, 3);
    assert!(RuleLine::from_pattern("ACTION".to_string(), 1).is_err());
}

#[test]
fn rules_load_test_rules_token() {
    let mut rules = Rules::new(vec![], ResolveNameTime::Never);
    assert!(token("ACTION", None, "==", "add", &mut rules).is_ok());
    assert!(token("ACTION", None, "!=", "add", &mut rules).is_ok());
    assert!(token("ACTION", None, "*=", "add", &mut rules).is_err());
    assert!(token("ACTION", Some("whatever"), "==", "add", &mut rules).is_err());
}

#[test]
fn test_rules_token_regex() {
    let mut rules = Rules::new(vec![], ResolveNameTime::Never);
    let t = token("ACTION", None, "==", "add", &mut rules).unwrap();
    println!("{:?}", t);
    let t = token("ACTION", None, "==", ".?.*", &mut rules).unwrap();
    println!("{:?}", t);
    let t = token("ACTION", None, "==", "?*", &mut rules).unwrap();
    println!("{:?}", t);
    let t = token("ACTION", None, "==", "hello|?*|hello*|3279/tty[0-9]*", &mut rules).unwrap();
    println!("{:?}", t);
    let t = token("ACTION", None, "==", "", &mut rules).unwrap();
    println!("{:?}", t);
    let t = token("ACTION", None, "==", "|hello|?*|hello*|3279/tty[0-9]*", &mut rules).unwrap();
    println!("{:?}", t);
    let t = token("ATTR", Some("whatever"), "==", "hello", &mut rules).unwrap();
    println!("{:?}", t);
    let t = token("ATTR", Some("whatever$"), "==", "hello", &mut rules).unwrap();
    println!("{:?}", t);
    let t = token("ATTR", Some("whatever%"), "==", "hello", &mut rules).unwrap();
    println!("{:?}", t);
}

#[test]
fn token_errors_and_normalisation() {
    let mut rules = Rules::new(vec![], ResolveNameTime::Late);
    assert_eq!(token("FOO", None, "==", "x", &mut rules).unwrap_err(), RulesError::UnknownKey);
    assert_eq!(token("ACTION", None, "~=", "x", &mut rules).unwrap_err(), RulesError::InvalidOperator);
    assert_eq!(token("KERNEL", Some("a"), "==", "x", &mut rules).unwrap_err(), RulesError::AttributeNotAllowed);
    assert_eq!(token("ENV", None, "=", "x", &mut rules).unwrap_err(), RulesError::InvalidAttribute);
    assert_eq!(token("ENV", Some("DEVNAME"), "=", "x", &mut rules).unwrap_err(), RulesError::InvalidAttribute);
    assert_eq!(token("NAME", None, "=", "%k", &mut rules).unwrap_err(), RulesError::InvalidValue);
    assert_eq!(token("ATTR", None, "==", "x", &mut rules).unwrap_err(), RulesError::InvalidAttribute);
    assert_eq!(token("ATTR", Some("$bogus"), "==", "x", &mut rules).unwrap_err(), RulesError::InvalidFormat);
    assert_eq!(token("GOTO", None, "==", "x", &mut rules).unwrap_err(), RulesError::OperatorNotAllowed);
    assert_eq!(token("RUN", Some("other"), "+=", "x", &mut rules).unwrap_err(), RulesError::Ignored);
    assert_eq!(token("OPTIONS", None, "=", "link_priority=x", &mut rules).unwrap_err(), RulesError::InvalidValue);

    let t = token("NAME", None, "+=", "eth0", &mut rules).unwrap();
    assert_eq!((t.token_type(), t.op()), (TokenType::AssignName, OperatorType::Assign));
    let t = token("PROGRAM", None, "=", "/bin/true", &mut rules).unwrap();
    assert_eq!((t.token_type(), t.op()), (TokenType::MatchProgram, OperatorType::Match));
    let t = token("OPTIONS", None, "+=", "log_level=rest", &mut rules).unwrap();
    assert_eq!((t.token_type(), t.op(), t.get_token_value()), (TokenType::AssignOptionsLogLevel, OperatorType::Assign, "-1".to_string()));
    let t = token("OPTIONS", None, "=", "watch", &mut rules).unwrap();
    assert_eq!((t.token_type(), t.get_token_value()), (TokenType::AssignOptionsWatch, "true".to_string()));
    let t = token("OPTIONS", None, "=", "static_node=tty0", &mut rules).unwrap();
    assert_eq!((t.token_type(), t.get_token_value()), (TokenType::AssignOptionsStaticNode, "tty0".to_string()));
    let t = token("IMPORT", Some("program"), "==", "path_id %p", &mut rules).unwrap();
    assert_eq!(t.token_type(), TokenType::MatchImportBuiltin);
    let t = token("IMPORT", Some("program"), "=", "/bin/prog", &mut rules).unwrap();
    assert_eq!((t.token_type(), t.op()), (TokenType::MatchImportProgram, OperatorType::Match));
    let t = token("MODE", None, "=", "0660", &mut rules).unwrap();
    assert_eq!(t.token_type(), TokenType::AssignModeId);
    let t = token("MODE", None, "=", "$env{M}", &mut rules).unwrap();
    assert_eq!(t.token_type(), TokenType::AssignMode);
    let t = token("OWNER", None, "=", "$env{O}", &mut rules).unwrap();
    assert_eq!(t.token_type(), TokenType::AssignOwner);
    let t = token("ATTRS", Some("[net/lo]x"), "==", "1", &mut rules).unwrap();
    assert_eq!(t.attr_subst_type(), SubstituteType::Subsys);
    assert!(t.is_for_parents());
    let mut never = Rules::new(vec![], ResolveNameTime::Never);
    assert_eq!(token("OWNER", None, "=", "nobodyname", &mut never).unwrap_err(), RulesError::Ignored);
}

#[test]
fn test_resolve_user_group() {
    let mut rules = Rules::new(vec![], ResolveNameTime::Early);
    assert!(rules.resolve_user("root").is_ok());
    assert!(rules.users.iter().any(|(n, _)| n.as_str() == "root"));
    assert!(rules.resolve_user("abcdefg").is_err());

    assert!(rules.resolve_group("root").is_ok());
    assert!(rules.groups.iter().any(|(n, _)| n.as_str() == "root"));
    assert!(rules.resolve_group("abcdefg").is_err());
}

#[test]
fn resolved_owner_becomes_id() {
    let mut rules = Rules::new(vec![], ResolveNameTime::Early);
    let t = token("OWNER", None, "=", "root", &mut rules).unwrap();
    assert_eq!((t.token_type(), t.get_token_value()), (TokenType::AssignOwnerId, "0".to_string()));
    assert_eq!(rules.users.len(), 1);
    let t = token("GROUP", None, "+=", "0", &mut rules).unwrap();
    assert_eq!((t.token_type(), t.op()), (TokenType::AssignGroupId, OperatorType::Assign));
}

#[test]
fn test_load_line() {
    let mut rules = Rules::new(vec!["test_rules_new_1".to_string(), "test_rules_new_2".to_string()], ResolveNameTime::Early);
    let line = RuleLine::load_line("TAG+=\"hello\"", 0, &mut rules).unwrap();
    let mut iter = line.iter();
    let token = iter.next().unwrap();
    assert_eq!(token.token_type(), TokenType::AssignTag);
    assert_eq!(token.op(), OperatorType::Add);
    assert_eq!(token.get_token_attribute(), None);
    assert_eq!(token.get_token_value(), "hello");

    let line = RuleLine::load_line("TAG   += \"hello\", ENV{hello}=\"world\"", 0, &mut rules).unwrap();
    let mut iter = line.iter();
    let token = iter.next().unwrap();
    assert_eq!(token.token_type(), TokenType::AssignTag);
    assert_eq!(token.op(), OperatorType::Add);
    assert_eq!(token.get_token_attribute(), None);
    assert_eq!(token.get_token_value(), "hello");
    let token = iter.next().unwrap();
    assert_eq!(token.token_type(), TokenType::AssignEnv);
    assert_eq!(token.op(), OperatorType::Assign);
    assert_eq!(token.get_token_attribute(), Some("hello".to_string()));
    assert_eq!(token.get_token_value(), "world");

    let line = RuleLine::load_line(
        "KERNEL==\"md*\", TEST==\"/run/mdadm/creating-$kernel\", ENV{SYSTEMD_READY}=\"0\"",
        0,
        &mut rules,
    )
    .unwrap();
    let mut iter = line.iter();
    let token = iter.next().unwrap();
    assert_eq!(token.token_type(), TokenType::MatchKernel);
    assert_eq!(token.op(), OperatorType::Match);
    assert_eq!(token.get_token_attribute(), None);
    assert_eq!(token.get_token_value(), "md*");
    let token = iter.next().unwrap();
    assert_eq!(token.token_type(), TokenType::MatchTest);
    assert_eq!(token.op(), OperatorType::Match);
    assert_eq!(token.get_token_attribute(), None);
    assert_eq!(token.get_token_value(), "/run/mdadm/creating-$kernel");
    let token = iter.next().unwrap();
    assert_eq!(token.token_type(), TokenType::AssignEnv);
    assert_eq!(token.op(), OperatorType::Assign);
    assert_eq!(token.get_token_attribute(), Some("SYSTEMD_READY".to_string()));
    assert_eq!(token.get_token_value(), "0");
    assert!(iter.next().is_none());
}

#[test]
fn load_line_errors_and_flags() {
    let mut rules = Rules::new(vec![], ResolveNameTime::Late);
    assert_eq!(RuleLine::load_line("tag=\"x\"", 1, &mut rules).unwrap_err(), RulesError::InvalidLine(0));
    assert_eq!(RuleLine::load_line("TAG=\"x\"X", 1, &mut rules).unwrap_err(), RulesError::InvalidLine(7));
    assert_eq!(RuleLine::load_line("FOO=\"x\" X", 1, &mut rules).unwrap_err(), RulesError::UnknownKey);
    let l = RuleLine::load_line("NAME=\"n\", LABEL=\"end\", GOTO=\"end\", SYMLINK+=\"s\", RUN+=\"p\"", 7, &mut rules).unwrap();
    assert!(l.line_type.has_name && l.line_type.has_label && l.line_type.has_goto);
    assert!(l.line_type.has_devlink && l.line_type.update_something && !l.line_type.has_static_node);
    assert_eq!(l.label, Some("end".to_string()));
    assert_eq!(l.goto_label, Some("end".to_string()));
    assert_eq!(l.line_number, 7);
    assert_eq!(RuleLine::load_line("  ", 1, &mut rules).unwrap_err(), RulesError::InvalidLine(2));
}

#[test]
fn load_line_needs_complete_tokens() {
    let mut rules = Rules::new(vec![], ResolveNameTime::Late);
    assert_eq!(RuleLine::load_line("ACTION", 1, &mut rules).unwrap_err(), RulesError::InvalidLine(6));
    assert_eq!(RuleLine::load_line("ACTION==\"change", 1, &mut rules).unwrap_err(), RulesError::InvalidLine(15));
    assert_eq!(RuleLine::load_line("ACTION==", 1, &mut rules).unwrap_err(), RulesError::InvalidLine(8));
    assert_eq!(RuleLine::load_line("ENV{A", 1, &mut rules).unwrap_err(), RulesError::InvalidLine(5));
    assert_eq!(RuleLine::load_line("TAG+=\"x\", ACTION", 1, &mut rules).unwrap_err(), RulesError::InvalidLine(16));
    assert_eq!(RuleLine::load_line(",", 1, &mut rules).unwrap_err(), RulesError::InvalidLine(1));
    let l = RuleLine::load_line("TAG+=\"x\" , ", 1, &mut rules).unwrap();
    assert_eq!(l.tokens.len(), 1);
}

#[test]
fn parse_lines_joins_and_binds() {
    let mut rules = Rules::new(vec![], ResolveNameTime::Late);
    let lines: Vec<String> = vec![
        "# comment".to_string(),
        "ACTION==\"add\", GOTO=\"end\"".to_string(),
        "".to_string(),
        "KERNEL==\"sd*\", \\".to_string(),
        "  SYMLINK+=\"disk\"".to_string(),
        "LABEL=\"end\"".to_string(),
    ];
    let f = RuleFile::load_file("test.rules".to_string(), &lines, &mut rules).unwrap();
    assert_eq!(f.lines.len(), 3);
    assert_eq!(f.lines[0].line_number, 2);
    assert_eq!(f.lines[1].line_number, 4);
    assert_eq!(f.lines[1].line_content, "KERNEL==\"sd*\", SYMLINK+=\"disk\"");
    assert_eq!(f.lines[1].tokens.len(), 2);
    assert_eq!(f.lines[0].goto_line, Some(2));
    assert_eq!(f.lines[2].line_number, 6);
    let mut it = f.iter();
    assert!(it.next().is_some());
    assert!(it.next().is_some());
    assert!(it.next().is_some());
    assert!(it.next().is_none());
}

#[test]
fn missing_label_is_an_error() {
    let mut rules = Rules::new(vec![], ResolveNameTime::Late);
    let lines: Vec<String> = vec!["GOTO=\"nowhere\"".to_string()];
    assert_eq!(RuleFile::load_file("x.rules".to_string(), &lines, &mut rules).unwrap_err(), RulesError::MissingLabel);
    let lines: Vec<String> = vec!["bad".to_string()];
    assert!(rules.parse_file("y.rules".to_string(), &lines).is_err());
    assert!(rules.files.is_empty());
    let lines: Vec<String> = vec!["TAG+=\"t\"".to_string()];
    assert!(rules.parse_file("z.rules".to_string(), &lines).is_ok());
    assert_eq!(rules.files.len(), 1);
    let mut it = rules.iter();
    assert_eq!(it.next().unwrap().file_name, "z.rules");
    assert!(it.next().is_none());
}

#[test]
fn modes_and_builtins() {
    assert_eq!(parse_mode("0644"), Ok(0o644));
    assert_eq!(parse_mode("+7777"), Ok(0o7777));
    assert!(parse_mode("10000").is_err());
    assert!(parse_mode("8").is_err());
    assert!(parse_mode("").is_err());
    assert!(builtin_command(&"usb_id --x".chars().collect()));
    assert!(!builtin_command(&"usbid".chars().collect()));
}

#[test]
fn test_escape_prior_dir() {
    assert_eq!(&escape_prior_dir("aaa/bbb"), "aaa\\x2fbbb");
    assert_eq!(&escape_prior_dir("aaa\\bbb"), "aaa\\x5cbbb");
}

#[test]
fn rules_text_forms() {
    let mut rules = Rules::new(vec![], ResolveNameTime::Never);
    let lines = vec!["# comment".to_string(), "ACTION==\"add\", ENV{A}=\"1\", GOTO=\"x\"".to_string(), "LABEL=\"x\"".to_string()];
    rules.parse_file("00-a.rules".to_string(), &lines).unwrap();
    let f = &rules.files[0];
    assert_eq!(f.get_file_name(), "00-a.rules");
    let l = &f.lines[0];
    assert_eq!(l.tokens[0].get_token_content(), "ACTION==\"add\"");
    assert_eq!(l.tokens[1].get_token_content(), "ENV{A}=\"1\"");
    assert_eq!(l.get_goto_label(), Some("x".to_string()));
    assert_eq!(l.get_label(), None);
    assert_eq!(f.lines[1].get_label(), Some("x".to_string()));
    assert_eq!(
        l.to_text("00-a.rules"),
        "00-a.rules:2:  ACTION==\"add\", ENV{A}=\"1\", GOTO=\"x\"\nACTION==\"add\"\nENV{A}=\"1\"\nGOTO=\"x\""
    );
    assert_eq!(
        f.to_text(),
        "File: 00-a.rules\n00-a.rules:2:  ACTION==\"add\", ENV{A}=\"1\", GOTO=\"x\"\nACTION==\"add\"\nENV{A}=\"1\"\nGOTO=\"x\"\n00-a.rules:3:  LABEL=\"x\"\nLABEL=\"x\""
    );
    assert_eq!(FormatSubstitutionType::KernelNumber.name(), "kernel number");
    assert_eq!(rules.get_line_number(0, 0), 2);
    assert_eq!(rules.get_line_number(0, 1), 3);
    assert_eq!(rules.get_file_name(0), "00-a.rules");
}

#[test]
fn rule_files_in_load_order() {
    let paths: Vec<String> = vec![
        "/etc/devmaster/rules.d/99-b.rules",
        "/lib/devmaster/rules.d/10-a.rules",
        "/etc/devmaster/rules.d/README",
        "/lib/devmaster/rules.d/99-b.rules",
        "/lib/devmaster/rules.d/50-c.rules.bak",
        "/run/devmaster/rules.d/00-z.rules",
    ]
    .into_iter()
    .map(|s| s.to_string())
    .collect();
    assert_eq!(sysmaster_exts::rules::rule_files::rule_file_order(&paths), vec![5, 1, 0, 3]);
    assert!(sysmaster_exts::rules::rule_files::rule_file_order(&vec![]).is_empty());
}

#[test]
fn line_add_token() {
    let mut line = RuleLine::new("ACTION==\"add\"".to_string(), 3);
    let t = RuleToken::new("ACTION".to_string(), None, "==".to_string(), "add".to_string()).unwrap();
    line.add_token(t);
    assert_eq!(line.tokens.len(), 1);
    assert_eq!(line.tokens[0].get_token_value(), "add");
    assert_eq!(line.line_number, 3);
}

#[test]
fn owner_tokens_leave_late_rules_unchanged() {
    let mut late = Rules::new(vec![], ResolveNameTime::Late);
    let t = token("OWNER", None, "=", "root", &mut late).unwrap();
    assert_eq!(t.token_type(), TokenType::AssignOwner);
    let t = token("GROUP", None, "=", "root", &mut late).unwrap();
    assert_eq!(t.token_type(), TokenType::AssignGroup);
    assert!(late.users.is_empty() && late.groups.is_empty());

    let mut early = Rules::new(vec![], ResolveNameTime::Early);
    assert_eq!(token("OWNER", None, "*=", "root", &mut early).unwrap_err(), RulesError::InvalidOperator);
    assert!(early.users.is_empty() && early.groups.is_empty());
}
