//! Loading rules: what each `KEY{attr} op "value"` element becomes, the
//! scanner of rule lines, the joining of continued lines, the binding of
//! `GOTO` to `LABEL`, and the caches of user and group names.

use vstd::prelude::*;
use vstd::utf8::{encode_utf8, is_ascii_chars};
use crate::rules::{
    eq_lit, operator_of, opt_view, subst_for, substitute_type_of, OperatorType, ResolveNameTime,
    RuleFile, RuleLine, RuleLineType, RuleToken, Rules, RulesError, SubstituteType, TokenType,
};
use crate::text::{
    chars_of, decimal, decimal_string, find_char, has_prefix_at, is_prefix, len_before, parse_int,
    parse_int_range, string_from_range, string_of,
};
use crate::utils::commons::{check_attr_format, format_scan, Scan};

verus! {

/// Kind, operator, attribute and value of a token.
pub type TokenParts = (TokenType, OperatorType, Option<Seq<char>>, Seq<char>);

/// The operator only compares (`==` or `!=`).
pub open spec fn is_match_op(op: OperatorType) -> bool {
    op == OperatorType::Match || op == OperatorType::Nomatch
}

/// A comparing key without attribute: `ACTION`, `DEVPATH`, `KERNEL`,
/// `SUBSYSTEM`, `DRIVER`, `KERNELS`, `SUBSYSTEMS`, `DRIVERS`, `TAGS`,
/// `RESULT`.
pub open spec fn match_only(t: TokenType, attr: Option<Seq<char>>, op: OperatorType, value: Seq<char>) -> Result<TokenParts, RulesError> {
    if attr is Some {
        Err(RulesError::AttributeNotAllowed)
    } else if !is_match_op(op) {
        Err(RulesError::OperatorNotAllowed)
    } else {
        Ok((t, op, None, value))
    }
}

/// Variables that an `ENV` assignment may not set.
pub open spec fn env_reserved(a: Seq<char>) -> bool {
    ||| a == "ACTION"@
    ||| a == "DEVLINKS"@
    ||| a == "DEVNAME"@
    ||| a == "DEVTYPE"@
    ||| a == "DRIVER"@
    ||| a == "IFINDEX"@
    ||| a == "MAJOR"@
    ||| a == "MINOR"@
    ||| a == "SEQNUM"@
    ||| a == "SUBSYSTEM"@
    ||| a == "TAGS"@
}

/// `c` is an octal digit.
pub open spec fn octal_digit(c: char) -> bool {
    '0' <= c && c <= '7'
}

/// Numeric value of a string of octal digits.
pub open spec fn octal_value(s: Seq<char>) -> int
    decreases s.len(),
{
    if s.len() == 0 {
        0
    } else {
        8 * octal_value(s.drop_last()) + (s.last() as int - '0' as int)
    }
}

/// Every character of `s` is an octal digit.
pub open spec fn all_octal(s: Seq<char>) -> bool {
    forall|i: int| 0 <= i < s.len() ==> octal_digit(#[trigger] s[i])
}

/// `s` without a leading `+`.
pub open spec fn unsigned_digits(s: Seq<char>) -> Seq<char> {
    if s.len() > 0 && s[0] == '+' { s.drop_first() } else { s }
}

/// The file mode that `s` spells: an optional `+` and at least one octal
/// digit, of value at most `0o7777`.
pub open spec fn mode_of(s: Seq<char>) -> Option<int> {
    let d = unsigned_digits(s);
    if d.len() > 0 && all_octal(d) && octal_value(d) <= 0o7777 {
        Some(octal_value(d))
    } else {
        None
    }
}

/// `s` is the decimal form of a user or group id (an unsigned 32-bit
/// number as Rust reads it).
pub open spec fn id_syntax(s: Seq<char>) -> bool {
    parse_int(s, 0, u32::MAX as int, false) is Some
}

/// The command word of a builtin invocation: `s` up to the first space.
pub open spec fn command_word(s: Seq<char>) -> Seq<char> {
    s.subrange(0, len_before(s, ' '))
}

/// The command word of `s` names one of the builtins.
pub open spec fn is_builtin(s: Seq<char>) -> bool {
    let w = command_word(s);
    ||| w == "blkid"@
    ||| w == "btrfs"@
    ||| w == "hwdb"@
    ||| w == "input_id"@
    ||| w == "keyboard"@
    ||| w == "kmod"@
    ||| w == "net_id"@
    ||| w == "net_setup_link"@
    ||| w == "path_id"@
    ||| w == "usb_id"@
    ||| w == "uaccess"@
}

/// What `check_attr_format` gives for an optional attribute.
pub open spec fn attr_check(a: Option<Seq<char>>) -> Result<(), RulesError> {
    let s = match a { Some(s) => s, None => Seq::empty() };
    if s.len() == 0 {
        Err(RulesError::InvalidAttribute)
    } else if format_scan(encode_utf8(s), 0) == Scan::Valid {
        Ok(())
    } else {
        Err(RulesError::InvalidFormat)
    }
}

/// `OPTIONS` with its value (the operator already normalised).
pub open spec fn options_outcome(op: OperatorType, value: Seq<char>) -> Result<TokenParts, RulesError> {
    if value == "string_escape=none"@ {
        Ok((TokenType::AssignOptionsStringEscapeNone, op, None, Seq::empty()))
    } else if value == "string_escape=replace"@ {
        Ok((TokenType::AssignOptionsStringEscapeReplace, op, None, Seq::empty()))
    } else if value == "db_persist"@ {
        Ok((TokenType::AssignOptionsDbPersist, op, None, Seq::empty()))
    } else if value == "watch"@ {
        Ok((TokenType::AssignOptionsWatch, op, None, "true"@))
    } else if value == "nowatch"@ {
        Ok((TokenType::AssignOptionsWatch, op, None, "false"@))
    } else if is_prefix("static_node="@, value) {
        Ok((TokenType::AssignOptionsStaticNode, op, None, value.skip("static_node="@.len() as int)))
    } else if is_prefix("link_priority="@, value) {
        let rest = value.skip("link_priority="@.len() as int);
        if parse_int(rest, i32::MIN as int, i32::MAX as int, true) is None {
            Err(RulesError::InvalidValue)
        } else {
            Ok((TokenType::AssignOptionsDevlinkPriority, op, None, rest))
        }
    } else if is_prefix("log_level="@, value) {
        let rest = value.skip("log_level="@.len() as int);
        if rest == "rest"@ {
            Ok((TokenType::AssignOptionsLogLevel, op, None, "-1"@))
        } else if parse_int(rest, i32::MIN as int, i32::MAX as int, true) is None {
            Err(RulesError::InvalidValue)
        } else {
            Ok((TokenType::AssignOptionsLogLevel, op, None, rest))
        }
    } else {
        Err(RulesError::InvalidValue)
    }
}

/// `OWNER` (or `GROUP`): `id_ok` tells whether the value is the id of an
/// existing user (group); `resolved` is what resolving the value as a
/// name gave, where that is done.
pub open spec fn owner_outcome(
    owner: bool,
    attr: Option<Seq<char>>,
    op: OperatorType,
    value: Seq<char>,
    time: ResolveNameTime,
    id_ok: bool,
    resolved: Option<u32>,
) -> Result<TokenParts, RulesError> {
    let by_id = if owner { TokenType::AssignOwnerId } else { TokenType::AssignGroupId };
    let by_name = if owner { TokenType::AssignOwner } else { TokenType::AssignGroup };
    if attr is Some {
        Err(RulesError::AttributeNotAllowed)
    } else if is_match_op(op) || op == OperatorType::Remove {
        Err(RulesError::OperatorNotAllowed)
    } else {
        let op2 = if op == OperatorType::Add { OperatorType::Assign } else { op };
        if id_ok {
            Ok((by_id, op2, None, value))
        } else if time == ResolveNameTime::Early && substitute_type_of(value) == SubstituteType::Plain {
            match resolved {
                Some(id) => Ok((by_id, op2, None, decimal(id as nat))),
                None => Err(RulesError::UnresolvedName),
            }
        } else if time != ResolveNameTime::Never {
            Ok((by_name, op2, None, value))
        } else {
            Err(RulesError::Ignored)
        }
    }
}

/// `IMPORT{attr}` (the operator already normalised).
pub open spec fn import_outcome(a: Seq<char>, op: OperatorType, value: Seq<char>) -> Result<TokenParts, RulesError> {
    if a == "file"@ {
        Ok((TokenType::MatchImportFile, op, Some(a), value))
    } else if a == "program"@ {
        if is_builtin(value) {
            Ok((TokenType::MatchImportBuiltin, op, Some(a), value))
        } else {
            Ok((TokenType::MatchImportProgram, op, Some(a), value))
        }
    } else if a == "builtin"@ {
        if is_builtin(value) {
            Ok((TokenType::MatchImportBuiltin, op, Some(a), value))
        } else {
            Err(RulesError::InvalidValue)
        }
    } else if a == "db"@ {
        Ok((TokenType::MatchImportDb, op, Some(a), value))
    } else if a == "cmdline"@ {
        Ok((TokenType::MatchImportCmdline, op, Some(a), value))
    } else if a == "parent"@ {
        Ok((TokenType::MatchImportParent, op, Some(a), value))
    } else {
        Err(RulesError::InvalidAttribute)
    }
}

/// `ATTR` and `SYSCTL` (both become attribute tokens), and `ATTRS`.
pub open spec fn attr_outcome(parents: bool, attr: Option<Seq<char>>, op: OperatorType, value: Seq<char>) -> Result<TokenParts, RulesError> {
    if attr_check(attr) is Err {
        Err(attr_check(attr)->Err_0)
    } else if parents {
        if !is_match_op(op) {
            Err(RulesError::OperatorNotAllowed)
        } else {
            Ok((TokenType::MatchParentsAttr, op, attr, value))
        }
    } else if op == OperatorType::Remove {
        Err(RulesError::OperatorNotAllowed)
    } else {
        let op2 = if op == OperatorType::Add || op == OperatorType::AssignFinal {
            OperatorType::Assign
        } else {
            op
        };
        if !is_match_op(op) {
            Ok((TokenType::AssignAttr, op2, attr, value))
        } else {
            Ok((TokenType::MatchAttr, op2, attr, value))
        }
    }
}

/// The token kind of the comparing keys without attribute.
pub open spec fn simple_kind(key: Seq<char>) -> Option<TokenType> {
    if key == "ACTION"@ {
        Some(TokenType::MatchAction)
    } else if key == "DEVPATH"@ {
        Some(TokenType::MatchDevpath)
    } else if key == "KERNEL"@ {
        Some(TokenType::MatchKernel)
    } else if key == "SUBSYSTEM"@ {
        Some(TokenType::MatchSubsystem)
    } else if key == "DRIVER"@ {
        Some(TokenType::MatchDriver)
    } else if key == "KERNELS"@ {
        Some(TokenType::MatchParentsKernel)
    } else if key == "SUBSYSTEMS"@ {
        Some(TokenType::MatchParentsSubsystem)
    } else if key == "DRIVERS"@ {
        Some(TokenType::MatchParentsDriver)
    } else if key == "TAGS"@ {
        Some(TokenType::MatchParentsTag)
    } else if key == "RESULT"@ {
        Some(TokenType::MatchResult)
    } else {
        None
    }
}

/// Keys that compare or assign plain values: the comparing keys without
/// attribute, `SYMLINK`, `NAME`, `ENV`, `CONST` and `TAG` (`None` for
/// other keys).
pub open spec fn general_outcome(key: Seq<char>, attr: Option<Seq<char>>, op: OperatorType, value: Seq<char>) -> Option<Result<TokenParts, RulesError>> {
    let m = is_match_op(op);
    if simple_kind(key) is Some {
        Some(match_only(simple_kind(key)->Some_0, attr, op, value))
    } else if key == "SYMLINK"@ {
        Some(if attr is Some {
            Err(RulesError::AttributeNotAllowed)
        } else if !m {
            Ok((TokenType::AssignDevlink, op, None, value))
        } else {
            Ok((TokenType::MatchDevlink, op, None, value))
        })
    } else if key == "NAME"@ {
        Some(if attr is Some {
            Err(RulesError::AttributeNotAllowed)
        } else if op == OperatorType::Remove {
            Err(RulesError::OperatorNotAllowed)
        } else {
            let op2 = if op == OperatorType::Add { OperatorType::Assign } else { op };
            if !m {
                if value == "%k"@ || value.len() == 0 {
                    Err(RulesError::InvalidValue)
                } else {
                    Ok((TokenType::AssignName, op2, None, value))
                }
            } else {
                Ok((TokenType::MatchName, op2, None, value))
            }
        })
    } else if key == "ENV"@ {
        Some(if attr is None {
            Err(RulesError::InvalidAttribute)
        } else if op == OperatorType::Remove {
            Err(RulesError::OperatorNotAllowed)
        } else {
            let op2 = if op == OperatorType::AssignFinal { OperatorType::Assign } else { op };
            if !m {
                if env_reserved(attr->Some_0) {
                    Err(RulesError::InvalidAttribute)
                } else {
                    Ok((TokenType::AssignEnv, op2, attr, value))
                }
            } else {
                Ok((TokenType::MatchEnv, op2, attr, value))
            }
        })
    } else if key == "CONST"@ {
        Some(if attr is None || !(attr->Some_0 == "arch"@ || attr->Some_0 == "virt"@) {
            Err(RulesError::InvalidAttribute)
        } else if !m {
            Err(RulesError::OperatorNotAllowed)
        } else {
            Ok((TokenType::MatchConst, op, attr, value))
        })
    } else if key == "TAG"@ {
        Some(if attr is Some {
            Err(RulesError::AttributeNotAllowed)
        } else {
            let op2 = if op == OperatorType::AssignFinal { OperatorType::Assign } else { op };
            if !m {
                Ok((TokenType::AssignTag, op2, None, value))
            } else {
                Ok((TokenType::MatchTag, op2, None, value))
            }
        })
    } else {
        None
    }
}

/// Keys whose attribute or value is checked: `ATTR`, `SYSCTL`, `ATTRS`,
/// `TEST`, `PROGRAM`, `IMPORT` and `OPTIONS` (`None` for other keys).
pub open spec fn checked_outcome(key: Seq<char>, attr: Option<Seq<char>>, op: OperatorType, value: Seq<char>) -> Option<Result<TokenParts, RulesError>> {
    let m = is_match_op(op);
    if key == "ATTR"@ || key == "SYSCTL"@ {
        Some(attr_outcome(false, attr, op, value))
    } else if key == "ATTRS"@ {
        Some(attr_outcome(true, attr, op, value))
    } else if key == "TEST"@ {
        Some(if attr is Some && mode_of(attr->Some_0) is None {
            Err(RulesError::InvalidAttribute)
        } else if !m {
            Err(RulesError::OperatorNotAllowed)
        } else {
            Ok((TokenType::MatchTest, op, attr, value))
        })
    } else if key == "PROGRAM"@ {
        Some(if attr is Some {
            Err(RulesError::AttributeNotAllowed)
        } else if op == OperatorType::Remove {
            Err(RulesError::OperatorNotAllowed)
        } else {
            let op2 = if !m { OperatorType::Match } else { op };
            Ok((TokenType::MatchProgram, op2, None, value))
        })
    } else if key == "IMPORT"@ {
        Some(if attr is None {
            Err(RulesError::InvalidAttribute)
        } else {
            let op2 = if !m { OperatorType::Match } else { op };
            import_outcome(attr->Some_0, op2, value)
        })
    } else if key == "OPTIONS"@ {
        Some(if attr is Some {
            Err(RulesError::AttributeNotAllowed)
        } else if m || op == OperatorType::Remove {
            Err(RulesError::OperatorNotAllowed)
        } else {
            let op2 = if op == OperatorType::Add { OperatorType::Assign } else { op };
            options_outcome(op2, value)
        })
    } else {
        None
    }
}

/// Keys that only assign: `MODE`, `SECLABEL`, `RUN`, `GOTO` and `LABEL`
/// (`None` for other keys).
pub open spec fn assign_outcome(key: Seq<char>, attr: Option<Seq<char>>, op: OperatorType, value: Seq<char>) -> Option<Result<TokenParts, RulesError>> {
    let m = is_match_op(op);
    if key == "MODE"@ {
        Some(if attr is Some {
            Err(RulesError::AttributeNotAllowed)
        } else if m || op == OperatorType::Remove {
            Err(RulesError::OperatorNotAllowed)
        } else {
            let op2 = if op == OperatorType::Add { OperatorType::Assign } else { op };
            if mode_of(value) is Some {
                Ok((TokenType::AssignModeId, op2, None, value))
            } else {
                Ok((TokenType::AssignMode, op2, None, value))
            }
        })
    } else if key == "SECLABEL"@ {
        Some(if attr is None {
            Err(RulesError::InvalidAttribute)
        } else if m || op == OperatorType::Remove {
            Err(RulesError::OperatorNotAllowed)
        } else {
            let op2 = if op == OperatorType::AssignFinal { OperatorType::Assign } else { op };
            Ok((TokenType::AssignSeclabel, op2, attr, value))
        })
    } else if key == "RUN"@ {
        Some(if m || op == OperatorType::Remove {
            Err(RulesError::OperatorNotAllowed)
        } else if attr is None || attr->Some_0 == "program"@ {
            Ok((TokenType::AssignRunProgram, op, None, value))
        } else if attr->Some_0 == "builtin"@ {
            if is_builtin(value) {
                Ok((TokenType::AssignRunBuiltin, op, attr, value))
            } else {
                Err(RulesError::InvalidValue)
            }
        } else {
            Err(RulesError::Ignored)
        })
    } else if key == "GOTO"@ || key == "LABEL"@ {
        Some(if attr is Some {
            Err(RulesError::AttributeNotAllowed)
        } else if op != OperatorType::Assign {
            Err(RulesError::OperatorNotAllowed)
        } else if key == "GOTO"@ {
            Ok((TokenType::Goto, op, None, value))
        } else {
            Ok((TokenType::Label, op, None, value))
        })
    } else {
        None
    }
}

/// What a `key{attr} op value` element becomes, for the given name
/// resolution time; `id_ok` and `resolved` matter for `OWNER` and `GROUP`
/// only (see `owner_outcome`).
pub open spec fn token_outcome(
    key: Seq<char>,
    attr: Option<Seq<char>>,
    op_str: Seq<char>,
    value: Seq<char>,
    time: ResolveNameTime,
    id_ok: bool,
    resolved: Option<u32>,
) -> Result<TokenParts, RulesError> {
    match operator_of(op_str) {
        None => Err(RulesError::InvalidOperator),
        Some(op) => {
            if general_outcome(key, attr, op, value) is Some {
                general_outcome(key, attr, op, value)->Some_0
            } else if checked_outcome(key, attr, op, value) is Some {
                checked_outcome(key, attr, op, value)->Some_0
            } else if key == "OWNER"@ {
                owner_outcome(true, attr, op, value, time, id_ok, resolved)
            } else if key == "GROUP"@ {
                owner_outcome(false, attr, op, value, time, id_ok, resolved)
            } else if assign_outcome(key, attr, op, value) is Some {
                assign_outcome(key, attr, op, value)->Some_0
            } else {
                Err(RulesError::UnknownKey)
            }
        },
    }
}

/// The operator that a token of `key` keeps when written with `op`:
/// `NAME`, `OWNER`, `GROUP`, `MODE` and `OPTIONS` take `+=` as `=`;
/// `ENV`, `TAG` and `SECLABEL` take `:=` as `=`; `ATTR` and `SYSCTL` take
/// both as `=`; `IMPORT` and `PROGRAM` always compare with `==` unless
/// written with `!=`; every other key keeps its operator.
pub open spec fn normalized_op(key: Seq<char>, op: OperatorType) -> OperatorType {
    if (key == "NAME"@ || key == "OWNER"@ || key == "GROUP"@ || key == "MODE"@ || key == "OPTIONS"@)
        && op == OperatorType::Add {
        OperatorType::Assign
    } else if (key == "ENV"@ || key == "TAG"@ || key == "SECLABEL"@) && op == OperatorType::AssignFinal {
        OperatorType::Assign
    } else if (key == "ATTR"@ || key == "SYSCTL"@) && (op == OperatorType::Add || op == OperatorType::AssignFinal) {
        OperatorType::Assign
    } else if (key == "IMPORT"@ || key == "PROGRAM"@) && !is_match_op(op) {
        OperatorType::Match
    } else {
        op
    }
}

/// Law: a rule element that parses into a token keeps the operator it was
/// written with, but for the keys that [`normalized_op`] names, whatever
/// the name resolution time and the outcome of a name lookup.
pub proof fn law_token_operator(
    key: Seq<char>,
    attr: Option<Seq<char>>,
    op_str: Seq<char>,
    value: Seq<char>,
    time: ResolveNameTime,
    id_ok: bool,
    resolved: Option<u32>,
)
    requires
        token_outcome(key, attr, op_str, value, time, id_ok, resolved) is Ok,
    ensures
        operator_of(op_str) is Some,
        token_outcome(key, attr, op_str, value, time, id_ok, resolved)->Ok_0.1
            == normalized_op(key, operator_of(op_str)->Some_0),
{
    reveal_strlit("ACTION");
    assert("ACTION"@.len() == 6 && "ACTION"@[0] == 'A');
    reveal_strlit("DEVPATH");
    assert("DEVPATH"@.len() == 7 && "DEVPATH"@[0] == 'D');
    reveal_strlit("KERNEL");
    assert("KERNEL"@.len() == 6 && "KERNEL"@[0] == 'K');
    reveal_strlit("SUBSYSTEM");
    assert("SUBSYSTEM"@.len() == 9 && "SUBSYSTEM"@[0] == 'S');
    reveal_strlit("DRIVER");
    assert("DRIVER"@.len() == 6 && "DRIVER"@[0] == 'D');
    reveal_strlit("KERNELS");
    assert("KERNELS"@.len() == 7 && "KERNELS"@[0] == 'K');
    reveal_strlit("SUBSYSTEMS");
    assert("SUBSYSTEMS"@.len() == 10 && "SUBSYSTEMS"@[0] == 'S');
    reveal_strlit("DRIVERS");
    assert("DRIVERS"@.len() == 7 && "DRIVERS"@[0] == 'D');
    reveal_strlit("TAGS");
    assert("TAGS"@.len() == 4 && "TAGS"@[0] == 'T');
    reveal_strlit("RESULT");
    assert("RESULT"@.len() == 6 && "RESULT"@[0] == 'R');
    reveal_strlit("SYMLINK");
    assert("SYMLINK"@.len() == 7 && "SYMLINK"@[0] == 'S');
    reveal_strlit("NAME");
    assert("NAME"@.len() == 4 && "NAME"@[0] == 'N');
    reveal_strlit("ENV");
    assert("ENV"@.len() == 3 && "ENV"@[0] == 'E');
    reveal_strlit("CONST");
    assert("CONST"@.len() == 5 && "CONST"@[0] == 'C');
    reveal_strlit("TAG");
    assert("TAG"@.len() == 3 && "TAG"@[0] == 'T');
    reveal_strlit("ATTR");
    assert("ATTR"@.len() == 4 && "ATTR"@[0] == 'A');
    reveal_strlit("SYSCTL");
    assert("SYSCTL"@.len() == 6 && "SYSCTL"@[0] == 'S');
    reveal_strlit("ATTRS");
    assert("ATTRS"@.len() == 5 && "ATTRS"@[0] == 'A');
    reveal_strlit("TEST");
    assert("TEST"@.len() == 4 && "TEST"@[0] == 'T');
    reveal_strlit("PROGRAM");
    assert("PROGRAM"@.len() == 7 && "PROGRAM"@[0] == 'P');
    reveal_strlit("IMPORT");
    assert("IMPORT"@.len() == 6 && "IMPORT"@[0] == 'I');
    reveal_strlit("OPTIONS");
    assert("OPTIONS"@.len() == 7 && "OPTIONS"@[0] == 'O');
    reveal_strlit("OWNER");
    assert("OWNER"@.len() == 5 && "OWNER"@[0] == 'O');
    reveal_strlit("GROUP");
    assert("GROUP"@.len() == 5 && "GROUP"@[0] == 'G');
    reveal_strlit("MODE");
    assert("MODE"@.len() == 4 && "MODE"@[0] == 'M');
    reveal_strlit("SECLABEL");
    assert("SECLABEL"@.len() == 8 && "SECLABEL"@[0] == 'S');
    reveal_strlit("RUN");
    assert("RUN"@.len() == 3 && "RUN"@[0] == 'R');
    reveal_strlit("GOTO");
    assert("GOTO"@.len() == 4 && "GOTO"@[0] == 'G');
    reveal_strlit("LABEL");
    assert("LABEL"@.len() == 5 && "LABEL"@[0] == 'L');
}

/// The key is `OWNER` or `GROUP`, whose outcome depends on the system's
/// user and group databases.
pub open spec fn looks_up_names(key: Seq<char>) -> bool {
    key == "OWNER"@ || key == "GROUP"@
}

/// The parts of a parsed token, or its error.
pub open spec fn token_view(r: Result<RuleToken, RulesError>) -> Result<TokenParts, RulesError> {
    match r {
        Ok(t) => Ok(t.parts()),
        Err(e) => Err(e),
    }
}



impl RuleToken {
    /// Builds a token of the given kind; for `ATTR` and `ATTRS` matches
    /// the substitution kind of the attribute is derived.
    pub fn from_parts(token_type: TokenType, op: OperatorType, attr: Option<String>, value: String) -> (t: RuleToken)
        ensures
            t.parts() == (token_type, op, opt_view(attr), value@),
            t.wf(),
    {
        let is_attr = match token_type {
            TokenType::MatchAttr => true,
            TokenType::MatchParentsAttr => true,
            _ => false,
        };
        let attr_subst_type = if is_attr {
            let kind = match &attr {
                Some(a) => SubstituteType::from_str(a.as_str()),
                None => SubstituteType::from_str(""),
            };
            match kind {
                Ok(k) => k,
                Err(_) => SubstituteType::Invalid,
            }
        } else {
            SubstituteType::Invalid
        };
        proof {
            if is_attr && attr is None {
                assert(""@.len() == 0) by {
                    reveal_strlit("");
                }
                assert(""@ =~= Seq::<char>::empty());
            }
        }
        RuleToken { token_type, op, attr_subst_type, attr, value }
    }
}

proof fn lemma_octal_nonneg(s: Seq<char>)
    requires
        all_octal(s),
    ensures
        octal_value(s) >= 0,
    decreases s.len(),
{
    if s.len() > 0 {
        let d = s.drop_last();
        assert forall|i: int| 0 <= i < d.len() implies octal_digit(#[trigger] d[i]) by {
            assert(d[i] == s[i]);
        }
        lemma_octal_nonneg(d);
        assert(octal_digit(s[s.len() - 1]));
    }
}

proof fn lemma_octal_mono(s: Seq<char>, n: int)
    requires
        all_octal(s),
        0 <= n <= s.len(),
    ensures
        octal_value(s.subrange(0, n)) <= octal_value(s),
    decreases s.len() - n,
{
    if n < s.len() {
        let t = s.subrange(0, n + 1);
        assert(t.drop_last() =~= s.subrange(0, n));
        assert(octal_digit(s[n]));
        let p = s.subrange(0, n);
        assert forall|i: int| 0 <= i < p.len() implies octal_digit(#[trigger] p[i]) by {
            assert(p[i] == s[i]);
        }
        lemma_octal_nonneg(p);
        lemma_octal_mono(s, n + 1);
    } else {
        assert(s.subrange(0, n) =~= s);
    }
}

/// Parses a file mode: an optional `+` and octal digits, at most `0o7777`.
pub fn parse_mode(s: &str) -> (r: Result<u32, RulesError>)
    ensures
        r matches Ok(m) ==> mode_of(s@) == Some(m as int),
        r is Err ==> mode_of(s@) is None,
        r matches Err(e) ==> e == RulesError::InvalidValue,
{
    let v = chars_of(s);
    let first: usize = if v.len() > 0 && v[0] == '+' { 1 } else { 0 };
    let ghost d = unsigned_digits(s@);
    assert(d =~= v@.subrange(first as int, v@.len() as int));
    if first == v.len() {
        return Err(RulesError::InvalidValue);
    }
    let mut acc: u32 = 0;
    let mut i: usize = first;
    while i < v.len()
        invariant
            first <= i <= v.len(),
            first < v.len(),
            v@ == s@,
            d == unsigned_digits(s@),
            d == v@.subrange(first as int, v@.len() as int),
            forall|k: int| 0 <= k < i - first ==> octal_digit(#[trigger] d[k]),
            acc == octal_value(d.subrange(0, i - first)),
            acc <= 0o7777,
        decreases v.len() - i,
    {
        let c = v[i];
        if !('0' <= c && c <= '7') {
            assert(d[i - first] == c);
            assert(!octal_digit(d[i - first]));
            assert(!all_octal(d));
            return Err(RulesError::InvalidValue);
        }
        let ghost pre = d.subrange(0, i - first);
        let ghost post = d.subrange(0, i + 1 - first);
        assert(post.drop_last() =~= pre);
        acc = acc * 8 + (c as u32 - '0' as u32);
        i += 1;
        if acc > 0o7777 {
            proof {
                if all_octal(d) {
                    lemma_octal_mono(d, i - first);
                }
            }
            return Err(RulesError::InvalidValue);
        }
    }
    assert(d.subrange(0, v.len() - first) =~= d);
    Ok(acc)
}

/// The value of `s` read as an octal `u32` (as `u32::from_str_radix`
/// with radix 8 reads it): an optional `+` and at least one octal digit,
/// of value at most `u32::MAX`.
pub open spec fn octal_u32_of(s: Seq<char>) -> Option<int> {
    let d = unsigned_digits(s);
    if d.len() > 0 && all_octal(d) && octal_value(d) <= u32::MAX {
        Some(octal_value(d))
    } else {
        None
    }
}

/// Reads `s` as an octal `u32`.
pub fn parse_octal_u32(s: &str) -> (r: Option<u32>)
    ensures
        r matches Some(m) ==> octal_u32_of(s@) == Some(m as int),
        r is None ==> octal_u32_of(s@) is None,
{
    let v = chars_of(s);
    let first: usize = if v.len() > 0 && v[0] == '+' { 1 } else { 0 };
    let ghost d = unsigned_digits(s@);
    assert(d =~= v@.subrange(first as int, v@.len() as int));
    if first == v.len() {
        return None;
    }
    let mut acc: u64 = 0;
    let mut i: usize = first;
    while i < v.len()
        invariant
            first <= i <= v.len(),
            first < v.len(),
            v@ == s@,
            d == unsigned_digits(s@),
            d == v@.subrange(first as int, v@.len() as int),
            forall|k: int| 0 <= k < i - first ==> octal_digit(#[trigger] d[k]),
            acc == octal_value(d.subrange(0, i - first)),
            acc <= u32::MAX,
        decreases v.len() - i,
    {
        let c = v[i];
        if !('0' <= c && c <= '7') {
            assert(d[i - first] == c);
            assert(!octal_digit(d[i - first]));
            assert(!all_octal(d));
            return None;
        }
        let ghost pre = d.subrange(0, i - first);
        let ghost post = d.subrange(0, i + 1 - first);
        assert(post.drop_last() =~= pre);
        acc = acc * 8 + (c as u32 - '0' as u32) as u64;
        i += 1;
        if acc > u32::MAX as u64 {
            proof {
                if all_octal(d) {
                    lemma_octal_mono(d, i - first);
                }
            }
            return None;
        }
    }
    assert(d.subrange(0, v.len() - first) =~= d);
    Some(acc as u32)
}

/// Whether `v` names a builtin command (by its first word).
pub fn builtin_command(v: &Vec<char>) -> (r: bool)
    ensures
        r == is_builtin(v@),
{
    let end = find_char(v, 0, ' ');
    assert(v@.subrange(0, v@.len() as int) =~= v@);
    let w = chars_of(string_from_range(v, 0, end).as_str());
    assert(w@ == command_word(v@));
    eq_lit(&w, "blkid") || eq_lit(&w, "btrfs") || eq_lit(&w, "hwdb") || eq_lit(&w, "input_id")
        || eq_lit(&w, "keyboard") || eq_lit(&w, "kmod") || eq_lit(&w, "net_id") || eq_lit(&w, "net_setup_link")
        || eq_lit(&w, "path_id") || eq_lit(&w, "usb_id") || eq_lit(&w, "uaccess")
}

fn is_env_reserved(a: &Vec<char>) -> (r: bool)
    ensures
        r == env_reserved(a@),
{
    eq_lit(a, "ACTION") || eq_lit(a, "DEVLINKS") || eq_lit(a, "DEVNAME") || eq_lit(a, "DEVTYPE")
        || eq_lit(a, "DRIVER") || eq_lit(a, "IFINDEX") || eq_lit(a, "MAJOR") || eq_lit(a, "MINOR")
        || eq_lit(a, "SEQNUM") || eq_lit(a, "SUBSYSTEM") || eq_lit(a, "TAGS")
}

/// `nix::unistd::User::from_uid`: the uid of the user database entry for
/// `uid`, if there is one. What it finds depends on the system, so
/// nothing is stated of the result.
#[verifier::external_body]
fn user_by_id(uid: u32) -> (r: Option<u32>) {
    match nix::unistd::User::from_uid(nix::unistd::Uid::from_raw(uid)) {
        Ok(found) => found.map(|u| u.uid.as_raw()),
        Err(_) => None,
    }
}

/// `nix::unistd::Group::from_gid`: the gid of the group database entry for
/// `gid`, if there is one. What it finds depends on the system, so
/// nothing is stated of the result.
#[verifier::external_body]
fn group_by_id(gid: u32) -> (r: Option<u32>) {
    match nix::unistd::Group::from_gid(nix::unistd::Gid::from_raw(gid)) {
        Ok(found) => found.map(|g| g.gid.as_raw()),
        Err(_) => None,
    }
}

/// `nix::unistd::User::from_name`: the uid of the user called `name`, if
/// the user database has one. What it finds depends on the system, so
/// nothing is stated of the result.
#[verifier::external_body]
fn user_by_name(name: &str) -> (r: Option<u32>) {
    match nix::unistd::User::from_name(name) {
        Ok(found) => found.map(|u| u.uid.as_raw()),
        Err(_) => None,
    }
}

/// `nix::unistd::Group::from_name`: the gid of the group called `name`,
/// if the group database has one. What it finds depends on the system,
/// so nothing is stated of the result.
#[verifier::external_body]
fn group_by_name(name: &str) -> (r: Option<u32>) {
    match nix::unistd::Group::from_name(name) {
        Ok(found) => found.map(|g| g.gid.as_raw()),
        Err(_) => None,
    }
}

/// Whether `v` is the id of an existing user (`owner`) or group: it must
/// read as an unsigned 32-bit number, and the database must know it.
fn id_known(v: &Vec<char>, owner: bool) -> (r: bool)
    ensures
        r ==> id_syntax(v@),
{
    assert(v@.subrange(0, v@.len() as int) =~= v@);
    match parse_int_range(v, 0, v.len(), 0, u32::MAX as i128, false) {
        Some(n) => {
            let id = n as u32;
            let found = if owner { user_by_id(id) } else { group_by_id(id) };
            found.is_some()
        },
        None => false,
    }
}


/// Names and ids of a cache, as plain values.
pub open spec fn cache_view(c: Seq<(String, u32)>) -> Seq<(Seq<char>, u32)> {
    c.map_values(|p: (String, u32)| (p.0@, p.1))
}

/// No name occurs twice in the cache.
pub open spec fn cache_wf(c: Seq<(Seq<char>, u32)>) -> bool {
    forall|i: int, j: int| 0 <= i < j < c.len() ==> #[trigger] c[i].0 != #[trigger] c[j].0
}

/// The cache holds `name`.
pub open spec fn cache_has(c: Seq<(Seq<char>, u32)>, name: Seq<char>) -> bool {
    exists|i: int| 0 <= i < c.len() && #[trigger] c[i].0 == name
}

/// What resolving a name does to a cache: a cached name gives its id and
/// leaves the cache as it is; otherwise a found id is appended with the
/// name, and a failed lookup is `UnresolvedName`.
pub open spec fn resolve_step(
    before: Seq<(Seq<char>, u32)>,
    after: Seq<(Seq<char>, u32)>,
    name: Seq<char>,
    r: Result<u32, RulesError>,
) -> bool {
    &&& (forall|i: int| 0 <= i < before.len() && before[i].0 == name ==> r == Ok::<u32, RulesError>(#[trigger] before[i].1) && after == before)
    &&& (!cache_has(before, name) ==> match r {
        Ok(id) => after == before.push((name, id)),
        Err(e) => e == RulesError::UnresolvedName && after == before,
    })
}

/// The rule set is unchanged but for its name caches, which only grow.
pub open spec fn same_rules_but_caches(a: Rules, b: Rules) -> bool {
    &&& a.files@ == b.files@
    &&& a.dirs@ == b.dirs@
    &&& a.resolve_name_time == b.resolve_name_time
    &&& cache_view(a.users@).is_prefix_of(cache_view(b.users@))
    &&& cache_view(a.groups@).is_prefix_of(cache_view(b.groups@))
}

impl Rules {
    /// The name caches hold each name once.
    pub open spec fn wf(&self) -> bool {
        cache_wf(cache_view(self.users@)) && cache_wf(cache_view(self.groups@))
    }

    /// An empty rule set searching `dirs`.
    pub fn new(dirs: Vec<String>, resolve_name_time: ResolveNameTime) -> (r: Rules)
        ensures
            r.files@.len() == 0,
            r.dirs@ == dirs@,
            r.resolve_name_time == resolve_name_time,
            r.users@.len() == 0,
            r.groups@.len() == 0,
            r.wf(),
    {
        Rules { files: Vec::new(), dirs, resolve_name_time, users: Vec::new(), groups: Vec::new() }
    }

    /// Resolves a user name to its uid, through the cache.
    pub fn resolve_user(&mut self, username: &str) -> (r: Result<u32, RulesError>)
        requires
            old(self).wf(),
        ensures
            final(self).wf(),
            resolve_step(cache_view(old(self).users@), cache_view(final(self).users@), username@, r),
            final(self).files@ == old(self).files@,
            final(self).dirs@ == old(self).dirs@,
            final(self).resolve_name_time == old(self).resolve_name_time,
            final(self).groups@ == old(self).groups@,
    {
        let found = cache_find(&self.users, username);
        match found {
            Some(id) => Ok(id),
            None => match user_by_name(username) {
                Some(id) => {
                    let ghost before = cache_view(self.users@);
                    self.users.push((string_of(username), id));
                    assert(cache_view(self.users@) =~= before.push((username@, id)));
                    Ok(id)
                },
                None => Err(RulesError::UnresolvedName),
            },
        }
    }

    /// Resolves a group name to its gid, through the cache.
    pub fn resolve_group(&mut self, groupname: &str) -> (r: Result<u32, RulesError>)
        requires
            old(self).wf(),
        ensures
            final(self).wf(),
            resolve_step(cache_view(old(self).groups@), cache_view(final(self).groups@), groupname@, r),
            final(self).files@ == old(self).files@,
            final(self).dirs@ == old(self).dirs@,
            final(self).resolve_name_time == old(self).resolve_name_time,
            final(self).users@ == old(self).users@,
    {
        let found = cache_find(&self.groups, groupname);
        match found {
            Some(id) => Ok(id),
            None => match group_by_name(groupname) {
                Some(id) => {
                    let ghost before = cache_view(self.groups@);
                    self.groups.push((string_of(groupname), id));
                    assert(cache_view(self.groups@) =~= before.push((groupname@, id)));
                    Ok(id)
                },
                None => Err(RulesError::UnresolvedName),
            },
        }
    }
}

/// Resolving a name only ever extends the cache.
pub proof fn lemma_resolve_grows(
    before: Seq<(Seq<char>, u32)>,
    after: Seq<(Seq<char>, u32)>,
    name: Seq<char>,
    r: Result<u32, RulesError>,
)
    requires
        resolve_step(before, after, name, r),
    ensures
        before.is_prefix_of(after),
{
    if cache_has(before, name) {
        let i = choose|i: int| 0 <= i < before.len() && #[trigger] before[i].0 == name;
        assert(r == Ok::<u32, RulesError>(before[i].1) && after == before);
        assert(after.subrange(0, before.len() as int) =~= before);
    } else {
        match r {
            Ok(id) => {
                assert(after.subrange(0, before.len() as int) =~= before);
            },
            Err(_) => {
                assert(after.subrange(0, before.len() as int) =~= before);
            },
        }
    }
}

/// The id cached for `name`, if any.
fn cache_find(c: &Vec<(String, u32)>, name: &str) -> (r: Option<u32>)
    requires
        cache_wf(cache_view(c@)),
    ensures
        r is None <==> !cache_has(cache_view(c@), name@),
        forall|i: int| 0 <= i < c@.len() && cache_view(c@)[i].0 == name@ ==> r == Some(#[trigger] cache_view(c@)[i].1),
{
    let ghost cv = cache_view(c@);
    let mut i: usize = 0;
    while i < c.len()
        invariant
            0 <= i <= c.len(),
            cv == cache_view(c@),
            cv.len() == c@.len(),
            cache_wf(cv),
            forall|k: int| 0 <= k < i ==> cv[k].0 != name@,
        decreases c.len() - i,
    {
        if crate::text::str_eq(c[i].0.as_str(), name) {
            assert(cv[i as int].0 == name@);
            return Some(c[i].1);
        }
        i += 1;
    }
    None
}


fn simple_kind_of(k: &Vec<char>) -> (r: Option<TokenType>)
    ensures
        r == simple_kind(k@),
{
    if eq_lit(k, "ACTION") {
        Some(TokenType::MatchAction)
    } else if eq_lit(k, "DEVPATH") {
        Some(TokenType::MatchDevpath)
    } else if eq_lit(k, "KERNEL") {
        Some(TokenType::MatchKernel)
    } else if eq_lit(k, "SUBSYSTEM") {
        Some(TokenType::MatchSubsystem)
    } else if eq_lit(k, "DRIVER") {
        Some(TokenType::MatchDriver)
    } else if eq_lit(k, "KERNELS") {
        Some(TokenType::MatchParentsKernel)
    } else if eq_lit(k, "SUBSYSTEMS") {
        Some(TokenType::MatchParentsSubsystem)
    } else if eq_lit(k, "DRIVERS") {
        Some(TokenType::MatchParentsDriver)
    } else if eq_lit(k, "TAGS") {
        Some(TokenType::MatchParentsTag)
    } else if eq_lit(k, "RESULT") {
        Some(TokenType::MatchResult)
    } else {
        None
    }
}

fn is_match_operator(op: OperatorType) -> (r: bool)
    ensures
        r == is_match_op(op),
{
    match op {
        OperatorType::Match => true,
        OperatorType::Nomatch => true,
        _ => false,
    }
}

fn match_only_token(t: TokenType, attr: Option<String>, op: OperatorType, value: String) -> (r: Result<RuleToken, RulesError>)
    ensures
        token_view(r) == match_only(t, opt_view(attr), op, value@),
        r matches Ok(tok) ==> tok.wf(),
{
    if attr.is_some() {
        Err(RulesError::AttributeNotAllowed)
    } else if !is_match_operator(op) {
        Err(RulesError::OperatorNotAllowed)
    } else {
        Ok(RuleToken::from_parts(t, op, None, value))
    }
}

fn attr_token(parents: bool, attr: Option<String>, op: OperatorType, value: String) -> (r: Result<RuleToken, RulesError>)
    ensures
        token_view(r) == attr_outcome(parents, opt_view(attr), op, value@),
        r matches Ok(tok) ==> tok.wf(),
{
    let checked = match &attr {
        Some(a) => check_attr_format("ATTR", a.as_str()),
        None => {
            proof {
                reveal_strlit("");
            }
            check_attr_format("ATTR", "")
        },
    };
    proof {
        reveal_strlit("");
        if attr is None {
            assert(""@ =~= Seq::<char>::empty());
        }
    }
    match checked {
        Err(e) => {
            return Err(e);
        },
        Ok(()) => {},
    }
    if parents {
        if !is_match_operator(op) {
            return Err(RulesError::OperatorNotAllowed);
        }
        return Ok(RuleToken::from_parts(TokenType::MatchParentsAttr, op, attr, value));
    }
    if op == OperatorType::Remove {
        return Err(RulesError::OperatorNotAllowed);
    }
    let op2 = if op == OperatorType::Add || op == OperatorType::AssignFinal {
        OperatorType::Assign
    } else {
        op
    };
    if !is_match_operator(op) {
        Ok(RuleToken::from_parts(TokenType::AssignAttr, op2, attr, value))
    } else {
        Ok(RuleToken::from_parts(TokenType::MatchAttr, op2, attr, value))
    }
}

fn options_token(op: OperatorType, value: String) -> (r: Result<RuleToken, RulesError>)
    ensures
        token_view(r) == options_outcome(op, value@),
        r matches Ok(tok) ==> tok.wf(),
{
    let v = chars_of(value.as_str());
    proof {
        reveal_strlit("");
        reveal_strlit("true");
        reveal_strlit("false");
        reveal_strlit("-1");
        reveal_strlit("rest");
        assert(""@ =~= Seq::<char>::empty());
    }
    if eq_lit(&v, "string_escape=none") {
        return Ok(RuleToken::from_parts(TokenType::AssignOptionsStringEscapeNone, op, None, string_of("")));
    }
    if eq_lit(&v, "string_escape=replace") {
        return Ok(RuleToken::from_parts(TokenType::AssignOptionsStringEscapeReplace, op, None, string_of("")));
    }
    if eq_lit(&v, "db_persist") {
        return Ok(RuleToken::from_parts(TokenType::AssignOptionsDbPersist, op, None, string_of("")));
    }
    if eq_lit(&v, "watch") {
        return Ok(RuleToken::from_parts(TokenType::AssignOptionsWatch, op, None, string_of("true")));
    }
    if eq_lit(&v, "nowatch") {
        return Ok(RuleToken::from_parts(TokenType::AssignOptionsWatch, op, None, string_of("false")));
    }
    assert(v@.subrange(0, v@.len() as int) =~= v@);
    let p = chars_of("static_node=");
    if has_prefix_at(&v, 0, &p) {
        let rest = string_from_range(&v, p.len(), v.len());
        return Ok(RuleToken::from_parts(TokenType::AssignOptionsStaticNode, op, None, rest));
    }
    let p = chars_of("link_priority=");
    if has_prefix_at(&v, 0, &p) {
        if parse_int_range(&v, p.len(), v.len(), i32::MIN as i128, i32::MAX as i128, true).is_none() {
            return Err(RulesError::InvalidValue);
        }
        let rest = string_from_range(&v, p.len(), v.len());
        return Ok(RuleToken::from_parts(TokenType::AssignOptionsDevlinkPriority, op, None, rest));
    }
    let p = chars_of("log_level=");
    if has_prefix_at(&v, 0, &p) {
        let rest = string_from_range(&v, p.len(), v.len());
        let rv = chars_of(rest.as_str());
        if eq_lit(&rv, "rest") {
            return Ok(RuleToken::from_parts(TokenType::AssignOptionsLogLevel, op, None, string_of("-1")));
        }
        if parse_int_range(&v, p.len(), v.len(), i32::MIN as i128, i32::MAX as i128, true).is_none() {
            return Err(RulesError::InvalidValue);
        }
        return Ok(RuleToken::from_parts(TokenType::AssignOptionsLogLevel, op, None, rest));
    }
    Err(RulesError::InvalidValue)
}

fn import_token(a: String, op: OperatorType, value: String) -> (r: Result<RuleToken, RulesError>)
    ensures
        token_view(r) == import_outcome(a@, op, value@),
        r matches Ok(tok) ==> tok.wf(),
{
    let av = chars_of(a.as_str());
    let vv = chars_of(value.as_str());
    if eq_lit(&av, "file") {
        Ok(RuleToken::from_parts(TokenType::MatchImportFile, op, Some(a), value))
    } else if eq_lit(&av, "program") {
        if builtin_command(&vv) {
            Ok(RuleToken::from_parts(TokenType::MatchImportBuiltin, op, Some(a), value))
        } else {
            Ok(RuleToken::from_parts(TokenType::MatchImportProgram, op, Some(a), value))
        }
    } else if eq_lit(&av, "builtin") {
        if builtin_command(&vv) {
            Ok(RuleToken::from_parts(TokenType::MatchImportBuiltin, op, Some(a), value))
        } else {
            Err(RulesError::InvalidValue)
        }
    } else if eq_lit(&av, "db") {
        Ok(RuleToken::from_parts(TokenType::MatchImportDb, op, Some(a), value))
    } else if eq_lit(&av, "cmdline") {
        Ok(RuleToken::from_parts(TokenType::MatchImportCmdline, op, Some(a), value))
    } else if eq_lit(&av, "parent") {
        Ok(RuleToken::from_parts(TokenType::MatchImportParent, op, Some(a), value))
    } else {
        Err(RulesError::InvalidAttribute)
    }
}

/// `OWNER` and `GROUP`: an id that the system knows is kept; otherwise,
/// with early resolution, a plain name is resolved to its id now; with
/// late resolution the name is kept for rule execution; with none the
/// token is ignored.
fn owner_token(owner: bool, attr: Option<String>, op: OperatorType, value: String, rules: &mut Rules) -> (r: Result<RuleToken, RulesError>)
    requires
        old(rules).wf(),
    ensures
        exists|id_ok: bool, resolved: Option<u32>|
            (id_ok ==> id_syntax(value@)) && #[trigger] owner_outcome(owner, opt_view(attr), op, value@, old(rules).resolve_name_time, id_ok, resolved) == token_view(r),
        r matches Ok(tok) ==> tok.wf(),
        final(rules).wf(),
        same_rules_but_caches(*old(rules), *final(rules)),
        old(rules).resolve_name_time != ResolveNameTime::Early ==> *final(rules) == *old(rules),
        attr is Some || is_match_op(op) || op == OperatorType::Remove ==> *final(rules) == *old(rules),
{
    let time = rules.resolve_name_time;
    assert(cache_view(rules.users@).is_prefix_of(cache_view(rules.users@)));
    assert(cache_view(rules.groups@).is_prefix_of(cache_view(rules.groups@)));
    if attr.is_some() {
        let r = Err(RulesError::AttributeNotAllowed);
        assert(owner_outcome(owner, opt_view(attr), op, value@, time, false, None) == token_view(r));
        return r;
    }
    if is_match_operator(op) || op == OperatorType::Remove {
        let r = Err(RulesError::OperatorNotAllowed);
        assert(owner_outcome(owner, opt_view(attr), op, value@, time, false, None) == token_view(r));
        return r;
    }
    let op2 = if op == OperatorType::Add { OperatorType::Assign } else { op };
    let by_id = if owner { TokenType::AssignOwnerId } else { TokenType::AssignGroupId };
    let by_name = if owner { TokenType::AssignOwner } else { TokenType::AssignGroup };
    let v = chars_of(value.as_str());
    if id_known(&v, owner) {
        let r = Ok(RuleToken::from_parts(by_id, op2, None, value));
        assert(owner_outcome(owner, opt_view(attr), op, value@, time, true, None) == token_view(r));
        return r;
    }
    let subst = SubstituteType::from_str(value.as_str());
    let plain = match subst {
        Ok(SubstituteType::Plain) => true,
        _ => false,
    };
    if time == ResolveNameTime::Early && plain {
        let ghost before_users = cache_view(rules.users@);
        let ghost before_groups = cache_view(rules.groups@);
        let resolved = if owner { rules.resolve_user(value.as_str()) } else { rules.resolve_group(value.as_str()) };
        proof {
            if owner {
                lemma_resolve_grows(before_users, cache_view(rules.users@), value@, resolved);
            } else {
                lemma_resolve_grows(before_groups, cache_view(rules.groups@), value@, resolved);
            }
        }
        match resolved {
            Ok(id) => {
                let r = Ok(RuleToken::from_parts(by_id, op2, None, decimal_string(id)));
                assert(owner_outcome(owner, opt_view(attr), op, value@, time, false, Some(id)) == token_view(r));
                return r;
            },
            Err(_) => {
                let r = Err(RulesError::UnresolvedName);
                assert(owner_outcome(owner, opt_view(attr), op, value@, time, false, None) == token_view(r));
                return r;
            },
        }
    }
    if time != ResolveNameTime::Never {
        let r = Ok(RuleToken::from_parts(by_name, op2, None, value));
        assert(owner_outcome(owner, opt_view(attr), op, value@, time, false, None) == token_view(r));
        return r;
    }
    let r = Err(RulesError::Ignored);
    assert(owner_outcome(owner, opt_view(attr), op, value@, time, false, None) == token_view(r));
    r
}


fn clone_opt(o: &Option<String>) -> (r: Option<String>)
    ensures
        opt_view(r) == opt_view(*o),
{
    match o {
        Some(a) => Some(a.clone()),
        None => None,
    }
}

/// Option of a token result, as plain values.
pub open spec fn opt_token_view(r: Option<Result<RuleToken, RulesError>>) -> Option<Result<TokenParts, RulesError>> {
    match r {
        Some(t) => Some(token_view(t)),
        None => None,
    }
}

/// All tokens in an optional result are well formed.
pub open spec fn opt_token_wf(r: Option<Result<RuleToken, RulesError>>) -> bool {
    r matches Some(Ok(t)) ==> t.wf()
}

fn general_token(kv: &Vec<char>, attr: &Option<String>, op: OperatorType, value: &String) -> (r: Option<Result<RuleToken, RulesError>>)
    ensures
        opt_token_view(r) == general_outcome(kv@, opt_view(*attr), op, value@),
        opt_token_wf(r),
{
    let m = is_match_operator(op);
    if let Some(t) = simple_kind_of(kv) {
        Some(match_only_token(t, clone_opt(attr), op, value.clone()))
    } else if eq_lit(kv, "SYMLINK") {
        Some(if attr.is_some() {
            Err(RulesError::AttributeNotAllowed)
        } else if !m {
            Ok(RuleToken::from_parts(TokenType::AssignDevlink, op, None, value.clone()))
        } else {
            Ok(RuleToken::from_parts(TokenType::MatchDevlink, op, None, value.clone()))
        })
    } else if eq_lit(kv, "NAME") {
        Some(if attr.is_some() {
            Err(RulesError::AttributeNotAllowed)
        } else if op == OperatorType::Remove {
            Err(RulesError::OperatorNotAllowed)
        } else {
            let op2 = if op == OperatorType::Add { OperatorType::Assign } else { op };
            if !m {
                let vv = chars_of(value.as_str());
                if eq_lit(&vv, "%k") || vv.len() == 0 {
                    Err(RulesError::InvalidValue)
                } else {
                    Ok(RuleToken::from_parts(TokenType::AssignName, op2, None, value.clone()))
                }
            } else {
                Ok(RuleToken::from_parts(TokenType::MatchName, op2, None, value.clone()))
            }
        })
    } else if eq_lit(kv, "ENV") {
        Some(match attr {
            None => Err(RulesError::InvalidAttribute),
            Some(at) => {
                if op == OperatorType::Remove {
                    Err(RulesError::OperatorNotAllowed)
                } else {
                    let op2 = if op == OperatorType::AssignFinal { OperatorType::Assign } else { op };
                    if !m {
                        let av = chars_of(at.as_str());
                        if is_env_reserved(&av) {
                            Err(RulesError::InvalidAttribute)
                        } else {
                            Ok(RuleToken::from_parts(TokenType::AssignEnv, op2, Some(at.clone()), value.clone()))
                        }
                    } else {
                        Ok(RuleToken::from_parts(TokenType::MatchEnv, op2, Some(at.clone()), value.clone()))
                    }
                }
            },
        })
    } else if eq_lit(kv, "CONST") {
        Some(match attr {
            None => Err(RulesError::InvalidAttribute),
            Some(at) => {
                let av = chars_of(at.as_str());
                if !(eq_lit(&av, "arch") || eq_lit(&av, "virt")) {
                    Err(RulesError::InvalidAttribute)
                } else if !m {
                    Err(RulesError::OperatorNotAllowed)
                } else {
                    Ok(RuleToken::from_parts(TokenType::MatchConst, op, Some(at.clone()), value.clone()))
                }
            },
        })
    } else if eq_lit(kv, "TAG") {
        Some(if attr.is_some() {
            Err(RulesError::AttributeNotAllowed)
        } else {
            let op2 = if op == OperatorType::AssignFinal { OperatorType::Assign } else { op };
            if !m {
                Ok(RuleToken::from_parts(TokenType::AssignTag, op2, None, value.clone()))
            } else {
                Ok(RuleToken::from_parts(TokenType::MatchTag, op2, None, value.clone()))
            }
        })
    } else {
        None
    }
}

fn checked_token(kv: &Vec<char>, attr: &Option<String>, op: OperatorType, value: &String) -> (r: Option<Result<RuleToken, RulesError>>)
    ensures
        opt_token_view(r) == checked_outcome(kv@, opt_view(*attr), op, value@),
        opt_token_wf(r),
{
    let m = is_match_operator(op);
    if eq_lit(kv, "ATTR") || eq_lit(kv, "SYSCTL") {
        Some(attr_token(false, clone_opt(attr), op, value.clone()))
    } else if eq_lit(kv, "ATTRS") {
        Some(attr_token(true, clone_opt(attr), op, value.clone()))
    } else if eq_lit(kv, "TEST") {
        let bad_mode = match attr {
            Some(at) => parse_mode(at.as_str()).is_err(),
            None => false,
        };
        Some(if bad_mode {
            Err(RulesError::InvalidAttribute)
        } else if !m {
            Err(RulesError::OperatorNotAllowed)
        } else {
            Ok(RuleToken::from_parts(TokenType::MatchTest, op, clone_opt(attr), value.clone()))
        })
    } else if eq_lit(kv, "PROGRAM") {
        Some(if attr.is_some() {
            Err(RulesError::AttributeNotAllowed)
        } else if op == OperatorType::Remove {
            Err(RulesError::OperatorNotAllowed)
        } else {
            let op2 = if !m { OperatorType::Match } else { op };
            Ok(RuleToken::from_parts(TokenType::MatchProgram, op2, None, value.clone()))
        })
    } else if eq_lit(kv, "IMPORT") {
        Some(match attr {
            None => Err(RulesError::InvalidAttribute),
            Some(at) => {
                let op2 = if !m { OperatorType::Match } else { op };
                import_token(at.clone(), op2, value.clone())
            },
        })
    } else if eq_lit(kv, "OPTIONS") {
        Some(if attr.is_some() {
            Err(RulesError::AttributeNotAllowed)
        } else if m || op == OperatorType::Remove {
            Err(RulesError::OperatorNotAllowed)
        } else {
            let op2 = if op == OperatorType::Add { OperatorType::Assign } else { op };
            options_token(op2, value.clone())
        })
    } else {
        None
    }
}

fn assign_token(kv: &Vec<char>, attr: &Option<String>, op: OperatorType, value: &String) -> (r: Option<Result<RuleToken, RulesError>>)
    ensures
        opt_token_view(r) == assign_outcome(kv@, opt_view(*attr), op, value@),
        opt_token_wf(r),
{
    let m = is_match_operator(op);
    if eq_lit(kv, "MODE") {
        Some(if attr.is_some() {
            Err(RulesError::AttributeNotAllowed)
        } else if m || op == OperatorType::Remove {
            Err(RulesError::OperatorNotAllowed)
        } else {
            let op2 = if op == OperatorType::Add { OperatorType::Assign } else { op };
            if parse_mode(value.as_str()).is_ok() {
                Ok(RuleToken::from_parts(TokenType::AssignModeId, op2, None, value.clone()))
            } else {
                Ok(RuleToken::from_parts(TokenType::AssignMode, op2, None, value.clone()))
            }
        })
    } else if eq_lit(kv, "SECLABEL") {
        Some(if attr.is_none() {
            Err(RulesError::InvalidAttribute)
        } else if m || op == OperatorType::Remove {
            Err(RulesError::OperatorNotAllowed)
        } else {
            let op2 = if op == OperatorType::AssignFinal { OperatorType::Assign } else { op };
            Ok(RuleToken::from_parts(TokenType::AssignSeclabel, op2, clone_opt(attr), value.clone()))
        })
    } else if eq_lit(kv, "RUN") {
        Some(if m || op == OperatorType::Remove {
            Err(RulesError::OperatorNotAllowed)
        } else {
            match attr {
                None => Ok(RuleToken::from_parts(TokenType::AssignRunProgram, op, None, value.clone())),
                Some(at) => {
                    let av = chars_of(at.as_str());
                    if eq_lit(&av, "program") {
                        Ok(RuleToken::from_parts(TokenType::AssignRunProgram, op, None, value.clone()))
                    } else if eq_lit(&av, "builtin") {
                        let vv = chars_of(value.as_str());
                        if builtin_command(&vv) {
                            Ok(RuleToken::from_parts(TokenType::AssignRunBuiltin, op, Some(at.clone()), value.clone()))
                        } else {
                            Err(RulesError::InvalidValue)
                        }
                    } else {
                        Err(RulesError::Ignored)
                    }
                },
            }
        })
    } else if eq_lit(kv, "GOTO") || eq_lit(kv, "LABEL") {
        Some(if attr.is_some() {
            Err(RulesError::AttributeNotAllowed)
        } else if op != OperatorType::Assign {
            Err(RulesError::OperatorNotAllowed)
        } else if eq_lit(kv, "GOTO") {
            Ok(RuleToken::from_parts(TokenType::Goto, op, None, value.clone()))
        } else {
            Ok(RuleToken::from_parts(TokenType::Label, op, None, value.clone()))
        })
    } else {
        None
    }
}

impl RuleToken {
    /// Parses one `key{attr} op "value"` element into a token, checking
    /// which attributes and operators the key accepts and normalising the
    /// operator where the key implies one. `OWNER` and `GROUP` consult the
    /// system's user and group databases and the name caches of `rules`.
    pub fn parse_token(key: String, attr: Option<String>, op_str: String, value: String, rules: &mut Rules) -> (r: Result<RuleToken, RulesError>)
        requires
            old(rules).wf(),
        ensures
            exists|id_ok: bool, resolved: Option<u32>|
                (id_ok ==> id_syntax(value@)) && #[trigger] token_outcome(key@, opt_view(attr), op_str@, value@, old(rules).resolve_name_time, id_ok, resolved) == token_view(r),
            !looks_up_names(key@) ==> token_view(r) == token_outcome(key@, opt_view(attr), op_str@, value@, old(rules).resolve_name_time, false, None),
            r matches Ok(tok) ==> tok.wf(),
            final(rules).wf(),
            same_rules_but_caches(*old(rules), *final(rules)),
            !looks_up_names(key@) ==> *final(rules) == *old(rules),
            operator_of(op_str@) is None ==> *final(rules) == *old(rules),
            old(rules).resolve_name_time != ResolveNameTime::Early ==> *final(rules) == *old(rules),
    {
        let ghost time = rules.resolve_name_time;
        let ghost a = opt_view(attr);
        let ghost k = key@;
        let ghost o = op_str@;
        let ghost val = value@;
        assert(cache_view(rules.users@).is_prefix_of(cache_view(rules.users@)));
        assert(cache_view(rules.groups@).is_prefix_of(cache_view(rules.groups@)));
        let kv = chars_of(key.as_str());
        let op = match OperatorType::from_str(op_str.as_str()) {
            Ok(op) => op,
            Err(e) => {
                let r = Err(e);
                assert(token_outcome(k, a, o, val, time, false, None) == token_view(r));
                return r;
            },
        };
        if let Some(r) = general_token(&kv, &attr, op, &value) {
            assert(token_outcome(k, a, o, val, time, false, None) == token_view(r));
            return r;
        }
        if let Some(r) = checked_token(&kv, &attr, op, &value) {
            assert(token_outcome(k, a, o, val, time, false, None) == token_view(r));
            return r;
        }
        if eq_lit(&kv, "OWNER") || eq_lit(&kv, "GROUP") {
            let owner = eq_lit(&kv, "OWNER");
            let r = owner_token(owner, attr, op, value, rules);
            proof {
                let (id_ok, resolved) = choose|id_ok: bool, resolved: Option<u32>|
                    (id_ok ==> id_syntax(val)) && #[trigger] owner_outcome(owner, a, op, val, time, id_ok, resolved) == token_view(r);
                assert(token_outcome(k, a, o, val, time, id_ok, resolved) == token_view(r));
            }
            return r;
        }
        if let Some(r) = assign_token(&kv, &attr, op, &value) {
            assert(token_outcome(k, a, o, val, time, false, None) == token_view(r));
            return r;
        }
        let r = Err(RulesError::UnknownKey);
        assert(token_outcome(k, a, o, val, time, false, None) == token_view(r));
        r
    }
}


/// A raw element of a rule line: key, attribute, operator and value as
/// written.
pub type RawToken = (Seq<char>, Option<Seq<char>>, Seq<char>, Seq<char>);

/// State of the line scanner after a prefix of the line: the position in
/// the element grammar (see `scan_step`), the key, attribute, operator and
/// value read so far, the elements completed, and the index of the first
/// character that breaks the grammar.
pub type LineScan = (int, Seq<char>, Seq<char>, Seq<char>, Seq<char>, Seq<RawToken>, Option<int>);

/// A character that may start or continue an operator.
pub open spec fn op_char(c: char) -> bool {
    c == '!' || c == '+' || c == '-' || c == ':' || c == '='
}

/// A character allowed inside `{...}` after a key.
pub open spec fn attr_char(c: char) -> bool {
    crate::text::ascii_alnum(c) || c == '$' || c == '%' || c == '*' || c == '.' || c == '/' || c == '_'
}

/// An empty attribute is no attribute.
pub open spec fn raw_attr(a: Seq<char>) -> Option<Seq<char>> {
    if a.len() == 0 { None } else { Some(a) }
}

/// One step of the scanner on character `ch` at index `idx`. States: 0
/// between elements, 1 in the key, 2 in the attribute, 3 before the
/// operator, 4 in the operator, 5 after it, 6 in the quoted value, 7 after
/// the closing quote.
pub open spec fn scan_step(st: LineScan, ch: char, idx: int) -> LineScan {
    let (state, key, attr, op, value, raws, err) = st;
    let fail = (state, key, attr, op, value, raws, Some(idx));
    let ws = crate::text::ascii_ws(ch);
    if err is Some {
        st
    } else if state == 0 {
        if ws || ch == ',' {
            st
        } else if crate::text::ascii_upper(ch) {
            (1, key.push(ch), attr, op, value, raws, None)
        } else {
            fail
        }
    } else if state == 1 {
        if crate::text::ascii_upper(ch) {
            (1, key.push(ch), attr, op, value, raws, None)
        } else if ws {
            (3, key, attr, op, value, raws, None)
        } else if ch == '{' {
            (2, key, attr, op, value, raws, None)
        } else if op_char(ch) {
            (4, key, attr, op.push(ch), value, raws, None)
        } else {
            fail
        }
    } else if state == 2 {
        if ch == '}' {
            (3, key, attr, op, value, raws, None)
        } else if attr_char(ch) {
            (2, key, attr.push(ch), op, value, raws, None)
        } else {
            fail
        }
    } else if state == 3 {
        if ws {
            st
        } else if op_char(ch) {
            (4, key, attr, op.push(ch), value, raws, None)
        } else {
            fail
        }
    } else if state == 4 {
        if ch == '=' {
            (5, key, attr, op.push(ch), value, raws, None)
        } else if ws {
            (5, key, attr, op, value, raws, None)
        } else if ch == '"' {
            (6, key, attr, op, value, raws, None)
        } else {
            fail
        }
    } else if state == 5 {
        if ws {
            st
        } else if ch == '"' {
            (6, key, attr, op, value, raws, None)
        } else {
            fail
        }
    } else if state == 6 {
        if ch == '"' {
            (7, key, attr, op, value, raws.push((key, raw_attr(attr), op, value)), None)
        } else {
            (6, key, attr, op, value.push(ch), raws, None)
        }
    } else {
        if ws || ch == ',' {
            (0, Seq::empty(), Seq::empty(), Seq::empty(), Seq::empty(), raws, None)
        } else {
            fail
        }
    }
}

/// The scanner run over all of `s`.
pub open spec fn scan_line(s: Seq<char>) -> LineScan
    decreases s.len(),
{
    if s.len() == 0 {
        (0, Seq::empty(), Seq::empty(), Seq::empty(), Seq::empty(), Seq::empty(), None)
    } else {
        scan_step(scan_line(s.drop_last()), s.last(), s.len() - 1)
    }
}

/// Lookup results of the `OWNER` and `GROUP` elements, one pair per
/// element (ignored for other keys).
pub type Lookups = Seq<(bool, Option<u32>)>;

/// No lookups: the pairs for elements that consult no database.
pub open spec fn no_lookups(n: nat) -> Lookups {
    Seq::new(n, |i: int| (false, None))
}

/// The tokens that the elements `raws` give, in order, or the error of
/// the first one that fails.
pub open spec fn raw_parts(raws: Seq<RawToken>, time: ResolveNameTime, looks: Lookups) -> Result<Seq<TokenParts>, RulesError>
    decreases raws.len(),
{
    if raws.len() == 0 {
        Ok(Seq::empty())
    } else {
        match raw_parts(raws.drop_last(), time, looks.drop_last()) {
            Err(e) => Err(e),
            Ok(ps) => {
                let (k, a, o, v) = raws.last();
                let l = looks.last();
                match token_outcome(k, a, o, v, time, l.0, l.1) {
                    Err(e) => Err(e),
                    Ok(p) => Ok(ps.push(p)),
                }
            },
        }
    }
}

/// What loading the line `s` gives: its tokens, or the error of the first
/// element that fails, or the index of the first character that breaks
/// the grammar. A line must be one or more complete elements: one that
/// ends inside an element (a key, attribute, operator or value not yet
/// closed), or that holds no element at all, breaks the grammar at its
/// end.
pub open spec fn line_outcome(s: Seq<char>, time: ResolveNameTime, looks: Lookups) -> Result<Seq<TokenParts>, RulesError> {
    let sc = scan_line(s);
    match raw_parts(sc.5, time, looks) {
        Err(e) => Err(e),
        Ok(ps) => match sc.6 {
            Some(j) => Err(RulesError::InvalidLine(j as usize)),
            None => if (sc.0 == 0 || sc.0 == 7) && ps.len() > 0 {
                Ok(ps)
            } else {
                Err(RulesError::InvalidLine(s.len() as usize))
            },
        },
    }
}

/// No element of `raws` consults the user or group database.
pub open spec fn lookup_free(raws: Seq<RawToken>) -> bool {
    forall|i: int| 0 <= i < raws.len() ==> !looks_up_names(#[trigger] raws[i].0)
}

/// Flags, label and goto label of a line.
pub type LineInfo = (crate::rules::RuleLineType, Option<Seq<char>>, Option<Seq<char>>);

/// What one more token does to the flags, label and goto label of a line:
/// `GOTO` and `LABEL` record their value, the other kinds set their flag.
pub open spec fn info_step(info: LineInfo, p: TokenParts) -> LineInfo {
    let (f, label, goto) = info;
    let (t, _, _, v) = p;
    if t == TokenType::Goto {
        (crate::rules::RuleLineType { has_goto: true, ..f }, label, Some(v))
    } else if t == TokenType::Label {
        (crate::rules::RuleLineType { has_label: true, ..f }, Some(v), goto)
    } else if t == TokenType::AssignName {
        (crate::rules::RuleLineType { has_name: true, ..f }, label, goto)
    } else if t == TokenType::AssignDevlink || t == TokenType::AssignOwner || t == TokenType::AssignGroup
        || t == TokenType::AssignMode || t == TokenType::AssignOwnerId || t == TokenType::AssignGroupId
        || t == TokenType::AssignModeId {
        (crate::rules::RuleLineType { has_devlink: true, ..f }, label, goto)
    } else if t == TokenType::AssignOptionsStaticNode {
        (crate::rules::RuleLineType { has_static_node: true, ..f }, label, goto)
    } else if t.rank() >= TokenType::AssignOptionsStringEscapeNone.rank() || t == TokenType::MatchProgram
        || t == TokenType::MatchImportFile || t == TokenType::MatchImportProgram
        || t == TokenType::MatchImportBuiltin || t == TokenType::MatchImportDb
        || t == TokenType::MatchImportCmdline || t == TokenType::MatchImportParent {
        (crate::rules::RuleLineType { update_something: true, ..f }, label, goto)
    } else {
        (f, label, goto)
    }
}

/// Flags, label and goto label that the tokens `ps` give a line.
pub open spec fn line_info(ps: Seq<TokenParts>) -> LineInfo
    decreases ps.len(),
{
    if ps.len() == 0 {
        (crate::rules::RuleLineType::initial_spec(), None, None)
    } else {
        info_step(line_info(ps.drop_last()), ps.last())
    }
}

/// The kinds of token that mark a line as changing the device node:
/// `SYMLINK`, `OWNER`, `GROUP` and `MODE` assignments.
pub open spec fn sets_devlink(t: TokenType) -> bool {
    t == TokenType::AssignDevlink || t == TokenType::AssignOwner || t == TokenType::AssignGroup
        || t == TokenType::AssignMode || t == TokenType::AssignOwnerId || t == TokenType::AssignGroupId
        || t == TokenType::AssignModeId
}

/// Some token of `ps` is of kind `t`.
pub open spec fn has_kind(ps: Seq<TokenParts>, t: TokenType) -> bool {
    exists|i: int| 0 <= i < ps.len() && (#[trigger] ps[i]).0 == t
}

/// Token `j` of `ps` is the last one of kind `t`.
pub open spec fn last_of_kind(ps: Seq<TokenParts>, t: TokenType, j: int) -> bool {
    &&& 0 <= j < ps.len()
    &&& ps[j].0 == t
    &&& forall|k: int| j < k < ps.len() ==> (#[trigger] ps[k]).0 != t
}

proof fn lemma_has_kind_step(ps: Seq<TokenParts>, t: TokenType)
    requires
        ps.len() > 0,
    ensures
        has_kind(ps, t) == (has_kind(ps.drop_last(), t) || ps.last().0 == t),
        (exists|i: int| 0 <= i < ps.len() && sets_devlink((#[trigger] ps[i]).0)) == (
            (exists|i: int| 0 <= i < ps.drop_last().len() && sets_devlink((#[trigger] ps.drop_last()[i]).0))
                || sets_devlink(ps.last().0)),
{
    let q = ps.drop_last();
    if has_kind(q, t) {
        let i = choose|i: int| 0 <= i < q.len() && (#[trigger] q[i]).0 == t;
        assert(ps[i] == q[i]);
    }
    if has_kind(ps, t) && ps.last().0 != t {
        let i = choose|i: int| 0 <= i < ps.len() && (#[trigger] ps[i]).0 == t;
        assert(q[i] == ps[i]);
    }
    if exists|i: int| 0 <= i < q.len() && sets_devlink((#[trigger] q[i]).0) {
        let i = choose|i: int| 0 <= i < q.len() && sets_devlink((#[trigger] q[i]).0);
        assert(ps[i] == q[i]);
    }
    if (exists|i: int| 0 <= i < ps.len() && sets_devlink((#[trigger] ps[i]).0)) && !sets_devlink(ps.last().0) {
        let i = choose|i: int| 0 <= i < ps.len() && sets_devlink((#[trigger] ps[i]).0);
        assert(q[i] == ps[i]);
    }
}

/// Law: the flags of a line say which kinds of token it holds: `goto`,
/// `label`, `name` and `static_node` whether some token is a `GOTO`, a
/// `LABEL`, a `NAME` assignment or the `static_node` option, `devlink`
/// whether some token assigns a link, owner, group or mode. Its goto label
/// and label are the values of its last `GOTO` and `LABEL` tokens, and
/// absent where it has none.
pub proof fn law_line_flags(ps: Seq<TokenParts>)
    ensures
        line_info(ps).0.has_goto == has_kind(ps, TokenType::Goto),
        line_info(ps).0.has_label == has_kind(ps, TokenType::Label),
        line_info(ps).0.has_name == has_kind(ps, TokenType::AssignName),
        line_info(ps).0.has_static_node == has_kind(ps, TokenType::AssignOptionsStaticNode),
        line_info(ps).0.has_devlink == exists|i: int| 0 <= i < ps.len() && sets_devlink((#[trigger] ps[i]).0),
        !has_kind(ps, TokenType::Goto) ==> line_info(ps).2 is None,
        !has_kind(ps, TokenType::Label) ==> line_info(ps).1 is None,
        forall|j: int| last_of_kind(ps, TokenType::Goto, j) ==> line_info(ps).2 == Some(ps[j].3),
        forall|j: int| last_of_kind(ps, TokenType::Label, j) ==> line_info(ps).1 == Some(ps[j].3),
    decreases ps.len(),
{
    if ps.len() > 0 {
        let q = ps.drop_last();
        law_line_flags(q);
        lemma_has_kind_step(ps, TokenType::Goto);
        lemma_has_kind_step(ps, TokenType::Label);
        lemma_has_kind_step(ps, TokenType::AssignName);
        lemma_has_kind_step(ps, TokenType::AssignOptionsStaticNode);
        assert forall|j: int| last_of_kind(ps, TokenType::Goto, j) implies line_info(ps).2 == Some(ps[j].3) by {
            if j < ps.len() - 1 {
                assert(ps[ps.len() - 1].0 != TokenType::Goto);
                assert(q[j] == ps[j]);
                assert forall|k: int| j < k < q.len() implies (#[trigger] q[k]).0 != TokenType::Goto by {
                    assert(q[k] == ps[k]);
                }
                assert(last_of_kind(q, TokenType::Goto, j));
            }
        }
        assert forall|j: int| last_of_kind(ps, TokenType::Label, j) implies line_info(ps).1 == Some(ps[j].3) by {
            if j < ps.len() - 1 {
                assert(ps[ps.len() - 1].0 != TokenType::Label);
                assert(q[j] == ps[j]);
                assert forall|k: int| j < k < q.len() implies (#[trigger] q[k]).0 != TokenType::Label by {
                    assert(q[k] == ps[k]);
                }
                assert(last_of_kind(q, TokenType::Label, j));
            }
        }
    }
}

/// Law: a well-formed rule line, as every line that `load_line` gives
/// is, carries the `goto`, `label`, `name` and `static_node` flags
/// exactly when some token is a `GOTO`, a `LABEL`, a `NAME` assignment or
/// the `static_node` option, and the `devlink` flag exactly when some
/// token assigns a link, owner, group or mode; its goto label and label
/// are the values of its last `GOTO` and `LABEL` tokens, and absent where
/// it has none.
pub proof fn law_loaded_line_flags(l: RuleLine)
    requires
        l.wf(),
    ensures
        l.line_type.has_goto == has_kind(tokens_parts(l.tokens@), TokenType::Goto),
        l.line_type.has_label == has_kind(tokens_parts(l.tokens@), TokenType::Label),
        l.line_type.has_name == has_kind(tokens_parts(l.tokens@), TokenType::AssignName),
        l.line_type.has_static_node == has_kind(tokens_parts(l.tokens@), TokenType::AssignOptionsStaticNode),
        l.line_type.has_devlink == exists|i: int| 0 <= i < l.tokens@.len() && sets_devlink((#[trigger] l.tokens@[i]).token_type),
        !has_kind(tokens_parts(l.tokens@), TokenType::Goto) ==> l.goto_label is None,
        !has_kind(tokens_parts(l.tokens@), TokenType::Label) ==> l.label is None,
        forall|j: int| last_of_kind(tokens_parts(l.tokens@), TokenType::Goto, j)
            ==> opt_view(l.goto_label) == Some(l.tokens@[j].value@),
        forall|j: int| last_of_kind(tokens_parts(l.tokens@), TokenType::Label, j)
            ==> opt_view(l.label) == Some(l.tokens@[j].value@),
{
    let ps = tokens_parts(l.tokens@);
    law_line_flags(ps);
    assert forall|i: int| 0 <= i < ps.len() implies #[trigger] ps[i] == l.tokens@[i].parts() by {}
    if exists|i: int| 0 <= i < ps.len() && sets_devlink((#[trigger] ps[i]).0) {
        let i = choose|i: int| 0 <= i < ps.len() && sets_devlink((#[trigger] ps[i]).0);
        assert(sets_devlink(l.tokens@[i].token_type));
    }
    if exists|i: int| 0 <= i < l.tokens@.len() && sets_devlink((#[trigger] l.tokens@[i]).token_type) {
        let i = choose|i: int| 0 <= i < l.tokens@.len() && sets_devlink((#[trigger] l.tokens@[i]).token_type);
        assert(sets_devlink(ps[i].0));
    }
}

/// The parts of each token of `ts`.
pub open spec fn tokens_parts(ts: Seq<RuleToken>) -> Seq<TokenParts> {
    ts.map_values(|t: RuleToken| t.parts())
}


/// Once the scanner has failed, further characters change nothing; and
/// the elements completed on a prefix are a prefix of those of the line.
pub proof fn lemma_scan_prefix(s: Seq<char>, n: int)
    requires
        0 <= n <= s.len(),
    ensures
        scan_line(s.take(n)).5.is_prefix_of(scan_line(s).5),
        scan_line(s.take(n)).6 is Some ==> scan_line(s) == scan_line(s.take(n)),
    decreases s.len() - n,
{
    if n == s.len() {
        assert(s.take(n) =~= s);
        assert(scan_line(s).5.subrange(0, scan_line(s).5.len() as int) =~= scan_line(s).5);
    } else {
        lemma_scan_prefix(s, n + 1);
        let t = s.take(n + 1);
        assert(t.drop_last() =~= s.take(n));
        let a = scan_line(s.take(n)).5;
        let b = scan_line(t).5;
        let c = scan_line(s).5;
        assert(b == a || b == a.push(b.last()));
        assert(a.is_prefix_of(c)) by {
            assert(c.subrange(0, a.len() as int) =~= b.subrange(0, a.len() as int));
            if b != a {
                assert(b.subrange(0, a.len() as int) =~= a);
            } else {
                assert(b.subrange(0, a.len() as int) =~= a);
            }
        }
    }
}

/// A failing element stops the parse: the outcome of all elements is the
/// error of the first `k + 1` of them.
pub proof fn lemma_raw_parts_stop(rs: Seq<RawToken>, time: ResolveNameTime, looks: Lookups, k: int)
    requires
        0 <= k < rs.len(),
        looks.len() == rs.len(),
        raw_parts(rs.take(k + 1), time, looks.take(k + 1)) is Err,
    ensures
        raw_parts(rs, time, looks) == raw_parts(rs.take(k + 1), time, looks.take(k + 1)),
    decreases rs.len(),
{
    if k + 1 == rs.len() {
        assert(rs.take(k + 1) =~= rs);
        assert(looks.take(k + 1) =~= looks);
    } else {
        assert(rs.drop_last().take(k + 1) =~= rs.take(k + 1));
        assert(looks.drop_last().take(k + 1) =~= looks.take(k + 1));
        lemma_raw_parts_stop(rs.drop_last(), time, looks.drop_last(), k);
    }
}

/// The view of a loaded line: its tokens' parts, or the error.
pub open spec fn line_view(r: Result<RuleLine, RulesError>) -> Result<Seq<TokenParts>, RulesError> {
    match r {
        Ok(l) => Ok(tokens_parts(l.tokens@)),
        Err(e) => Err(e),
    }
}

/// Lookups that claim an existing id only for values that read as ids.
pub open spec fn looks_sound(raws: Seq<RawToken>, looks: Lookups) -> bool {
    forall|i: int| 0 <= i < raws.len() && i < looks.len() && (#[trigger] looks[i]).0 ==> id_syntax(raws[i].3)
}

fn info_update(f: &mut RuleLineType, label: &mut Option<String>, goto: &mut Option<String>, t: &RuleToken)
    ensures
        (*final(f), opt_view(*final(label)), opt_view(*final(goto))) == info_step(
            (*old(f), opt_view(*old(label)), opt_view(*old(goto))),
            t.parts(),
        ),
{
    let o = t.token_type.order();
    match t.token_type {
        TokenType::Goto => {
            f.has_goto = true;
            *goto = Some(t.value.clone());
        },
        TokenType::Label => {
            f.has_label = true;
            *label = Some(t.value.clone());
        },
        TokenType::AssignName => {
            f.has_name = true;
        },
        TokenType::AssignDevlink | TokenType::AssignOwner | TokenType::AssignGroup | TokenType::AssignMode
        | TokenType::AssignOwnerId | TokenType::AssignGroupId | TokenType::AssignModeId => {
            f.has_devlink = true;
        },
        TokenType::AssignOptionsStaticNode => {
            f.has_static_node = true;
        },
        TokenType::MatchProgram | TokenType::MatchImportFile | TokenType::MatchImportProgram
        | TokenType::MatchImportBuiltin | TokenType::MatchImportDb | TokenType::MatchImportCmdline
        | TokenType::MatchImportParent => {
            f.update_something = true;
        },
        _ => {
            if o >= 26 {
                f.update_something = true;
            }
        },
    }
}

impl RuleLine {
    /// A line with no token yet.
    pub fn new(line_content: String, line_number: u32) -> (l: RuleLine)
        ensures
            l.line_content@ == line_content@,
            l.line_number == line_number,
            l.line_type == RuleLineType::initial_spec(),
            l.label is None,
            l.goto_label is None,
            l.goto_line is None,
            l.tokens@.len() == 0,
    {
        RuleLine {
            line_content,
            line_number,
            line_type: RuleLineType::initial(),
            label: None,
            goto_label: None,
            goto_line: None,
            tokens: Vec::new(),
        }
    }

    /// Appends a token to the line; the flags, label and jump target are
    /// left as they are.
    pub fn add_token(&mut self, rule_token: RuleToken)
        ensures
            final(self).tokens@ == old(self).tokens@.push(rule_token),
            final(self).line_content == old(self).line_content,
            final(self).line_number == old(self).line_number,
            final(self).line_type == old(self).line_type,
            final(self).label == old(self).label,
            final(self).goto_label == old(self).goto_label,
            final(self).goto_line == old(self).goto_line,
    {
        self.tokens.push(rule_token);
    }

    /// The flags, label and goto label agree with the tokens, and each
    /// token is well formed.
    pub open spec fn wf(&self) -> bool {
        &&& (self.line_type, opt_view(self.label), opt_view(self.goto_label)) == line_info(tokens_parts(self.tokens@))
        &&& forall|i: int| 0 <= i < self.tokens@.len() ==> (#[trigger] self.tokens@[i]).wf()
    }

    /// Loads a rule line: scans its `KEY{attr} op "value"` elements
    /// (separated by whitespace or commas) and parses each into a token as
    /// soon as its value is closed. The first element that fails, or the
    /// first character that breaks the grammar, makes the line fail.
    pub fn load_line(line: &str, line_number: u32, rules: &mut Rules) -> (r: Result<RuleLine, RulesError>)
        requires
            old(rules).wf(),
        ensures
            final(rules).wf(),
            same_rules_but_caches(*old(rules), *final(rules)),
            exists|looks: Lookups|
                looks.len() == scan_line(line@).5.len() && looks_sound(scan_line(line@).5, looks)
                    && #[trigger] line_outcome(line@, old(rules).resolve_name_time, looks) == line_view(r),
            lookup_free(scan_line(line@).5) ==> line_view(r) == line_outcome(
                line@,
                old(rules).resolve_name_time,
                no_lookups(scan_line(line@).5.len()),
            ),
            r matches Ok(l) ==> l.line_content@ == line@ && l.line_number == line_number && l.goto_line is None && l.wf(),
            r matches Ok(l) ==> l.tokens@.len() > 0,
    {
        let ghost time = rules.resolve_name_time;
        let ghost full = line@;
        let v = chars_of(line);
        let mut state: u8 = 0;
        let mut key: Vec<char> = Vec::new();
        let mut attr: Vec<char> = Vec::new();
        let mut op: Vec<char> = Vec::new();
        let mut value: Vec<char> = Vec::new();
        let mut tokens: Vec<RuleToken> = Vec::new();
        let mut flags = RuleLineType::initial();
        let mut label: Option<String> = None;
        let mut goto: Option<String> = None;
        let ghost mut raws: Seq<RawToken> = Seq::empty();
        let ghost mut looks: Lookups = Seq::empty();
        assert(cache_view(rules.users@).is_prefix_of(cache_view(rules.users@)));
        assert(cache_view(rules.groups@).is_prefix_of(cache_view(rules.groups@)));
        assert(v@.take(0) =~= Seq::<char>::empty());
        assert(tokens_parts(tokens@) =~= Seq::<TokenParts>::empty());
        let mut i: usize = 0;
        while i < v.len()
            invariant
                0 <= i <= v.len(),
                v@ == full,
                full == line@,
                time == old(rules).resolve_name_time,
                scan_line(v@.take(i as int)) == (state as int, key@, attr@, op@, value@, raws, None::<int>),
                state <= 7,
                forall|j: int| 0 <= j < attr@.len() ==> attr_char(#[trigger] attr@[j]),
                loaded(raws, looks, tokens@, time),
                (flags, opt_view(label), opt_view(goto)) == line_info(tokens_parts(tokens@)),
                rules.wf(),
                same_rules_but_caches(*old(rules), *rules),
                rules.resolve_name_time == time,
            decreases v.len() - i,
        {
            let ch = v[i];
            assert(v@.take(i + 1).drop_last() =~= v@.take(i as int));
            assert(v@.take(i + 1).last() == ch);
            let step = scan_char(&mut state, &mut key, &mut attr, &mut op, &mut value, ch, Ghost(raws), Ghost(i as int));
            if step == 1 {
                proof {
                    lemma_scan_prefix(full, i + 1);
                    assert(scan_line(full).5 == raws);
                    assert(line_outcome(full, time, looks) == line_view(Err(RulesError::InvalidLine(i))));
                }
                return Err(RulesError::InvalidLine(i));
            }
            if step == 2 {
                let ghost raw: RawToken = (key@, raw_attr(attr@), op@, value@);
                let ghost pre_rules = *rules;
                let (res, Ghost(l)) = emit_token(&key, &attr, &op, &value, rules);
                proof {
                    lemma_same_rules_trans(*old(rules), pre_rules, *rules);
                }
                match res {
                    Err(e) => {
                        proof {
                            lemma_scan_prefix(full, i + 1);
                            lemma_stop_at_token(full, i as int, raws, looks, tokens@, raw, l, e, time);
                        }
                        return Err(e);
                    },
                    Ok(tok) => {
                        info_update(&mut flags, &mut label, &mut goto, &tok);
                        let ghost old_tokens = tokens@;
                        tokens.push(tok);
                        proof {
                            assert(tokens@.drop_last() =~= old_tokens);
                            assert(tokens_parts(tokens@).drop_last() =~= tokens_parts(old_tokens));
                            lemma_loaded_push(raws, looks, old_tokens, tokens@, raw, l, time);
                            raws = raws.push(raw);
                            looks = looks.push(l);
                        }
                    },
                }
            }
            i += 1;
        }
        assert(v@.take(i as int) =~= full);
        if !((state == 0 || state == 7) && tokens.len() > 0) {
            assert(tokens_parts(tokens@).len() == tokens@.len());
            return Err(RulesError::InvalidLine(i));
        }
        assert(tokens_parts(tokens@).len() == tokens@.len());
        let line_obj = RuleLine {
            line_content: crate::text::string_of(line),
            line_number,
            line_type: flags,
            label,
            goto_label: goto,
            goto_line: None,
            tokens,
        };
        assert(line_outcome(full, time, looks) == line_view(Ok(line_obj)));
        Ok(line_obj)
    }
}

/// The tokens so far are what the elements so far give, with the lookups
/// that were made (and, where no element consults a database, without
/// any), and each is well formed.
pub open spec fn loaded(raws: Seq<RawToken>, looks: Lookups, tokens: Seq<RuleToken>, time: ResolveNameTime) -> bool {
    &&& raws.len() == looks.len()
    &&& raws.len() == tokens.len()
    &&& looks_sound(raws, looks)
    &&& raw_parts(raws, time, looks) == Ok::<Seq<TokenParts>, RulesError>(tokens_parts(tokens))
    &&& lookup_free(raws) ==> raw_parts(raws, time, no_lookups(raws.len())) == Ok::<Seq<TokenParts>, RulesError>(tokens_parts(tokens))
    &&& forall|j: int| 0 <= j < tokens.len() ==> (#[trigger] tokens[j]).wf()
}

/// What one parsed element, and the lookups it made, do to `loaded`.
proof fn lemma_loaded_push(
    raws: Seq<RawToken>,
    looks: Lookups,
    tokens: Seq<RuleToken>,
    tokens2: Seq<RuleToken>,
    raw: RawToken,
    l: (bool, Option<u32>),
    time: ResolveNameTime,
)
    requires
        loaded(raws, looks, tokens, time),
        tokens2.len() == tokens.len() + 1,
        tokens2.drop_last() == tokens,
        tokens2.last().wf(),
        token_outcome(raw.0, raw.1, raw.2, raw.3, time, l.0, l.1) == Ok::<TokenParts, RulesError>(tokens2.last().parts()),
        l.0 ==> id_syntax(raw.3),
        !looks_up_names(raw.0) ==> l == (false, None::<u32>),
    ensures
        loaded(raws.push(raw), looks.push(l), tokens2, time),
{
    let r2 = raws.push(raw);
    let l2 = looks.push(l);
    assert(r2.drop_last() =~= raws);
    assert(l2.drop_last() =~= looks);
    assert(tokens_parts(tokens2) =~= tokens_parts(tokens).push(tokens2.last().parts()));
    assert(no_lookups(r2.len()).drop_last() =~= no_lookups(raws.len()));
    assert(raw_parts(r2, time, l2) == Ok::<Seq<TokenParts>, RulesError>(tokens_parts(tokens2)));
    assert(looks_sound(r2, l2)) by {
        assert forall|j: int| 0 <= j < r2.len() && j < l2.len() && (#[trigger] l2[j]).0 implies id_syntax(r2[j].3) by {
            if j < raws.len() {
                assert(l2[j] == looks[j] && r2[j] == raws[j]);
            }
        }
    }
    if lookup_free(r2) {
        assert(lookup_free(raws)) by {
            assert forall|j: int| 0 <= j < raws.len() implies !looks_up_names(#[trigger] raws[j].0) by {
                assert(r2[j] == raws[j]);
            }
        }
        assert(!looks_up_names(r2[r2.len() - 1].0));
    }
    assert forall|j: int| 0 <= j < tokens2.len() implies (#[trigger] tokens2[j]).wf() by {
        if j < tokens.len() {
            assert(tokens2[j] == tokens[j]);
        }
    }
}

/// A failing element ends the line with its error.
proof fn lemma_stop_at_token(
    full: Seq<char>,
    i: int,
    raws: Seq<RawToken>,
    looks: Lookups,
    tokens: Seq<RuleToken>,
    raw: RawToken,
    l: (bool, Option<u32>),
    e: RulesError,
    time: ResolveNameTime,
)
    requires
        0 <= i < full.len(),
        loaded(raws, looks, tokens, time),
        scan_line(full.take(i + 1)).5 == raws.push(raw),
        scan_line(full.take(i + 1)).5.is_prefix_of(scan_line(full).5),
        token_outcome(raw.0, raw.1, raw.2, raw.3, time, l.0, l.1) == Err::<TokenParts, RulesError>(e),
        l.0 ==> id_syntax(raw.3),
        !looks_up_names(raw.0) ==> l == (false, None::<u32>),
    ensures
        exists|lk: Lookups|
            lk.len() == scan_line(full).5.len() && looks_sound(scan_line(full).5, lk)
                && #[trigger] line_outcome(full, time, lk) == Err::<Seq<TokenParts>, RulesError>(e),
        lookup_free(scan_line(full).5) ==> line_outcome(full, time, no_lookups(scan_line(full).5.len()))
            == Err::<Seq<TokenParts>, RulesError>(e),
{
    let all = scan_line(full).5;
    let k = raws.len() as int;
    let new_raws = raws.push(raw);
    let new_looks = looks.push(l);
    assert(new_raws.drop_last() =~= raws);
    assert(new_looks.drop_last() =~= looks);
    assert(all.take(k + 1) =~= new_raws);
    let more = Seq::new((all.len() - new_looks.len()) as nat, |j: int| (false, None::<u32>));
    let lk = new_looks + more;
    assert(lk.take(k + 1) =~= new_looks);
    lemma_raw_parts_stop(all, time, lk, k);
    assert(looks_sound(all, lk)) by {
        assert forall|j: int| 0 <= j < all.len() && j < lk.len() && (#[trigger] lk[j]).0 implies id_syntax(all[j].3) by {
            if j < k {
                assert(all[j] == raws[j] && lk[j] == looks[j]);
            } else if j == k {
                assert(all[j] == raw && lk[j] == l);
            }
        }
    }
    assert(line_outcome(full, time, lk) == Err::<Seq<TokenParts>, RulesError>(e));
    if lookup_free(all) {
        assert(!looks_up_names(raw.0)) by {
            assert(all[k] == raw);
        }
        assert(lookup_free(raws)) by {
            assert forall|j: int| 0 <= j < raws.len() implies !looks_up_names(#[trigger] raws[j].0) by {
                assert(all[j] == raws[j]);
            }
        }
        let nl = no_lookups(all.len());
        assert(nl.take(k + 1).drop_last() =~= no_lookups(raws.len()));
        assert(nl.take(k + 1) =~= no_lookups(raws.len()).push((false, None::<u32>)));
        lemma_raw_parts_stop(all, time, nl, k);
    }
}

/// Feeds one character to the scanner. Returns 1 where the character
/// breaks the grammar, 2 where it closes a value (the element is then
/// complete and the buffers still hold it), and 0 otherwise.
fn scan_char(
    state: &mut u8,
    key: &mut Vec<char>,
    attr: &mut Vec<char>,
    op: &mut Vec<char>,
    value: &mut Vec<char>,
    ch: char,
    Ghost(raws): Ghost<Seq<RawToken>>,
    Ghost(idx): Ghost<int>,
) -> (r: u8)
    requires
        *old(state) <= 7,
        forall|j: int| 0 <= j < old(attr)@.len() ==> attr_char(#[trigger] old(attr)@[j]),
    ensures
        r <= 2,
        *final(state) <= 7,
        forall|j: int| 0 <= j < final(attr)@.len() ==> attr_char(#[trigger] final(attr)@[j]),
        r == 0 ==> scan_step((*old(state) as int, old(key)@, old(attr)@, old(op)@, old(value)@, raws, None), ch, idx)
            == (*final(state) as int, final(key)@, final(attr)@, final(op)@, final(value)@, raws, None::<int>),
        r == 1 ==> scan_step((*old(state) as int, old(key)@, old(attr)@, old(op)@, old(value)@, raws, None), ch, idx).6 == Some(idx)
            && scan_step((*old(state) as int, old(key)@, old(attr)@, old(op)@, old(value)@, raws, None), ch, idx).5 == raws,
        r == 2 ==> scan_step((*old(state) as int, old(key)@, old(attr)@, old(op)@, old(value)@, raws, None), ch, idx)
            == (*final(state) as int, final(key)@, final(attr)@, final(op)@, final(value)@,
                raws.push((final(key)@, raw_attr(final(attr)@), final(op)@, final(value)@)), None::<int>),
{
    let ws = crate::text::is_ascii_ws(ch);
    let upper = crate::text::is_ascii_upper(ch);
    let opc = ch == '!' || ch == '+' || ch == '-' || ch == ':' || ch == '=';
    if *state == 0 {
        if ws || ch == ',' {
            0
        } else if upper {
            key.push(ch);
            *state = 1;
            0
        } else {
            1
        }
    } else if *state == 1 {
        if upper {
            key.push(ch);
            0
        } else if ws {
            *state = 3;
            0
        } else if ch == '{' {
            *state = 2;
            0
        } else if opc {
            op.push(ch);
            *state = 4;
            0
        } else {
            1
        }
    } else if *state == 2 {
        if ch == '}' {
            *state = 3;
            0
        } else if crate::text::is_ascii_alnum(ch) || ch == '$' || ch == '%' || ch == '*' || ch == '.' || ch == '/'
            || ch == '_' {
            attr.push(ch);
            0
        } else {
            1
        }
    } else if *state == 3 {
        if ws {
            0
        } else if opc {
            op.push(ch);
            *state = 4;
            0
        } else {
            1
        }
    } else if *state == 4 {
        if ch == '=' {
            op.push(ch);
            *state = 5;
            0
        } else if ws {
            *state = 5;
            0
        } else if ch == '"' {
            *state = 6;
            0
        } else {
            1
        }
    } else if *state == 5 {
        if ws {
            0
        } else if ch == '"' {
            *state = 6;
            0
        } else {
            1
        }
    } else if *state == 6 {
        if ch == '"' {
            *state = 7;
            2
        } else {
            value.push(ch);
            0
        }
    } else {
        if ws || ch == ',' {
            *state = 0;
            *key = Vec::new();
            *attr = Vec::new();
            *op = Vec::new();
            *value = Vec::new();
            0
        } else {
            1
        }
    }
}

/// Parses the element held in the scanner's buffers; also returns the
/// lookup results that decided it.
fn emit_token(key: &Vec<char>, attr: &Vec<char>, op: &Vec<char>, value: &Vec<char>, rules: &mut Rules)
    -> (r: (Result<RuleToken, RulesError>, Ghost<(bool, Option<u32>)>))
    requires
        old(rules).wf(),
        forall|j: int| 0 <= j < attr@.len() ==> attr_char(#[trigger] attr@[j]),
    ensures
        token_outcome(key@, raw_attr(attr@), op@, value@, old(rules).resolve_name_time, r.1@.0, r.1@.1) == token_view(r.0),
        r.1@.0 ==> id_syntax(value@),
        !looks_up_names(key@) ==> r.1@ == (false, None::<u32>),
        r.0 matches Ok(t) ==> t.wf(),
        final(rules).wf(),
        same_rules_but_caches(*old(rules), *final(rules)),
        final(rules).resolve_name_time == old(rules).resolve_name_time,
{
    let a = if attr.len() == 0 { None } else { Some(crate::text::string_from(attr)) };
    let ks = crate::text::string_from(key);
    let os = crate::text::string_from(op);
    let vs = crate::text::string_from(value);
    let ghost time = rules.resolve_name_time;
    let ghost kv = key@;
    let res = RuleToken::parse_token(ks, a, os, vs, rules);
    let ghost l = if looks_up_names(kv) {
        choose|id_ok: bool, resolved: Option<u32>|
            (id_ok ==> id_syntax(value@)) && #[trigger] token_outcome(key@, raw_attr(attr@), op@, value@, time, id_ok, resolved) == token_view(res)
    } else {
        (false, None::<u32>)
    };
    (res, Ghost(l))
}

/// Resolving names twice only extends the caches twice.
pub proof fn lemma_same_rules_trans(a: Rules, b: Rules, c: Rules)
    requires
        same_rules_but_caches(a, b),
        same_rules_but_caches(b, c),
    ensures
        same_rules_but_caches(a, c),
{
    let (ua, ub, uc) = (cache_view(a.users@), cache_view(b.users@), cache_view(c.users@));
    let (ga, gb, gc) = (cache_view(a.groups@), cache_view(b.groups@), cache_view(c.groups@));
    assert(uc.subrange(0, ua.len() as int) =~= ub.subrange(0, ua.len() as int));
    assert(gc.subrange(0, ga.len() as int) =~= gb.subrange(0, ga.len() as int));
}


/// The line that `LABEL="lab"` names: the last line carrying that label.
pub open spec fn label_target(lines: Seq<RuleLine>, lab: Seq<char>) -> Option<int>
    decreases lines.len(),
{
    if lines.len() == 0 {
        None
    } else if opt_view(lines.last().label) == Some(lab) {
        Some(lines.len() - 1)
    } else {
        label_target(lines.drop_last(), lab)
    }
}

pub proof fn lemma_label_target(lines: Seq<RuleLine>, lab: Seq<char>)
    ensures
        label_target(lines, lab) matches Some(j) ==> 0 <= j < lines.len() && opt_view(lines[j].label) == Some(lab),
    decreases lines.len(),
{
    if lines.len() > 0 && opt_view(lines.last().label) != Some(lab) {
        lemma_label_target(lines.drop_last(), lab);
    }
}

/// Every `GOTO` of the lines names a label that some line carries.
pub open spec fn gotos_resolvable(lines: Seq<RuleLine>) -> bool {
    forall|i: int| 0 <= i < lines.len() && (#[trigger] lines[i]).goto_label is Some
        ==> label_target(lines, lines[i].goto_label->Some_0@) is Some
}

/// `after` is `before` with each `GOTO` line bound to its label's line.
pub open spec fn gotos_bound(before: Seq<RuleLine>, after: Seq<RuleLine>) -> bool {
    &&& after.len() == before.len()
    &&& forall|i: int| 0 <= i < before.len() ==> #[trigger] after[i] == (RuleLine {
        goto_line: match before[i].goto_label {
            Some(g) => Some(label_target(before, g@)->Some_0 as usize),
            None => before[i].goto_line,
        },
        ..before[i]
    })
}

/// One line of the physical file joined into logical lines: the text so
/// far of a continued line, the number of continuation lines in it, and
/// the completed lines with their numbers.
pub type Joined = (Seq<char>, int, Seq<(Seq<char>, u32)>);

/// Joins physical line `line` (0-based index `idx`): lines are trimmed;
/// empty lines and comments are skipped; a trailing backslash continues
/// the line; a complete line is numbered by its first physical line.
pub open spec fn join_step(st: Joined, line: Seq<char>, idx: int) -> Joined {
    let (full, offset, out) = st;
    let t = crate::text::trim_ws(line);
    if t.len() == 0 || t[0] == '#' {
        st
    } else if t.last() == '\\' {
        (full + t.drop_last(), offset + 1, out)
    } else {
        (Seq::empty(), 0, out.push((full + t, (idx + 1 - offset) as u32)))
    }
}

/// The logical lines of a file whose physical lines are `lines`.
pub open spec fn join_lines(lines: Seq<Seq<char>>) -> Joined
    decreases lines.len(),
{
    if lines.len() == 0 {
        (Seq::empty(), 0, Seq::empty())
    } else {
        join_step(join_lines(lines.drop_last()), lines.last(), lines.len() - 1)
    }
}

/// The views of a vector of strings.
pub open spec fn lines_view(v: Seq<String>) -> Seq<Seq<char>> {
    v.map_values(|s: String| s@)
}

/// A loaded line may have the outcome `r`: some lookups give it, and
/// where no element consults a database it is exactly the outcome.
pub open spec fn possible_line(s: Seq<char>, time: ResolveNameTime, r: Result<Seq<TokenParts>, RulesError>) -> bool {
    &&& exists|looks: Lookups|
        looks.len() == scan_line(s).5.len() && looks_sound(scan_line(s).5, looks)
            && #[trigger] line_outcome(s, time, looks) == r
    &&& lookup_free(scan_line(s).5) ==> r == line_outcome(s, time, no_lookups(scan_line(s).5.len()))
}

impl RuleFile {
    /// An empty rule file.
    pub fn new(file_name: String) -> (f: RuleFile)
        ensures
            f.file_name@ == file_name@,
            f.lines@.len() == 0,
    {
        RuleFile { file_name, lines: Vec::new() }
    }

    /// Appends a line.
    pub fn add_line(&mut self, line: RuleLine)
        ensures
            final(self).file_name == old(self).file_name,
            final(self).lines@ == old(self).lines@.push(line),
    {
        self.lines.push(line);
    }

    /// Binds each `GOTO` line to the line carrying its label (the last one
    /// that does); a label that no line carries is `MissingLabel`.
    pub fn resolve_goto(&mut self) -> (r: Result<(), RulesError>)
        ensures
            final(self).file_name == old(self).file_name,
            r is Ok <==> gotos_resolvable(old(self).lines@),
            r is Ok ==> gotos_bound(old(self).lines@, final(self).lines@),
            r is Err ==> final(self).lines@ == old(self).lines@,
            r matches Err(e) ==> e == RulesError::MissingLabel,
    {
        let ghost before = self.lines@;
        let n = self.lines.len();
        let mut targets: Vec<Option<usize>> = Vec::new();
        let mut i: usize = 0;
        while i < n
            invariant
                n == self.lines.len(),
                self.lines@ == before,
                self.file_name == old(self).file_name,
                0 <= i <= n,
                targets@.len() == i,
                forall|k: int| 0 <= k < i ==> (#[trigger] targets@[k]) == match before[k].goto_label {
                    Some(g) => Some(label_target(before, g@)->Some_0 as usize),
                    None => before[k].goto_line,
                },
                forall|k: int| 0 <= k < i && (#[trigger] before[k]).goto_label is Some
                    ==> label_target(before, before[k].goto_label->Some_0@) is Some,
            decreases n - i,
        {
            let t = match &self.lines[i].goto_label {
                None => self.lines[i].goto_line,
                Some(g) => match find_label(&self.lines, g.as_str()) {
                    Some(j) => Some(j),
                    None => {
                        return Err(RulesError::MissingLabel);
                    },
                },
            };
            targets.push(t);
            i += 1;
        }
        let mut k: usize = 0;
        while k < n
            invariant
                n == self.lines.len(),
                n == before.len(),
                self.file_name == old(self).file_name,
                targets@.len() == n,
                0 <= k <= n,
                forall|m: int| 0 <= m < n ==> (#[trigger] targets@[m]) == match before[m].goto_label {
                    Some(g) => Some(label_target(before, g@)->Some_0 as usize),
                    None => before[m].goto_line,
                },
                forall|m: int| 0 <= m < k ==> #[trigger] self.lines@[m] == (RuleLine { goto_line: targets@[m], ..before[m] }),
                forall|m: int| k <= m < n ==> #[trigger] self.lines@[m] == before[m],
            decreases n - k,
        {
            self.lines[k].goto_line = targets[k];
            k += 1;
        }
        Ok(())
    }
}

/// Index of the last line carrying label `lab`.
fn find_label(lines: &Vec<RuleLine>, lab: &str) -> (r: Option<usize>)
    ensures
        r matches Some(j) ==> label_target(lines@, lab@) == Some(j as int),
        r is None ==> label_target(lines@, lab@) is None,
{
    let mut j = lines.len();
    assert(lines@.take(j as int) =~= lines@);
    while j > 0
        invariant
            j <= lines.len(),
            label_target(lines@, lab@) == label_target(lines@.take(j as int), lab@),
        decreases j,
    {
        let ghost p = lines@.take(j as int);
        assert(p.drop_last() =~= lines@.take(j - 1));
        let hit = match &lines[j - 1].label {
            Some(l) => crate::text::str_eq(l.as_str(), lab),
            None => false,
        };
        if hit {
            return Some(j - 1);
        }
        j -= 1;
    }
    None
}


/// Lines with the same labels name the same targets.
pub proof fn lemma_label_target_labels(a: Seq<RuleLine>, b: Seq<RuleLine>, lab: Seq<char>)
    requires
        a.len() == b.len(),
        forall|i: int| 0 <= i < a.len() ==> (#[trigger] a[i]).label == b[i].label,
    ensures
        label_target(a, lab) == label_target(b, lab),
    decreases a.len(),
{
    if a.len() > 0 {
        assert(a.last().label == b.last().label);
        lemma_label_target_labels(a.drop_last(), b.drop_last(), lab);
    }
}

/// The logical lines completed after a prefix of the file are a prefix of
/// those of the whole file.
pub proof fn lemma_join_prefix(lines: Seq<Seq<char>>, n: int)
    requires
        0 <= n <= lines.len(),
    ensures
        join_lines(lines.take(n)).2.is_prefix_of(join_lines(lines).2),
    decreases lines.len() - n,
{
    if n == lines.len() {
        assert(lines.take(n) =~= lines);
        assert(join_lines(lines).2.subrange(0, join_lines(lines).2.len() as int) =~= join_lines(lines).2);
    } else {
        lemma_join_prefix(lines, n + 1);
        assert(lines.take(n + 1).drop_last() =~= lines.take(n));
        let a = join_lines(lines.take(n)).2;
        let b = join_lines(lines.take(n + 1)).2;
        let c = join_lines(lines).2;
        assert(c.subrange(0, a.len() as int) =~= b.subrange(0, a.len() as int));
        assert(b.subrange(0, a.len() as int) =~= a);
    }
}

/// Where a line's `GOTO` leads within `lines`, or its earlier binding.
pub open spec fn goto_of(l: RuleLine, lines: Seq<RuleLine>, keep: Option<usize>) -> Option<usize> {
    match l.goto_label {
        Some(g) => Some(label_target(lines, g@)->Some_0 as usize),
        None => keep,
    }
}

/// `after` is `before` followed by the loaded logical lines `lg`, with
/// every `GOTO` bound to its label's line.
pub open spec fn file_loaded(before: Seq<RuleLine>, after: Seq<RuleLine>, lg: Seq<(Seq<char>, u32)>, time: ResolveNameTime) -> bool {
    &&& after.len() == before.len() + lg.len()
    &&& gotos_resolvable(after)
    &&& forall|i: int| 0 <= i < before.len() ==> #[trigger] after[i] == (RuleLine {
        goto_line: goto_of(before[i], after, before[i].goto_line),
        ..before[i]
    })
    &&& forall|k: int| 0 <= k < lg.len() ==> {
        let l = #[trigger] after[before.len() + k];
        &&& l.line_content@ == lg[k].0
        &&& l.line_number == lg[k].1
        &&& l.wf()
        &&& possible_line(lg[k].0, time, Ok(tokens_parts(l.tokens@)))
        &&& l.goto_line == goto_of(l, after, None)
    }
}

/// Every logical line of `lg` consults no user or group database.
pub open spec fn file_lookup_free(lg: Seq<(Seq<char>, u32)>) -> bool {
    forall|k: int| 0 <= k < lg.len() ==> lookup_free(scan_line(#[trigger] lg[k].0).5)
}

/// What the logical line `s` gives where it consults no database.
pub open spec fn plain_outcome(s: Seq<char>, time: ResolveNameTime) -> Result<Seq<TokenParts>, RulesError> {
    line_outcome(s, time, no_lookups(scan_line(s).5.len()))
}

/// Every logical line of `lg` loads.
pub open spec fn all_lines_load(lg: Seq<(Seq<char>, u32)>, time: ResolveNameTime) -> bool {
    forall|k: int| 0 <= k < lg.len() ==> plain_outcome(#[trigger] lg[k].0, time) is Ok
}

/// The label and the goto label of a line.
pub type LabelPair = (Option<Seq<char>>, Option<Seq<char>>);

/// The labels and goto labels of `lines`.
pub open spec fn labels_of(lines: Seq<RuleLine>) -> Seq<LabelPair> {
    lines.map_values(|l: RuleLine| (opt_view(l.label), opt_view(l.goto_label)))
}

/// The labels and goto labels that the logical lines `lg` get when they
/// load without consulting a database.
pub open spec fn new_labels(lg: Seq<(Seq<char>, u32)>, time: ResolveNameTime) -> Seq<LabelPair> {
    Seq::new(lg.len(), |k: int| match plain_outcome(lg[k].0, time) {
        Ok(ps) => (line_info(ps).1, line_info(ps).2),
        Err(_) => (None, None),
    })
}

/// Every goto label among `ls` is the label of some entry.
pub open spec fn labels_resolvable(ls: Seq<LabelPair>) -> bool {
    forall|i: int| 0 <= i < ls.len() && (#[trigger] ls[i]).1 is Some
        ==> exists|j: int| 0 <= j < ls.len() && (#[trigger] ls[j]).0 == ls[i].1
}

proof fn lemma_label_target_found(lines: Seq<RuleLine>, lab: Seq<char>, j: int)
    requires
        0 <= j < lines.len(),
        opt_view(lines[j].label) == Some(lab),
    ensures
        label_target(lines, lab) is Some,
    decreases lines.len(),
{
    if j < lines.len() - 1 && opt_view(lines.last().label) != Some(lab) {
        assert(lines.drop_last()[j] == lines[j]);
        lemma_label_target_found(lines.drop_last(), lab, j);
    }
}

/// The `GOTO`s of `lines` can be bound exactly when every goto label is
/// the label of some line.
proof fn lemma_gotos_resolvable_labels(lines: Seq<RuleLine>)
    ensures
        gotos_resolvable(lines) == labels_resolvable(labels_of(lines)),
{
    let ls = labels_of(lines);
    assert forall|i: int| 0 <= i < lines.len() && (#[trigger] lines[i]).goto_label is Some implies
        (label_target(lines, lines[i].goto_label->Some_0@) is Some
            <==> exists|j: int| 0 <= j < ls.len() && (#[trigger] ls[j]).0 == ls[i].1) by {
        let lab = lines[i].goto_label->Some_0@;
        assert(ls[i].1 == Some(lab));
        lemma_label_target(lines, lab);
        if label_target(lines, lab) is Some {
            let j = label_target(lines, lab)->Some_0;
            assert(ls[j].0 == ls[i].1);
        }
        if exists|j: int| 0 <= j < ls.len() && (#[trigger] ls[j]).0 == ls[i].1 {
            let j = choose|j: int| 0 <= j < ls.len() && (#[trigger] ls[j]).0 == ls[i].1;
            lemma_label_target_found(lines, lab, j);
        }
    }
    if gotos_resolvable(lines) {
        assert forall|i: int| 0 <= i < ls.len() && (#[trigger] ls[i]).1 is Some
            implies exists|j: int| 0 <= j < ls.len() && (#[trigger] ls[j]).0 == ls[i].1 by {
            assert(lines[i].goto_label is Some);
        }
    }
    if labels_resolvable(ls) {
        assert forall|i: int| 0 <= i < lines.len() && (#[trigger] lines[i]).goto_label is Some
            implies label_target(lines, lines[i].goto_label->Some_0@) is Some by {
            assert(ls[i].1 is Some);
        }
    }
}

/// No rule element fails for a missing label: that error is the file's.
proof fn lemma_token_not_missing_label(
    key: Seq<char>,
    attr: Option<Seq<char>>,
    op_str: Seq<char>,
    value: Seq<char>,
    time: ResolveNameTime,
    id_ok: bool,
    resolved: Option<u32>,
)
    ensures
        token_outcome(key, attr, op_str, value, time, id_ok, resolved) != Err::<TokenParts, RulesError>(RulesError::MissingLabel),
{
}

proof fn lemma_raw_parts_not_missing_label(raws: Seq<RawToken>, time: ResolveNameTime, looks: Lookups)
    ensures
        raw_parts(raws, time, looks) != Err::<Seq<TokenParts>, RulesError>(RulesError::MissingLabel),
    decreases raws.len(),
{
    if raws.len() > 0 {
        lemma_raw_parts_not_missing_label(raws.drop_last(), time, looks.drop_last());
        let (k, a, o, v) = raws.last();
        let l = looks.last();
        lemma_token_not_missing_label(k, a, o, v, time, l.0, l.1);
    }
}

/// No line fails for a missing label.
pub proof fn lemma_line_not_missing_label(s: Seq<char>, time: ResolveNameTime, looks: Lookups)
    ensures
        line_outcome(s, time, looks) != Err::<Seq<TokenParts>, RulesError>(RulesError::MissingLabel),
{
    lemma_raw_parts_not_missing_label(scan_line(s).5, time, looks);
}

/// A rule file whose lines consult no database loads after the lines
/// `before` exactly when every logical line of `lg` loads and every
/// `GOTO` among all the lines names a label that some line carries.
pub open spec fn file_loads(before: Seq<RuleLine>, lg: Seq<(Seq<char>, u32)>, time: ResolveNameTime) -> bool {
    all_lines_load(lg, time) && labels_resolvable(labels_of(before) + new_labels(lg, time))
}

/// Appends `src[a..b]` to `dst`.
fn extend_range(dst: &mut Vec<char>, src: &Vec<char>, a: usize, b: usize)
    requires
        a <= b <= src.len(),
    ensures
        final(dst)@ == old(dst)@ + src@.subrange(a as int, b as int),
{
    let mut j = a;
    while j < b
        invariant
            a <= j <= b <= src.len(),
            dst@ == old(dst)@ + src@.subrange(a as int, j as int),
        decreases b - j,
    {
        dst.push(src[j]);
        j += 1;
        assert(dst@ =~= old(dst)@ + src@.subrange(a as int, j as int));
    }
}

impl RuleFile {
    /// Loads the physical lines `lines` of the file: trims them, skips
    /// empty lines and comments, joins lines that end in a backslash with
    /// the next, loads each logical line (numbered by its first physical
    /// line) and finally binds `GOTO`s to labels. A line that fails to
    /// load, or a `GOTO` to a missing label, is an error.
    pub fn parse_lines(&mut self, lines: &Vec<String>, rules: &mut Rules) -> (r: Result<(), RulesError>)
        requires
            old(rules).wf(),
        ensures
            final(rules).wf(),
            same_rules_but_caches(*old(rules), *final(rules)),
            final(self).file_name == old(self).file_name,
            r is Ok ==> file_loaded(old(self).lines@, final(self).lines@, join_lines(lines_view(lines@)).2, old(rules).resolve_name_time),
            r matches Err(e) ==> e == RulesError::MissingLabel || exists|k: int|
                0 <= k < join_lines(lines_view(lines@)).2.len()
                    && possible_line(#[trigger] join_lines(lines_view(lines@)).2[k].0, old(rules).resolve_name_time, Err(e)),
            r == Err::<(), RulesError>(RulesError::MissingLabel) ==> !gotos_resolvable(final(self).lines@)
                && final(self).lines@.len() == old(self).lines@.len() + join_lines(lines_view(lines@)).2.len(),
            file_lookup_free(join_lines(lines_view(lines@)).2) ==> (r is Ok <==> file_loads(
                old(self).lines@,
                join_lines(lines_view(lines@)).2,
                old(rules).resolve_name_time,
            )),
            file_lookup_free(join_lines(lines_view(lines@)).2) ==> (r == Err::<(), RulesError>(RulesError::MissingLabel)
                <==> (all_lines_load(join_lines(lines_view(lines@)).2, old(rules).resolve_name_time) && !file_loads(
                old(self).lines@,
                join_lines(lines_view(lines@)).2,
                old(rules).resolve_name_time,
            ))),
    {
        let ghost time = rules.resolve_name_time;
        let ghost before = self.lines@;
        let ghost pv = lines_view(lines@);
        let mut full: Vec<char> = Vec::new();
        let mut offset: usize = 0;
        assert(cache_view(rules.users@).is_prefix_of(cache_view(rules.users@)));
        assert(cache_view(rules.groups@).is_prefix_of(cache_view(rules.groups@)));
        assert(pv.take(0) =~= Seq::<Seq<char>>::empty());
        let mut i: usize = 0;
        while i < lines.len()
            invariant
                0 <= i <= lines.len(),
                pv == lines_view(lines@),
                pv.len() == lines@.len(),
                join_lines(pv.take(i as int)).0 == full@,
                join_lines(pv.take(i as int)).1 == offset as int,
                offset <= i,
                self.file_name == old(self).file_name,
                self.lines@.len() == before.len() + join_lines(pv.take(i as int)).2.len(),
                forall|m: int| 0 <= m < before.len() ==> #[trigger] self.lines@[m] == before[m],
                forall|k: int| 0 <= k < join_lines(pv.take(i as int)).2.len() ==> {
                    let l = #[trigger] self.lines@[before.len() + k];
                    let lg = join_lines(pv.take(i as int)).2;
                    &&& l.line_content@ == lg[k].0
                    &&& l.line_number == lg[k].1
                    &&& l.wf()
                    &&& possible_line(lg[k].0, time, Ok(tokens_parts(l.tokens@)))
                    &&& l.goto_line is None
                },
                rules.wf(),
                same_rules_but_caches(*old(rules), *rules),
                rules.resolve_name_time == time,
                time == old(rules).resolve_name_time,
            decreases lines.len() - i,
        {
            let ghost jprev = join_lines(pv.take(i as int));
            assert(pv.take(i + 1).drop_last() =~= pv.take(i as int));
            assert(pv.take(i + 1).last() == lines@[i as int]@);
            let v = chars_of(lines[i].as_str());
            assert(v@.subrange(0, v@.len() as int) =~= v@);
            let (a, b) = crate::text::trim_bounds(&v, 0, v.len());
            let ghost t = v@.subrange(a as int, b as int);
            if a == b || v[a] == '#' {
                assert(join_lines(pv.take(i + 1)) == jprev);
            } else if v[b - 1] == '\\' {
                assert(t.drop_last() =~= v@.subrange(a as int, b - 1));
                extend_range(&mut full, &v, a, b - 1);
                offset += 1;
            } else {
                extend_range(&mut full, &v, a, b);
                let number = (i + 1 - offset) as u32;
                let text = crate::text::string_from(&full);
                let ghost pre_rules = *rules;
                let loaded = RuleLine::load_line(text.as_str(), number, rules);
                proof {
                    lemma_same_rules_trans(*old(rules), pre_rules, *rules);
                }
                let ghost lg1 = join_lines(pv.take(i + 1)).2;
                assert(lg1 == jprev.2.push((full@, number)));
                match loaded {
                    Err(e) => {
                        proof {
                            lemma_join_prefix(pv, i + 1);
                            let k = jprev.2.len() as int;
                            assert(join_lines(pv).2[k] == lg1[k]);
                            assert(possible_line(join_lines(pv).2[k].0, time, Err(e)));
                            let looks = choose|looks: Lookups|
                                looks.len() == scan_line(full@).5.len() && looks_sound(scan_line(full@).5, looks)
                                    && #[trigger] line_outcome(full@, time, looks) == Err::<Seq<TokenParts>, RulesError>(e);
                            lemma_line_not_missing_label(full@, time, looks);
                            if file_lookup_free(join_lines(pv).2) {
                                assert(lookup_free(scan_line(join_lines(pv).2[k].0).5));
                                assert(plain_outcome(join_lines(pv).2[k].0, time) is Err);
                                assert(!all_lines_load(join_lines(pv).2, time));
                            }
                        }
                        return Err(e);
                    },
                    Ok(l) => {
                        let ghost old_lines = self.lines@;
                        self.add_line(l);
                        assert forall|k: int| 0 <= k < lg1.len() implies {
                            let l = #[trigger] self.lines@[before.len() + k];
                            &&& l.line_content@ == lg1[k].0
                            &&& l.line_number == lg1[k].1
                            &&& l.wf()
                            &&& possible_line(lg1[k].0, time, Ok(tokens_parts(l.tokens@)))
                            &&& l.goto_line is None
                        } by {
                            if k < jprev.2.len() {
                                assert(self.lines@[before.len() + k] == old_lines[before.len() + k]);
                                assert(lg1[k] == jprev.2[k]);
                            }
                        }
                    },
                }
                full = Vec::new();
                offset = 0;
            }
            i += 1;
        }
        assert(pv.take(i as int) =~= pv);
        let ghost mid = self.lines@;
        proof {
            let lg = join_lines(pv).2;
            lemma_gotos_resolvable_labels(mid);
            if file_lookup_free(lg) {
                assert forall|k: int| 0 <= k < lg.len() implies plain_outcome(#[trigger] lg[k].0, time) is Ok
                    && new_labels(lg, time)[k] == labels_of(mid)[before.len() + k] by {
                    let l = mid[before.len() + k];
                    assert(lookup_free(scan_line(lg[k].0).5));
                    assert(plain_outcome(lg[k].0, time) == Ok::<Seq<TokenParts>, RulesError>(tokens_parts(l.tokens@)));
                }
                assert(labels_of(mid) =~= labels_of(before) + new_labels(lg, time));
                assert(all_lines_load(lg, time));
            }
        }
        let res = self.resolve_goto();
        match res {
            Err(e) => Err(e),
            Ok(()) => {
                proof {
                    let after = self.lines@;
                    let lg = join_lines(pv).2;
                    assert forall|lab: Seq<char>| true implies label_target(mid, lab) == label_target(after, lab) by {
                        lemma_label_target_labels(mid, after, lab);
                    }
                    assert forall|m: int| 0 <= m < after.len() && (#[trigger] after[m]).goto_label is Some
                        implies label_target(after, after[m].goto_label->Some_0@) is Some by {
                        assert(mid[m].goto_label == after[m].goto_label);
                        lemma_label_target_labels(mid, after, after[m].goto_label->Some_0@);
                    }
                    assert forall|m: int| 0 <= m < before.len() implies #[trigger] after[m] == (RuleLine {
                        goto_line: goto_of(before[m], after, before[m].goto_line),
                        ..before[m]
                    }) by {
                        assert(mid[m] == before[m]);
                        match before[m].goto_label {
                            Some(g) => lemma_label_target_labels(mid, after, g@),
                            None => {},
                        }
                    }
                    assert forall|k: int| 0 <= k < lg.len() implies {
                        let l = #[trigger] after[before.len() + k];
                        &&& l.line_content@ == lg[k].0
                        &&& l.line_number == lg[k].1
                        &&& l.wf()
                        &&& possible_line(lg[k].0, time, Ok(tokens_parts(l.tokens@)))
                        &&& l.goto_line == goto_of(l, after, None)
                    } by {
                        let m = before.len() + k;
                        assert(after[m] == (RuleLine { goto_line: goto_of(mid[m], mid, mid[m].goto_line), ..mid[m] }));
                        match mid[m].goto_label {
                            Some(g) => lemma_label_target_labels(mid, after, g@),
                            None => {},
                        }
                    }
                }
                Ok(())
            },
        }
    }
}


impl RuleFile {
    /// A rule file loaded from its physical lines (see `parse_lines`).
    pub fn load_file(file_name: String, lines: &Vec<String>, rules: &mut Rules) -> (r: Result<RuleFile, RulesError>)
        requires
            old(rules).wf(),
        ensures
            final(rules).wf(),
            same_rules_but_caches(*old(rules), *final(rules)),
            r matches Ok(f) ==> f.file_name@ == file_name@
                && file_loaded(Seq::empty(), f.lines@, join_lines(lines_view(lines@)).2, old(rules).resolve_name_time),
            r matches Err(e) ==> e == RulesError::MissingLabel || exists|k: int|
                0 <= k < join_lines(lines_view(lines@)).2.len()
                    && possible_line(#[trigger] join_lines(lines_view(lines@)).2[k].0, old(rules).resolve_name_time, Err(e)),
            file_lookup_free(join_lines(lines_view(lines@)).2) ==> (r is Ok <==> file_loads(
                Seq::empty(),
                join_lines(lines_view(lines@)).2,
                old(rules).resolve_name_time,
            )),
            file_lookup_free(join_lines(lines_view(lines@)).2) ==> (r matches Err(e) && e == RulesError::MissingLabel
                <==> (all_lines_load(join_lines(lines_view(lines@)).2, old(rules).resolve_name_time) && !file_loads(
                Seq::empty(),
                join_lines(lines_view(lines@)).2,
                old(rules).resolve_name_time,
            ))),
    {
        let mut f = RuleFile::new(file_name);
        match f.parse_lines(lines, rules) {
            Ok(()) => Ok(f),
            Err(e) => Err(e),
        }
    }
}

impl Rules {
    /// Appends a rule file.
    pub fn add_file(&mut self, file: RuleFile)
        ensures
            final(self).files@ == old(self).files@.push(file),
            final(self).dirs@ == old(self).dirs@,
            final(self).resolve_name_time == old(self).resolve_name_time,
            final(self).users@ == old(self).users@,
            final(self).groups@ == old(self).groups@,
    {
        self.files.push(file);
    }

    /// Loads a rule file from its physical lines and appends it.
    pub fn parse_file(&mut self, file_name: String, lines: &Vec<String>) -> (r: Result<(), RulesError>)
        requires
            old(self).wf(),
        ensures
            final(self).wf(),
            final(self).dirs@ == old(self).dirs@,
            final(self).resolve_name_time == old(self).resolve_name_time,
            r is Ok ==> final(self).files@.len() == old(self).files@.len() + 1
                && final(self).files@.take(old(self).files@.len() as int) == old(self).files@
                && final(self).files@.last().file_name@ == file_name@
                && file_loaded(Seq::empty(), final(self).files@.last().lines@, join_lines(lines_view(lines@)).2, old(self).resolve_name_time),
            r is Err ==> final(self).files@ == old(self).files@,
            r matches Err(e) ==> e == RulesError::MissingLabel || exists|k: int|
                0 <= k < join_lines(lines_view(lines@)).2.len()
                    && possible_line(#[trigger] join_lines(lines_view(lines@)).2[k].0, old(self).resolve_name_time, Err(e)),
            file_lookup_free(join_lines(lines_view(lines@)).2) ==> (r is Ok <==> file_loads(
                Seq::empty(),
                join_lines(lines_view(lines@)).2,
                old(self).resolve_name_time,
            )),
            file_lookup_free(join_lines(lines_view(lines@)).2) ==> (r == Err::<(), RulesError>(RulesError::MissingLabel)
                <==> (all_lines_load(join_lines(lines_view(lines@)).2, old(self).resolve_name_time) && !file_loads(
                Seq::empty(),
                join_lines(lines_view(lines@)).2,
                old(self).resolve_name_time,
            ))),
    {
        match RuleFile::load_file(file_name, lines, self) {
            Ok(f) => {
                let ghost before = self.files@;
                self.add_file(f);
                assert(self.files@.take(before.len() as int) =~= before);
                Ok(())
            },
            Err(e) => Err(e),
        }
    }
}

/// A token written with `==` or `!=` compares: whatever its key, a token
/// that loads with such an operator is a matching token, never an
/// assignment.
pub proof fn law_compare_ops_give_match_tokens(
    key: Seq<char>,
    attr: Option<Seq<char>>,
    op_str: Seq<char>,
    value: Seq<char>,
    time: ResolveNameTime,
    id_ok: bool,
    resolved: Option<u32>,
)
    requires
        operator_of(op_str) matches Some(op) && is_match_op(op),
        token_outcome(key, attr, op_str, value, time, id_ok, resolved) is Ok,
    ensures
        token_outcome(key, attr, op_str, value, time, id_ok, resolved)->Ok_0.0.rank()
            < TokenType::AssignOptionsStringEscapeNone.rank(),
{
}

/// Resolving a name that resolved once gives the same id again and
/// leaves the cache as it is: the second resolution reads what the first
/// wrote.
pub proof fn law_resolve_again(
    c0: Seq<(Seq<char>, u32)>,
    c1: Seq<(Seq<char>, u32)>,
    c2: Seq<(Seq<char>, u32)>,
    name: Seq<char>,
    r1: Result<u32, RulesError>,
    r2: Result<u32, RulesError>,
)
    requires
        resolve_step(c0, c1, name, r1),
        resolve_step(c1, c2, name, r2),
        r1 is Ok,
    ensures
        r2 == r1,
        c2 == c1,
{
    if cache_has(c0, name) {
        let i = choose|i: int| 0 <= i < c0.len() && #[trigger] c0[i].0 == name;
        assert(r1 == Ok::<u32, RulesError>(c0[i].1) && c1 == c0);
        assert(c1[i].0 == name);
        assert(r2 == Ok::<u32, RulesError>(c1[i].1) && c2 == c1);
    } else {
        let id = r1->Ok_0;
        assert(c1 == c0.push((name, id)));
        let k = c0.len() as int;
        assert(c1[k].0 == name);
        assert(r2 == Ok::<u32, RulesError>(c1[k].1) && c2 == c1);
    }
}

proof fn lemma_join_numbers(lines: Seq<Seq<char>>)
    requires
        lines.len() <= u32::MAX,
    ensures
        0 <= join_lines(lines).1 <= lines.len(),
        forall|i: int| 0 <= i < join_lines(lines).2.len() ==> 1 <= (#[trigger] join_lines(lines).2[i]).1
            <= lines.len() - join_lines(lines).1,
        forall|i: int, j: int| 0 <= i < j < join_lines(lines).2.len() ==> (#[trigger] join_lines(lines).2[i]).1
            < (#[trigger] join_lines(lines).2[j]).1,
    decreases lines.len(),
{
    if lines.len() > 0 {
        let prev = lines.drop_last();
        lemma_join_numbers(prev);
        let n = prev.len() as int;
        let (full, offset, out) = join_lines(prev);
        let t = crate::text::trim_ws(lines.last());
        if !(t.len() == 0 || t[0] == '#') && t.last() != '\\' {
            let num = (n + 1 - offset) as u32;
            assert(num as int == n + 1 - offset);
            let out2 = out.push((full + t, num));
            assert(join_lines(lines).2 == out2);
            assert forall|i: int, j: int| 0 <= i < j < out2.len() implies (#[trigger] out2[i]).1 < (#[trigger] out2[j]).1 by {
                if j == out.len() {
                    assert(out2[i] == out[i]);
                } else {
                    assert(out2[i] == out[i] && out2[j] == out[j]);
                }
            }
            assert forall|i: int| 0 <= i < out2.len() implies 1 <= (#[trigger] out2[i]).1 <= lines.len() - 0 by {
                if i < out.len() {
                    assert(out2[i] == out[i]);
                }
            }
        }
    }
}

/// The lines of a rule file are numbered by the physical line where each
/// starts: the numbers lie within the file and strictly increase (for
/// files of fewer than 2^32 lines, whose numbers fit the counter).
pub proof fn law_line_numbers_increase(lines: Seq<Seq<char>>)
    requires
        lines.len() <= u32::MAX,
    ensures
        forall|i: int| 0 <= i < join_lines(lines).2.len() ==> 1 <= (#[trigger] join_lines(lines).2[i]).1 <= lines.len(),
        forall|i: int, j: int| 0 <= i < j < join_lines(lines).2.len() ==> (#[trigger] join_lines(lines).2[i]).1
            < (#[trigger] join_lines(lines).2[j]).1,
{
    lemma_join_numbers(lines);
}

} // verus!
