//! Rule vocabulary: token kinds, operators, substitution formatters and
//! the in-memory form of rule files, lines and tokens.

use vstd::prelude::*;
use crate::text::{chars_of, chars_eq, contains_char, decimal, push_decimal, str_eq, string_extend, string_of, string_push};

pub mod rules_load;
pub mod rule_load;
pub mod node;
pub mod rule_execute;
pub mod exec_unit;
pub mod rule_files;
pub mod device_eval;

verus! {

/// Kind of a rule token.
#[derive(Debug, Clone, Copy, PartialEq, Eq, Structural)]
pub enum TokenType {
    MatchAction,
    MatchDevpath,
    MatchKernel,
    MatchDevlink,
    MatchName,
    MatchEnv,
    MatchConst,
    MatchTag,
    MatchSubsystem,
    MatchDriver,
    MatchAttr,
    MatchSysctl,
    MatchParentsKernel,
    MatchParentsSubsystem,
    MatchParentsDriver,
    MatchParentsAttr,
    MatchParentsTag,
    MatchResult,
    MatchTest,
    MatchProgram,
    MatchImportFile,
    MatchImportProgram,
    MatchImportBuiltin,
    MatchImportDb,
    MatchImportCmdline,
    MatchImportParent,
    AssignOptionsStringEscapeNone,
    AssignOptionsStringEscapeReplace,
    AssignOptionsDbPersist,
    AssignOptionsWatch,
    AssignOptionsDevlinkPriority,
    AssignOptionsLogLevel,
    AssignOwner,
    AssignGroup,
    AssignMode,
    AssignOwnerId,
    AssignGroupId,
    AssignModeId,
    AssignTag,
    AssignOptionsStaticNode,
    AssignSeclabel,
    AssignEnv,
    AssignName,
    AssignDevlink,
    AssignAttr,
    AssignSysctl,
    AssignRunBuiltin,
    AssignRunProgram,
    Goto,
    Label,
}

impl TokenType {
    /// Position of the kind in declaration order; kinds are ordered by it.
    pub open spec fn rank(self) -> int {
        match self {
            TokenType::MatchAction => 0,
            TokenType::MatchDevpath => 1,
            TokenType::MatchKernel => 2,
            TokenType::MatchDevlink => 3,
            TokenType::MatchName => 4,
            TokenType::MatchEnv => 5,
            TokenType::MatchConst => 6,
            TokenType::MatchTag => 7,
            TokenType::MatchSubsystem => 8,
            TokenType::MatchDriver => 9,
            TokenType::MatchAttr => 10,
            TokenType::MatchSysctl => 11,
            TokenType::MatchParentsKernel => 12,
            TokenType::MatchParentsSubsystem => 13,
            TokenType::MatchParentsDriver => 14,
            TokenType::MatchParentsAttr => 15,
            TokenType::MatchParentsTag => 16,
            TokenType::MatchResult => 17,
            TokenType::MatchTest => 18,
            TokenType::MatchProgram => 19,
            TokenType::MatchImportFile => 20,
            TokenType::MatchImportProgram => 21,
            TokenType::MatchImportBuiltin => 22,
            TokenType::MatchImportDb => 23,
            TokenType::MatchImportCmdline => 24,
            TokenType::MatchImportParent => 25,
            TokenType::AssignOptionsStringEscapeNone => 26,
            TokenType::AssignOptionsStringEscapeReplace => 27,
            TokenType::AssignOptionsDbPersist => 28,
            TokenType::AssignOptionsWatch => 29,
            TokenType::AssignOptionsDevlinkPriority => 30,
            TokenType::AssignOptionsLogLevel => 31,
            TokenType::AssignOwner => 32,
            TokenType::AssignGroup => 33,
            TokenType::AssignMode => 34,
            TokenType::AssignOwnerId => 35,
            TokenType::AssignGroupId => 36,
            TokenType::AssignModeId => 37,
            TokenType::AssignTag => 38,
            TokenType::AssignOptionsStaticNode => 39,
            TokenType::AssignSeclabel => 40,
            TokenType::AssignEnv => 41,
            TokenType::AssignName => 42,
            TokenType::AssignDevlink => 43,
            TokenType::AssignAttr => 44,
            TokenType::AssignSysctl => 45,
            TokenType::AssignRunBuiltin => 46,
            TokenType::AssignRunProgram => 47,
            TokenType::Goto => 48,
            TokenType::Label => 49,
        }
    }

    /// The kind's position in declaration order.
    pub fn order(&self) -> (r: u8)
        ensures
            r as int == self.rank(),
    {
        match self {
            TokenType::MatchAction => 0,
            TokenType::MatchDevpath => 1,
            TokenType::MatchKernel => 2,
            TokenType::MatchDevlink => 3,
            TokenType::MatchName => 4,
            TokenType::MatchEnv => 5,
            TokenType::MatchConst => 6,
            TokenType::MatchTag => 7,
            TokenType::MatchSubsystem => 8,
            TokenType::MatchDriver => 9,
            TokenType::MatchAttr => 10,
            TokenType::MatchSysctl => 11,
            TokenType::MatchParentsKernel => 12,
            TokenType::MatchParentsSubsystem => 13,
            TokenType::MatchParentsDriver => 14,
            TokenType::MatchParentsAttr => 15,
            TokenType::MatchParentsTag => 16,
            TokenType::MatchResult => 17,
            TokenType::MatchTest => 18,
            TokenType::MatchProgram => 19,
            TokenType::MatchImportFile => 20,
            TokenType::MatchImportProgram => 21,
            TokenType::MatchImportBuiltin => 22,
            TokenType::MatchImportDb => 23,
            TokenType::MatchImportCmdline => 24,
            TokenType::MatchImportParent => 25,
            TokenType::AssignOptionsStringEscapeNone => 26,
            TokenType::AssignOptionsStringEscapeReplace => 27,
            TokenType::AssignOptionsDbPersist => 28,
            TokenType::AssignOptionsWatch => 29,
            TokenType::AssignOptionsDevlinkPriority => 30,
            TokenType::AssignOptionsLogLevel => 31,
            TokenType::AssignOwner => 32,
            TokenType::AssignGroup => 33,
            TokenType::AssignMode => 34,
            TokenType::AssignOwnerId => 35,
            TokenType::AssignGroupId => 36,
            TokenType::AssignModeId => 37,
            TokenType::AssignTag => 38,
            TokenType::AssignOptionsStaticNode => 39,
            TokenType::AssignSeclabel => 40,
            TokenType::AssignEnv => 41,
            TokenType::AssignName => 42,
            TokenType::AssignDevlink => 43,
            TokenType::AssignAttr => 44,
            TokenType::AssignSysctl => 45,
            TokenType::AssignRunBuiltin => 46,
            TokenType::AssignRunProgram => 47,
            TokenType::Goto => 48,
            TokenType::Label => 49,
        }
    }

    /// The rule key that the kind is written with.
    pub open spec fn key_spec(self) -> Seq<char> {
        match self {
            TokenType::MatchAction => "ACTION"@,
            TokenType::MatchDevpath => "DEVPATH"@,
            TokenType::MatchKernel => "KERNEL"@,
            TokenType::MatchDevlink | TokenType::AssignDevlink => "SYMLINK"@,
            TokenType::MatchName | TokenType::AssignName => "NAME"@,
            TokenType::MatchEnv | TokenType::AssignEnv => "ENV"@,
            TokenType::MatchConst => "CONST"@,
            TokenType::MatchTag | TokenType::AssignTag => "TAG"@,
            TokenType::MatchSubsystem => "SUBSYSTEM"@,
            TokenType::MatchDriver => "DRIVER"@,
            TokenType::MatchAttr | TokenType::AssignAttr => "ATTR"@,
            TokenType::MatchSysctl | TokenType::AssignSysctl => "SYSCTL"@,
            TokenType::MatchParentsKernel => "KERNELS"@,
            TokenType::MatchParentsSubsystem => "SUBSYSTEMS"@,
            TokenType::MatchParentsDriver => "DRIVERS"@,
            TokenType::MatchParentsAttr => "ATTRS"@,
            TokenType::MatchParentsTag => "TAGS"@,
            TokenType::MatchResult => "RESULT"@,
            TokenType::MatchTest => "TEST"@,
            TokenType::MatchProgram => "PROGRAM"@,
            TokenType::MatchImportFile | TokenType::MatchImportProgram
            | TokenType::MatchImportBuiltin | TokenType::MatchImportDb
            | TokenType::MatchImportCmdline | TokenType::MatchImportParent => "IMPORT"@,
            TokenType::AssignOptionsStringEscapeNone | TokenType::AssignOptionsStringEscapeReplace
            | TokenType::AssignOptionsDbPersist | TokenType::AssignOptionsWatch
            | TokenType::AssignOptionsDevlinkPriority | TokenType::AssignOptionsLogLevel
            | TokenType::AssignOptionsStaticNode => "OPTIONS"@,
            TokenType::AssignOwner | TokenType::AssignOwnerId => "OWNER"@,
            TokenType::AssignGroup | TokenType::AssignGroupId => "GROUP"@,
            TokenType::AssignMode | TokenType::AssignModeId => "MODE"@,
            TokenType::AssignSeclabel => "SECLABEL"@,
            TokenType::AssignRunBuiltin | TokenType::AssignRunProgram => "RUN"@,
            TokenType::Goto => "GOTO"@,
            TokenType::Label => "LABEL"@,
        }
    }

    /// The rule key that the kind is written with (its display form).
    pub fn key(&self) -> (r: &'static str)
        ensures
            r@ == self.key_spec(),
    {
        match self {
            TokenType::MatchAction => "ACTION",
            TokenType::MatchDevpath => "DEVPATH",
            TokenType::MatchKernel => "KERNEL",
            TokenType::MatchDevlink | TokenType::AssignDevlink => "SYMLINK",
            TokenType::MatchName | TokenType::AssignName => "NAME",
            TokenType::MatchEnv | TokenType::AssignEnv => "ENV",
            TokenType::MatchConst => "CONST",
            TokenType::MatchTag | TokenType::AssignTag => "TAG",
            TokenType::MatchSubsystem => "SUBSYSTEM",
            TokenType::MatchDriver => "DRIVER",
            TokenType::MatchAttr | TokenType::AssignAttr => "ATTR",
            TokenType::MatchSysctl | TokenType::AssignSysctl => "SYSCTL",
            TokenType::MatchParentsKernel => "KERNELS",
            TokenType::MatchParentsSubsystem => "SUBSYSTEMS",
            TokenType::MatchParentsDriver => "DRIVERS",
            TokenType::MatchParentsAttr => "ATTRS",
            TokenType::MatchParentsTag => "TAGS",
            TokenType::MatchResult => "RESULT",
            TokenType::MatchTest => "TEST",
            TokenType::MatchProgram => "PROGRAM",
            TokenType::MatchImportFile | TokenType::MatchImportProgram
            | TokenType::MatchImportBuiltin | TokenType::MatchImportDb
            | TokenType::MatchImportCmdline | TokenType::MatchImportParent => "IMPORT",
            TokenType::AssignOptionsStringEscapeNone | TokenType::AssignOptionsStringEscapeReplace
            | TokenType::AssignOptionsDbPersist | TokenType::AssignOptionsWatch
            | TokenType::AssignOptionsDevlinkPriority | TokenType::AssignOptionsLogLevel
            | TokenType::AssignOptionsStaticNode => "OPTIONS",
            TokenType::AssignOwner | TokenType::AssignOwnerId => "OWNER",
            TokenType::AssignGroup | TokenType::AssignGroupId => "GROUP",
            TokenType::AssignMode | TokenType::AssignModeId => "MODE",
            TokenType::AssignSeclabel => "SECLABEL",
            TokenType::AssignRunBuiltin | TokenType::AssignRunProgram => "RUN",
            TokenType::Goto => "GOTO",
            TokenType::Label => "LABEL",
        }
    }
}

/// Operator of a rule token.
#[derive(Debug, Clone, Copy, PartialEq, Eq, Structural)]
pub enum OperatorType {
    /// `==`
    Match,
    /// `!=`
    Nomatch,
    /// `+=`
    Add,
    /// `-=`
    Remove,
    /// `=`
    Assign,
    /// `:=`
    AssignFinal,
}

/// The operator that `s` spells, if any.
pub open spec fn operator_of(s: Seq<char>) -> Option<OperatorType> {
    if s == "=="@ {
        Some(OperatorType::Match)
    } else if s == "!="@ {
        Some(OperatorType::Nomatch)
    } else if s == "="@ {
        Some(OperatorType::Assign)
    } else if s == "+="@ {
        Some(OperatorType::Add)
    } else if s == "-="@ {
        Some(OperatorType::Remove)
    } else if s == ":="@ {
        Some(OperatorType::AssignFinal)
    } else {
        None
    }
}

impl OperatorType {
    /// The textual form of the operator.
    pub open spec fn text_spec(self) -> Seq<char> {
        match self {
            OperatorType::Match => "=="@,
            OperatorType::Nomatch => "!="@,
            OperatorType::Add => "+="@,
            OperatorType::Remove => "-="@,
            OperatorType::AssignFinal => ":="@,
            OperatorType::Assign => "="@,
        }
    }

    /// The textual form of the operator (its display form).
    pub fn text(&self) -> (r: &'static str)
        ensures
            r@ == self.text_spec(),
    {
        match self {
            OperatorType::Match => "==",
            OperatorType::Nomatch => "!=",
            OperatorType::Add => "+=",
            OperatorType::Remove => "-=",
            OperatorType::AssignFinal => ":=",
            OperatorType::Assign => "=",
        }
    }

    /// Parses an operator; an unknown spelling is an error.
    pub fn from_str(s: &str) -> (r: Result<OperatorType, RulesError>)
        ensures
            r matches Ok(op) ==> operator_of(s@) == Some(op),
            r is Err ==> operator_of(s@) is None,
            r matches Err(e) ==> e == RulesError::InvalidOperator,
    {
        if str_eq(s, "==") {
            Ok(OperatorType::Match)
        } else if str_eq(s, "!=") {
            Ok(OperatorType::Nomatch)
        } else if str_eq(s, "=") {
            Ok(OperatorType::Assign)
        } else if str_eq(s, "+=") {
            Ok(OperatorType::Add)
        } else if str_eq(s, "-=") {
            Ok(OperatorType::Remove)
        } else if str_eq(s, ":=") {
            Ok(OperatorType::AssignFinal)
        } else {
            Err(RulesError::InvalidOperator)
        }
    }
}

/// How the attribute of an `ATTR`/`ATTRS` token is to be resolved.
#[derive(Debug, Clone, Copy, PartialEq, Eq, Structural)]
pub enum SubstituteType {
    /// no substitution
    Plain,
    /// contains `$` or `%`
    Format,
    /// `[<SUBSYSTEM>/<KERNEL>]<attribute>`
    Subsys,
    /// invalid
    Invalid,
}

/// The substitution kind of `s`.
pub open spec fn substitute_type_of(s: Seq<char>) -> SubstituteType {
    if s.len() == 0 {
        SubstituteType::Plain
    } else if s[0] == '[' {
        SubstituteType::Subsys
    } else if s.contains('%') || s.contains('$') {
        SubstituteType::Format
    } else {
        SubstituteType::Plain
    }
}

impl SubstituteType {
    /// Classifies an attribute string; this never fails.
    pub fn from_str(s: &str) -> (r: Result<SubstituteType, RulesError>)
        ensures
            r == Ok::<SubstituteType, RulesError>(substitute_type_of(s@)),
    {
        let v = chars_of(s);
        if v.len() == 0 {
            return Ok(SubstituteType::Plain);
        }
        if v[0] == '[' {
            return Ok(SubstituteType::Subsys);
        }
        if contains_char(&v, '%') || contains_char(&v, '$') {
            return Ok(SubstituteType::Format);
        }
        Ok(SubstituteType::Plain)
    }
}

/// When user and group names in rules are resolved.
#[derive(Debug, Clone, Copy, PartialEq, Eq, Structural)]
pub enum ResolveNameTime {
    /// never format a string
    Never,
    /// do not format the string until rule execution
    Late,
    /// format the string when loading the rules
    Early,
}

/// Formatter of a substitution (`$kernel`, `%k`, ...).
#[derive(Debug, Clone, Copy, PartialEq, Eq, Structural)]
pub enum FormatSubstitutionType {
    Devnode,
    Attr,
    Env,
    Kernel,
    KernelNumber,
    Driver,
    Devpath,
    Id,
    Major,
    Minor,
    Result,
    Parent,
    Name,
    Links,
    Root,
    Sys,
    Invalid,
}

/// The formatter that `s` names, by its long or short name.
pub open spec fn formatter_of(s: Seq<char>) -> Option<FormatSubstitutionType> {
    if s == "devnode"@ || s == "N"@ || s == "tempnode"@ {
        Some(FormatSubstitutionType::Devnode)
    } else if s == "attr"@ || s == "sysfs"@ || s == "s"@ {
        Some(FormatSubstitutionType::Attr)
    } else if s == "env"@ || s == "E"@ {
        Some(FormatSubstitutionType::Env)
    } else if s == "kernel"@ || s == "k"@ {
        Some(FormatSubstitutionType::Kernel)
    } else if s == "number"@ || s == "n"@ {
        Some(FormatSubstitutionType::KernelNumber)
    } else if s == "driver"@ || s == "d"@ {
        Some(FormatSubstitutionType::Driver)
    } else if s == "devpath"@ || s == "p"@ {
        Some(FormatSubstitutionType::Devpath)
    } else if s == "id"@ || s == "b"@ {
        Some(FormatSubstitutionType::Id)
    } else if s == "major"@ || s == "M"@ {
        Some(FormatSubstitutionType::Major)
    } else if s == "minor"@ || s == "m"@ {
        Some(FormatSubstitutionType::Minor)
    } else if s == "result"@ || s == "c"@ {
        Some(FormatSubstitutionType::Result)
    } else if s == "parent"@ || s == "P"@ {
        Some(FormatSubstitutionType::Parent)
    } else if s == "name"@ || s == "D"@ {
        Some(FormatSubstitutionType::Name)
    } else if s == "links"@ || s == "L"@ {
        Some(FormatSubstitutionType::Links)
    } else if s == "root"@ || s == "r"@ {
        Some(FormatSubstitutionType::Root)
    } else if s == "sys"@ || s == "S"@ {
        Some(FormatSubstitutionType::Sys)
    } else {
        None
    }
}

impl FormatSubstitutionType {
    /// Parses a formatter name; an unknown name is an error.
    pub fn from_chars(v: &Vec<char>) -> (r: Result<FormatSubstitutionType, RulesError>)
        ensures
            r matches Ok(t) ==> formatter_of(v@) == Some(t),
            r is Err ==> formatter_of(v@) is None,
            r matches Err(e) ==> e == RulesError::InvalidFormatter,
    {
        if eq_lit(v, "devnode") || eq_lit(v, "N") || eq_lit(v, "tempnode") {
            Ok(FormatSubstitutionType::Devnode)
        } else if eq_lit(v, "attr") || eq_lit(v, "sysfs") || eq_lit(v, "s") {
            Ok(FormatSubstitutionType::Attr)
        } else if eq_lit(v, "env") || eq_lit(v, "E") {
            Ok(FormatSubstitutionType::Env)
        } else if eq_lit(v, "kernel") || eq_lit(v, "k") {
            Ok(FormatSubstitutionType::Kernel)
        } else if eq_lit(v, "number") || eq_lit(v, "n") {
            Ok(FormatSubstitutionType::KernelNumber)
        } else if eq_lit(v, "driver") || eq_lit(v, "d") {
            Ok(FormatSubstitutionType::Driver)
        } else if eq_lit(v, "devpath") || eq_lit(v, "p") {
            Ok(FormatSubstitutionType::Devpath)
        } else if eq_lit(v, "id") || eq_lit(v, "b") {
            Ok(FormatSubstitutionType::Id)
        } else if eq_lit(v, "major") || eq_lit(v, "M") {
            Ok(FormatSubstitutionType::Major)
        } else if eq_lit(v, "minor") || eq_lit(v, "m") {
            Ok(FormatSubstitutionType::Minor)
        } else if eq_lit(v, "result") || eq_lit(v, "c") {
            Ok(FormatSubstitutionType::Result)
        } else if eq_lit(v, "parent") || eq_lit(v, "P") {
            Ok(FormatSubstitutionType::Parent)
        } else if eq_lit(v, "name") || eq_lit(v, "D") {
            Ok(FormatSubstitutionType::Name)
        } else if eq_lit(v, "links") || eq_lit(v, "L") {
            Ok(FormatSubstitutionType::Links)
        } else if eq_lit(v, "root") || eq_lit(v, "r") {
            Ok(FormatSubstitutionType::Root)
        } else if eq_lit(v, "sys") || eq_lit(v, "S") {
            Ok(FormatSubstitutionType::Sys)
        } else {
            Err(RulesError::InvalidFormatter)
        }
    }

    /// Parses a formatter name; an unknown name is an error.
    pub fn from_str(s: &str) -> (r: Result<FormatSubstitutionType, RulesError>)
        ensures
            r matches Ok(t) ==> formatter_of(s@) == Some(t),
            r is Err ==> formatter_of(s@) is None,
            r matches Err(e) ==> e == RulesError::InvalidFormatter,
    {
        let v = chars_of(s);
        Self::from_chars(&v)
    }

    /// The formatter used where none is known.
    pub fn default() -> (r: FormatSubstitutionType)
        ensures
            r == FormatSubstitutionType::Invalid,
    {
        FormatSubstitutionType::Invalid
    }
}

/// Escape mode of an execute unit.
#[derive(Debug, Clone, Copy, PartialEq, Eq, Structural)]
pub enum EscapeType {
    Unset,
    /// no escaping
    NoEscape,
    Replace,
}

/// Why loading a rule failed.
#[derive(Debug, Clone, Copy, PartialEq, Eq, Structural)]
pub enum RulesError {
    /// The operator is not one of `==`, `!=`, `=`, `+=`, `-=`, `:=`.
    InvalidOperator,
    /// The formatter name is unknown.
    InvalidFormatter,
    /// The rule line does not follow the token grammar; the index of the
    /// offending character.
    InvalidLine(usize),
    /// The key may not carry an attribute.
    AttributeNotAllowed,
    /// The key must carry an attribute (or the one given is not accepted).
    InvalidAttribute,
    /// The operator is not accepted for the key.
    OperatorNotAllowed,
    /// The value is not accepted for the key.
    InvalidValue,
    /// The value or attribute holds an invalid formatter.
    InvalidFormat,
    /// The key is not known.
    UnknownKey,
    /// A user or group name could not be resolved.
    UnresolvedName,
    /// The token is ignored on purpose.
    Ignored,
    /// A `GOTO` refers to a label that no line defines.
    MissingLabel,
}

/// `v` spells the literal `lit`.
pub fn eq_lit(v: &Vec<char>, lit: &str) -> (r: bool)
    ensures
        r == (v@ == lit@),
{
    let l = chars_of(lit);
    chars_eq(v, &l)
}

} // verus!

verus! {

/// One `KEY{attr} op "value"` element of a rule line.
#[derive(Debug, Clone)]
pub struct RuleToken {
    pub token_type: TokenType,
    pub op: OperatorType,
    pub attr_subst_type: SubstituteType,
    pub attr: Option<String>,
    pub value: String,
}

/// The view of an optional string.
pub open spec fn opt_view(o: Option<String>) -> Option<Seq<char>> {
    match o {
        Some(s) => Some(s@),
        None => None,
    }
}

impl RuleToken {
    /// Kind, operator, attribute and value of the token.
    pub open spec fn parts(&self) -> (TokenType, OperatorType, Option<Seq<char>>, Seq<char>) {
        (self.token_type, self.op, opt_view(self.attr), self.value@)
    }
}


/// Whether a token of kind `t` makes the attribute's substitution kind
/// relevant, and which kind it is.
pub open spec fn subst_for(t: TokenType, attr: Option<Seq<char>>) -> SubstituteType {
    if t == TokenType::MatchAttr || t == TokenType::MatchParentsAttr {
        substitute_type_of(match attr { Some(a) => a, None => Seq::empty() })
    } else {
        SubstituteType::Invalid
    }
}

impl RuleToken {
    /// The substitution kind agrees with the kind and attribute.
    pub open spec fn wf(&self) -> bool {
        self.attr_subst_type == subst_for(self.token_type, opt_view(self.attr))
    }

    /// Kind of the token.
    pub fn token_type(&self) -> (r: TokenType)
        ensures
            r == self.token_type,
    {
        self.token_type
    }

    /// Operator of the token.
    pub fn op(&self) -> (r: OperatorType)
        ensures
            r == self.op,
    {
        self.op
    }

    /// Attribute of the token, if any.
    pub fn get_token_attribute(&self) -> (r: Option<String>)
        ensures
            opt_view(r) == opt_view(self.attr),
    {
        match &self.attr {
            Some(a) => Some(a.clone()),
            None => None,
        }
    }

    /// Value of the token.
    pub fn get_token_value(&self) -> (r: String)
        ensures
            r@ == self.value@,
    {
        self.value.clone()
    }

    /// Substitution kind of the attribute (`ATTR` and `ATTRS` matches).
    pub fn attr_subst_type(&self) -> (r: SubstituteType)
        ensures
            r == self.attr_subst_type,
    {
        self.attr_subst_type
    }

    /// The token matches against parent devices (`KERNELS`, `SUBSYSTEMS`,
    /// `DRIVERS`, `ATTRS`, `TAGS`).
    pub fn is_for_parents(&self) -> (r: bool)
        ensures
            r == (TokenType::MatchParentsKernel.rank() <= self.token_type.rank()
                <= TokenType::MatchParentsTag.rank()),
    {
        let o = self.token_type.order();
        12 <= o && o <= 16
    }
}

/// What a rule line contains, as flags.
#[derive(Debug, Clone, Copy, PartialEq, Eq, Structural)]
pub struct RuleLineType {
    /// has `NAME=`
    pub has_name: bool,
    /// has `SYMLINK=`, `OWNER=`, `GROUP=` or `MODE=`
    pub has_devlink: bool,
    /// has `OPTIONS=static_node`
    pub has_static_node: bool,
    /// has `GOTO=`
    pub has_goto: bool,
    /// has `LABEL=`
    pub has_label: bool,
    /// has other assignments or imports
    pub update_something: bool,
}

impl RuleLineType {
    /// No flag set.
    pub open spec fn initial_spec() -> RuleLineType {
        RuleLineType {
            has_name: false,
            has_devlink: false,
            has_static_node: false,
            has_goto: false,
            has_label: false,
            update_something: false,
        }
    }

    /// No flag set.
    pub fn initial() -> (r: RuleLineType)
        ensures
            r == RuleLineType::initial_spec(),
    {
        RuleLineType {
            has_name: false,
            has_devlink: false,
            has_static_node: false,
            has_goto: false,
            has_label: false,
            update_something: false,
        }
    }
}

/// One logical line of a rule file: its tokens and the flags, label and
/// jump target derived from them.
#[derive(Debug, Clone)]
pub struct RuleLine {
    /// the text of the line (continuations joined)
    pub line_content: String,
    /// the line number in its file
    pub line_number: u32,
    /// the flags of the line
    pub line_type: RuleLineType,
    /// the value of the line's `LABEL` token
    pub label: Option<String>,
    /// the value of the line's `GOTO` token
    pub goto_label: Option<String>,
    /// index, in its file, of the line that `GOTO` jumps to
    pub goto_line: Option<usize>,
    /// the tokens in order
    pub tokens: Vec<RuleToken>,
}

/// The lines of one rule file.
#[derive(Debug, Clone)]
pub struct RuleFile {
    /// the name of the rule file
    pub file_name: String,
    /// the lines in order of line number
    pub lines: Vec<RuleLine>,
}

/// All rule files, in the order of their names, with the caches of user
/// and group names resolved while loading.
#[derive(Debug, Clone)]
pub struct Rules {
    /// the rule files in order
    pub files: Vec<RuleFile>,
    /// directories searched for rule files
    pub dirs: Vec<String>,
    /// when user and group names are resolved
    pub resolve_name_time: ResolveNameTime,
    /// user names declared by `OWNER` and their uids
    pub users: Vec<(String, u32)>,
    /// group names declared by `GROUP` and their gids
    pub groups: Vec<(String, u32)>,
}

/// Iterates over the files of a rule set.
pub struct RulesIter<'a> {
    rules: &'a Rules,
    index: usize,
}

impl<'a> RulesIter<'a> {
    /// The iterated rule set.
    pub closed spec fn source(&self) -> &'a Rules {
        self.rules
    }

    /// Number of files handed out so far.
    pub closed spec fn pos(&self) -> nat {
        self.index as nat
    }

    /// The next file, or `None` once all have been handed out.
    pub fn next(&mut self) -> (r: Option<&'a RuleFile>)
        ensures
            final(self).source() == old(self).source(),
            old(self).pos() < old(self).source().files.len() ==> (r == Some(&old(self).source().files[old(self).pos() as int])
                && final(self).pos() == old(self).pos() + 1),
            old(self).pos() >= old(self).source().files.len() ==> (r is None && final(self).pos() == old(self).pos()),
    {
        if self.index < self.rules.files.len() {
            let f = &self.rules.files[self.index];
            self.index = self.index + 1;
            Some(f)
        } else {
            None
        }
    }
}

impl Rules {
    /// An iterator over the rule files, from the first.
    pub fn iter(&self) -> (it: RulesIter<'_>)
        ensures
            it.source() == self,
            it.pos() == 0,
    {
        RulesIter { rules: self, index: 0 }
    }
}

/// Iterates over the lines of a rule file.
pub struct RuleFileIter<'a> {
    file: &'a RuleFile,
    index: usize,
}

impl<'a> RuleFileIter<'a> {
    /// The iterated file.
    pub closed spec fn source(&self) -> &'a RuleFile {
        self.file
    }

    /// Number of lines handed out so far.
    pub closed spec fn pos(&self) -> nat {
        self.index as nat
    }

    /// The next line, or `None` once all have been handed out.
    pub fn next(&mut self) -> (r: Option<&'a RuleLine>)
        ensures
            final(self).source() == old(self).source(),
            old(self).pos() < old(self).source().lines.len() ==> (r == Some(&old(self).source().lines[old(self).pos() as int])
                && final(self).pos() == old(self).pos() + 1),
            old(self).pos() >= old(self).source().lines.len() ==> (r is None && final(self).pos() == old(self).pos()),
    {
        if self.index < self.file.lines.len() {
            let l = &self.file.lines[self.index];
            self.index = self.index + 1;
            Some(l)
        } else {
            None
        }
    }

    /// Runs the iterator to its end and returns what it hands out: the
    /// lines from the current position on, each once and in order. The
    /// iterator then stands at the end, where [`Self::next`] gives `None`;
    /// the file is left as it was, so a new iterator hands out the same
    /// lines again.
    pub fn rest(&mut self) -> (r: Vec<&'a RuleLine>)
        ensures
            final(self).source() == old(self).source(),
            old(self).pos() <= old(self).source().lines.len() ==> (r@.len() == old(self).source().lines.len() - old(self).pos()
                && final(self).pos() == old(self).source().lines.len()),
            old(self).pos() > old(self).source().lines.len() ==> (r@.len() == 0 && final(self).pos() == old(self).pos()),
            forall|k: int| 0 <= k < r@.len() ==> r@[k] == &old(self).source().lines[old(self).pos() + k],
    {
        let ghost start = self.pos();
        let ghost src = self.source();
        let mut out: Vec<&'a RuleLine> = Vec::new();
        loop
            invariant
                self.source() == src,
                start <= self.pos(),
                start <= src.lines.len() ==> self.pos() <= src.lines.len(),
                start > src.lines.len() ==> self.pos() == start,
                out@.len() == self.pos() - start,
                forall|k: int| 0 <= k < out@.len() ==> out@[k] == &src.lines[start + k],
            ensures
                self.source() == src,
                start <= src.lines.len() ==> self.pos() == src.lines.len(),
                start > src.lines.len() ==> self.pos() == start,
                out@.len() == self.pos() - start,
                forall|k: int| 0 <= k < out@.len() ==> out@[k] == &src.lines[start + k],
            decreases src.lines.len() - self.pos(),
        {
            match self.next() {
                Some(l) => out.push(l),
                None => break,
            }
        }
        out
    }
}

impl RuleFile {
    /// An iterator over the lines, from the first.
    pub fn iter(&self) -> (it: RuleFileIter<'_>)
        ensures
            it.source() == self,
            it.pos() == 0,
    {
        RuleFileIter { file: self, index: 0 }
    }
}

/// Iterates over the tokens of a rule line.
pub struct RuleLineIter<'a> {
    line: &'a RuleLine,
    index: usize,
}

impl<'a> RuleLineIter<'a> {
    /// The iterated line.
    pub closed spec fn source(&self) -> &'a RuleLine {
        self.line
    }

    /// Number of tokens handed out so far.
    pub closed spec fn pos(&self) -> nat {
        self.index as nat
    }

    /// The next token, or `None` once all have been handed out.
    pub fn next(&mut self) -> (r: Option<&'a RuleToken>)
        ensures
            final(self).source() == old(self).source(),
            old(self).pos() < old(self).source().tokens.len() ==> (r == Some(&old(self).source().tokens[old(self).pos() as int])
                && final(self).pos() == old(self).pos() + 1),
            old(self).pos() >= old(self).source().tokens.len() ==> (r is None && final(self).pos() == old(self).pos()),
    {
        if self.index < self.line.tokens.len() {
            let t = &self.line.tokens[self.index];
            self.index = self.index + 1;
            Some(t)
        } else {
            None
        }
    }

    /// Runs the iterator to its end and returns what it hands out: the
    /// tokens from the current position on, each once and in order. The
    /// iterator then stands at the end, where [`Self::next`] gives `None`;
    /// the line is left as it was, so a new iterator hands out the same
    /// tokens again.
    pub fn rest(&mut self) -> (r: Vec<&'a RuleToken>)
        ensures
            final(self).source() == old(self).source(),
            old(self).pos() <= old(self).source().tokens.len() ==> (r@.len() == old(self).source().tokens.len() - old(self).pos()
                && final(self).pos() == old(self).source().tokens.len()),
            old(self).pos() > old(self).source().tokens.len() ==> (r@.len() == 0 && final(self).pos() == old(self).pos()),
            forall|k: int| 0 <= k < r@.len() ==> r@[k] == &old(self).source().tokens[old(self).pos() + k],
    {
        let ghost start = self.pos();
        let ghost src = self.source();
        let mut out: Vec<&'a RuleToken> = Vec::new();
        loop
            invariant
                self.source() == src,
                start <= self.pos(),
                start <= src.tokens.len() ==> self.pos() <= src.tokens.len(),
                start > src.tokens.len() ==> self.pos() == start,
                out@.len() == self.pos() - start,
                forall|k: int| 0 <= k < out@.len() ==> out@[k] == &src.tokens[start + k],
            ensures
                self.source() == src,
                start <= src.tokens.len() ==> self.pos() == src.tokens.len(),
                start > src.tokens.len() ==> self.pos() == start,
                out@.len() == self.pos() - start,
                forall|k: int| 0 <= k < out@.len() ==> out@[k] == &src.tokens[start + k],
            decreases src.tokens.len() - self.pos(),
        {
            match self.next() {
                Some(t) => out.push(t),
                None => break,
            }
        }
        out
    }
}

impl RuleLine {
    /// An iterator over the tokens, from the first.
    pub fn iter(&self) -> (it: RuleLineIter<'_>)
        ensures
            it.source() == self,
            it.pos() == 0,
    {
        RuleLineIter { line: self, index: 0 }
    }
}

/// The text form of a token: its key, its attribute in braces (where it
/// has one), its operator and its value in double quotes.
pub open spec fn token_content(t: RuleToken) -> Seq<char> {
    t.token_type.key_spec() + (match opt_view(t.attr) {
        Some(a) => seq!['{'] + a + seq!['}'],
        None => Seq::empty(),
    }) + t.op.text_spec() + seq!['"'] + t.value@ + seq!['"']
}

impl RuleToken {
    /// The token written out: `KEY{attr}op"value"`.
    pub fn get_token_content(&self) -> (r: String)
        ensures
            r@ == token_content(*self),
    {
        let mut s = string_of(self.token_type.key());
        if let Some(a) = &self.attr {
            string_push(&mut s, '{');
            let av = chars_of(a.as_str());
            string_extend(&mut s, &av);
            string_push(&mut s, '}');
        }
        let ov = chars_of(self.op.text());
        string_extend(&mut s, &ov);
        string_push(&mut s, '"');
        let vv = chars_of(self.value.as_str());
        string_extend(&mut s, &vv);
        string_push(&mut s, '"');
        assert(s@ =~= token_content(*self));
        s
    }
}

impl RuleLine {
    /// The value of the line's `GOTO` token, if any.
    pub fn get_goto_label(&self) -> (r: Option<String>)
        ensures
            opt_view(r) == opt_view(self.goto_label),
    {
        match &self.goto_label {
            Some(g) => Some(g.clone()),
            None => None,
        }
    }

    /// The value of the line's `LABEL` token, if any.
    pub fn get_label(&self) -> (r: Option<String>)
        ensures
            opt_view(r) == opt_view(self.label),
    {
        match &self.label {
            Some(g) => Some(g.clone()),
            None => None,
        }
    }
}

/// The text form of a line of file `file_name`: `file:number:  content`,
/// then each token on a line of its own.
pub open spec fn line_text(l: RuleLine, file_name: Seq<char>) -> Seq<char> {
    file_name + seq![':'] + decimal(l.line_number as nat) + seq![':', ' ', ' '] + l.line_content@
        + l.tokens@.fold_left(Seq::<char>::empty(), |acc: Seq<char>, t: RuleToken| acc + seq!['\n'] + token_content(t))
}

impl RuleLine {
    /// The line written out, with the name of its file.
    pub fn to_text(&self, file_name: &str) -> (r: String)
        ensures
            r@ == line_text(*self, file_name@),
    {
        let mut s = string_of(file_name);
        string_push(&mut s, ':');
        push_decimal(&mut s, self.line_number);
        string_push(&mut s, ':');
        string_push(&mut s, ' ');
        string_push(&mut s, ' ');
        let cv = chars_of(self.line_content.as_str());
        string_extend(&mut s, &cv);
        let ghost head = s@;
        let ghost ts = self.tokens@;
        let mut i: usize = 0;
        while i < self.tokens.len()
            invariant
                ts == self.tokens@,
                0 <= i <= ts.len(),
                s@ == head + ts.subrange(0, i as int).fold_left(Seq::<char>::empty(), |acc: Seq<char>, t: RuleToken| acc + seq!['\n'] + token_content(t)),
            decreases ts.len() - i,
        {
            string_push(&mut s, '\n');
            let c = self.tokens[i].get_token_content();
            let cv = chars_of(c.as_str());
            string_extend(&mut s, &cv);
            proof {
                let sub = ts.subrange(0, i + 1);
                assert(sub.drop_last() =~= ts.subrange(0, i as int));
            }
            i += 1;
        }
        assert(ts.subrange(0, ts.len() as int) =~= ts);
        s
    }
}

impl Rules {
    /// The number, in its file, of line `line` of file `file` (where a
    /// token found by position stands).
    pub fn get_line_number(&self, file: usize, line: usize) -> (r: u32)
        requires
            file < self.files@.len(),
            line < self.files@[file as int].lines@.len(),
        ensures
            r == self.files@[file as int].lines@[line as int].line_number,
    {
        self.files[file].lines[line].line_number
    }

    /// The name of file `file`.
    pub fn get_file_name(&self, file: usize) -> (r: String)
        requires
            file < self.files@.len(),
        ensures
            r@ == self.files@[file as int].file_name@,
    {
        self.files[file].get_file_name()
    }
}

/// The text form of a file: `File: name`, then each line on lines of its
/// own.
pub open spec fn file_text(f: RuleFile) -> Seq<char> {
    "File: "@ + f.file_name@ + f.lines@.fold_left(Seq::<char>::empty(), |acc: Seq<char>, l: RuleLine| acc + seq!['\n'] + line_text(l, f.file_name@))
}

impl RuleFile {
    /// The name of the file.
    pub fn get_file_name(&self) -> (r: String)
        ensures
            r@ == self.file_name@,
    {
        self.file_name.clone()
    }

    /// The file written out, line by line.
    pub fn to_text(&self) -> (r: String)
        ensures
            r@ == file_text(*self),
    {
        let mut s = string_of("File: ");
        let nv = chars_of(self.file_name.as_str());
        string_extend(&mut s, &nv);
        let ghost head = s@;
        let ghost ls = self.lines@;
        let mut i: usize = 0;
        while i < self.lines.len()
            invariant
                ls == self.lines@,
                0 <= i <= ls.len(),
                s@ == head + ls.subrange(0, i as int).fold_left(Seq::<char>::empty(), |acc: Seq<char>, l: RuleLine| acc + seq!['\n'] + line_text(l, self.file_name@)),
            decreases ls.len() - i,
        {
            string_push(&mut s, '\n');
            let t = self.lines[i].to_text(self.file_name.as_str());
            let tv = chars_of(t.as_str());
            string_extend(&mut s, &tv);
            proof {
                let sub = ls.subrange(0, i + 1);
                assert(sub.drop_last() =~= ls.subrange(0, i as int));
            }
            i += 1;
        }
        assert(ls.subrange(0, ls.len() as int) =~= ls);
        s
    }
}

impl FormatSubstitutionType {
    /// The name of the formatter (its display form).
    pub fn name(&self) -> (r: &'static str)
        ensures
            r@ == match self {
                FormatSubstitutionType::Devnode => "devnode"@,
                FormatSubstitutionType::Attr => "attr"@,
                FormatSubstitutionType::Env => "env"@,
                FormatSubstitutionType::Kernel => "kernel"@,
                FormatSubstitutionType::KernelNumber => "kernel number"@,
                FormatSubstitutionType::Driver => "driver"@,
                FormatSubstitutionType::Devpath => "devpath"@,
                FormatSubstitutionType::Id => "id"@,
                FormatSubstitutionType::Major => "major"@,
                FormatSubstitutionType::Minor => "minor"@,
                FormatSubstitutionType::Result => "result"@,
                FormatSubstitutionType::Parent => "parent"@,
                FormatSubstitutionType::Name => "name"@,
                FormatSubstitutionType::Links => "links"@,
                FormatSubstitutionType::Root => "root"@,
                FormatSubstitutionType::Sys => "sys"@,
                FormatSubstitutionType::Invalid => "invalid substitute formatter"@,
            },
    {
        match self {
            FormatSubstitutionType::Devnode => "devnode",
            FormatSubstitutionType::Attr => "attr",
            FormatSubstitutionType::Env => "env",
            FormatSubstitutionType::Kernel => "kernel",
            FormatSubstitutionType::KernelNumber => "kernel number",
            FormatSubstitutionType::Driver => "driver",
            FormatSubstitutionType::Devpath => "devpath",
            FormatSubstitutionType::Id => "id",
            FormatSubstitutionType::Major => "major",
            FormatSubstitutionType::Minor => "minor",
            FormatSubstitutionType::Result => "result",
            FormatSubstitutionType::Parent => "parent",
            FormatSubstitutionType::Name => "name",
            FormatSubstitutionType::Links => "links",
            FormatSubstitutionType::Root => "root",
            FormatSubstitutionType::Sys => "sys",
            FormatSubstitutionType::Invalid => "invalid substitute formatter",
        }
    }
}

} // verus!
