//! Applying rule tokens to a device, given what the device manager read
//! of it: which value each matching token compares, what each formatter
//! of a value stands for, and the formatted value as a whole. What needs
//! more than the device's recorded values (reading a sysfs attribute,
//! testing a file, running a program or builtin) is read by the caller
//! and handed in.

use vstd::prelude::*;
use crate::rules::{OperatorType, RuleToken, TokenType, FormatSubstitutionType};
use crate::rules::exec_unit::{
    format_plan, format_walk, links_text, piece_view, pieces_view, render_format, rendered, result_part,
    sanitize_value, strip_dev, strip_leading, subst_count, subst_links, texts, ExecuteError, ExecuteUnitData,
    FormatPiece, PieceView, TagChange, TagEdit, cmdline_value, cmdline_property_value, subst_at,
};
use crate::rules::rule_execute::{any_matches, glob_patterns, glob_set, globs_match, list_match, pattern_match, test_mode_match};
use crate::rules::rules_load::octal_u32_of;
use crate::text::{decimal, decimal_string, str_eq, string_of, trim_end_ws};
use crate::utils::commons::{replace_from, DEVMASTER_LEGAL_CHARS};

verus! {

/// What the device manager has read of a device: its event action, path,
/// kernel name and number, subsystem, driver, device node, device number,
/// links, current tags and properties; the device node of its parent
/// device; and the kernel name and driver of the parent that the last
/// parent-matching tokens settled on.
#[derive(Debug, Clone)]
pub struct DeviceView {
    pub action: String,
    pub devpath: String,
    pub sysname: String,
    pub sysnum: Option<String>,
    pub subsystem: Option<String>,
    pub driver: Option<String>,
    pub devname: Option<String>,
    pub devnum: Option<(u32, u32)>,
    pub devlinks: Vec<String>,
    pub tags: Vec<String>,
    pub properties: Vec<(String, String)>,
    pub parent_devname: Option<String>,
    pub parent_sysname: Option<String>,
    pub parent_driver: Option<String>,
}

/// The value of the first entry of `ps` whose key is `key`.
pub open spec fn lookup(ps: Seq<(String, String)>, key: Seq<char>) -> Option<Seq<char>>
    decreases ps.len(),
{
    if ps.len() == 0 {
        None
    } else if ps[0].0@ == key {
        Some(ps[0].1@)
    } else {
        lookup(ps.drop_first(), key)
    }
}

/// The text of an optional string, empty where there is none.
pub open spec fn or_empty(o: Option<String>) -> Seq<char> {
    match o {
        Some(s) => s@,
        None => Seq::empty(),
    }
}

/// The text of an optional view, empty where there is none.
pub open spec fn seq_or_empty(o: Option<Seq<char>>) -> Seq<char> {
    match o {
        Some(s) => s,
        None => Seq::empty(),
    }
}

/// Looks `key` up in `ps`.
pub fn find_value(ps: &Vec<(String, String)>, key: &str) -> (r: Option<String>)
    ensures
        match r {
            Some(v) => lookup(ps@, key@) == Some(v@),
            None => lookup(ps@, key@) is None,
        },
{
    let mut i: usize = 0;
    assert(ps@.skip(0) =~= ps@);
    while i < ps.len()
        invariant
            0 <= i <= ps@.len(),
            lookup(ps@, key@) == lookup(ps@.skip(i as int), key@),
        decreases ps@.len() - i,
    {
        assert(ps@.skip(i as int)[0] == ps@[i as int]);
        assert(ps@.skip(i as int).drop_first() =~= ps@.skip(i + 1));
        if str_eq(ps[i].0.as_str(), key) {
            return Some(ps[i].1.clone());
        }
        i += 1;
    }
    assert(ps@.skip(i as int).len() == 0);
    None
}

fn text_or_empty(o: &Option<String>) -> (r: String)
    ensures
        r@ == or_empty(*o),
{
    match o {
        Some(s) => s.clone(),
        None => String::new(),
    }
}

/// What formatter `kind` with attribute `attr` stands for on `dev` and
/// `unit`; `sysattrs` holds the values read for attributes (where the
/// attribute is read by a path `[subsystem/sysname]attr`, else on the
/// device, else on the matched parent).
pub open spec fn subst_value_of(
    kind: FormatSubstitutionType,
    attr: Option<Seq<char>>,
    dev: DeviceView,
    unit: ExecuteUnitData,
    sysattrs: Seq<(String, String)>,
) -> Result<Seq<char>, ExecuteError> {
    match kind {
        FormatSubstitutionType::Devnode => Ok(or_empty(dev.devname)),
        FormatSubstitutionType::Attr => match attr {
            None => Err(ExecuteError::MissingAttribute),
            Some(a) => Ok(match lookup(sysattrs, a) {
                Some(v) => replace_from(trim_end_ws(v), DEVMASTER_LEGAL_CHARS@, 0),
                None => Seq::empty(),
            }),
        },
        FormatSubstitutionType::Env => match attr {
            None => Err(ExecuteError::MissingAttribute),
            Some(a) => Ok(seq_or_empty(lookup(dev.properties@, a))),
        },
        FormatSubstitutionType::Kernel => Ok(dev.sysname@),
        FormatSubstitutionType::KernelNumber => Ok(or_empty(dev.sysnum)),
        FormatSubstitutionType::Driver => Ok(or_empty(dev.parent_driver)),
        FormatSubstitutionType::Devpath => Ok(dev.devpath@),
        FormatSubstitutionType::Id => Ok(or_empty(dev.parent_sysname)),
        FormatSubstitutionType::Major => Ok(match dev.devnum {
            Some((ma, _)) => decimal(ma as nat),
            None => "0"@,
        }),
        FormatSubstitutionType::Minor => Ok(match dev.devnum {
            Some((_, mi)) => decimal(mi as nat),
            None => "0"@,
        }),
        FormatSubstitutionType::Result => result_part(unit.program_result@, attr),
        FormatSubstitutionType::Parent => Ok(match dev.parent_devname {
            Some(d) => strip_leading(d@, "/dev/"@),
            None => Seq::empty(),
        }),
        FormatSubstitutionType::Name => Ok(if unit.name@.len() > 0 {
            unit.name@
        } else {
            match dev.devname {
                Some(d) => strip_leading(d@, "/dev/"@),
                None => dev.sysname@,
            }
        }),
        FormatSubstitutionType::Links => Ok(links_text(texts(dev.devlinks@))),
        FormatSubstitutionType::Root => Ok("/dev"@),
        FormatSubstitutionType::Sys => Ok("/sys"@),
        FormatSubstitutionType::Invalid => Err(ExecuteError::InvalidFormatter),
    }
}

/// What formatter `kind` with attribute `attr` stands for (see
/// [`subst_value_of`]).
pub fn subst_value(
    kind: FormatSubstitutionType,
    attr: Option<&str>,
    dev: &DeviceView,
    unit: &ExecuteUnitData,
    sysattrs: &Vec<(String, String)>,
) -> (r: Result<String, ExecuteError>)
    ensures
        match r {
            Ok(v) => subst_value_of(kind, match attr { Some(a) => Some(a@), None => None }, *dev, *unit, sysattrs@)
                == Ok::<Seq<char>, ExecuteError>(v@),
            Err(e) => subst_value_of(kind, match attr { Some(a) => Some(a@), None => None }, *dev, *unit, sysattrs@)
                == Err::<Seq<char>, ExecuteError>(e),
        },
{
    match kind {
        FormatSubstitutionType::Devnode => Ok(text_or_empty(&dev.devname)),
        FormatSubstitutionType::Attr => match attr {
            None => Err(ExecuteError::MissingAttribute),
            Some(a) => match find_value(sysattrs, a) {
                Some(v) => Ok(sanitize_value(v.as_str())),
                None => Ok(String::new()),
            },
        },
        FormatSubstitutionType::Env => match attr {
            None => Err(ExecuteError::MissingAttribute),
            Some(a) => match find_value(&dev.properties, a) {
                Some(v) => Ok(v),
                None => Ok(String::new()),
            },
        },
        FormatSubstitutionType::Kernel => Ok(dev.sysname.clone()),
        FormatSubstitutionType::KernelNumber => Ok(text_or_empty(&dev.sysnum)),
        FormatSubstitutionType::Driver => Ok(text_or_empty(&dev.parent_driver)),
        FormatSubstitutionType::Devpath => Ok(dev.devpath.clone()),
        FormatSubstitutionType::Id => Ok(text_or_empty(&dev.parent_sysname)),
        FormatSubstitutionType::Major => match dev.devnum {
            Some((ma, _)) => Ok(decimal_string(ma)),
            None => Ok(string_of("0")),
        },
        FormatSubstitutionType::Minor => match dev.devnum {
            Some((_, mi)) => Ok(decimal_string(mi)),
            None => Ok(string_of("0")),
        },
        FormatSubstitutionType::Result => unit.subst_result(attr),
        FormatSubstitutionType::Parent => match &dev.parent_devname {
            Some(d) => Ok(strip_dev(d.as_str())),
            None => Ok(String::new()),
        },
        FormatSubstitutionType::Name => Ok(unit.subst_name(
            match &dev.devname {
                Some(d) => Some(d.as_str()),
                None => None,
            },
            dev.sysname.as_str(),
        )),
        FormatSubstitutionType::Links => Ok(subst_links(&dev.devlinks)),
        FormatSubstitutionType::Root => Ok(string_of("/dev")),
        FormatSubstitutionType::Sys => Ok(string_of("/sys")),
        FormatSubstitutionType::Invalid => Err(ExecuteError::InvalidFormatter),
    }
}

/// The texts of the formatters among `ps`, in order; the first formatter
/// that has none gives the error.
pub open spec fn format_values(
    ps: Seq<PieceView>,
    dev: DeviceView,
    unit: ExecuteUnitData,
    sysattrs: Seq<(String, String)>,
) -> Result<Seq<Seq<char>>, ExecuteError>
    decreases ps.len(),
{
    if ps.len() == 0 {
        Ok(Seq::empty())
    } else {
        match format_values(ps.drop_last(), dev, unit, sysattrs) {
            Err(e) => Err(e),
            Ok(vs) => match ps.last() {
                PieceView::Text(_) => Ok(vs),
                PieceView::Subst(t, a) => match subst_value_of(t, a, dev, unit, sysattrs) {
                    Err(e) => Err(e),
                    Ok(v) => Ok(vs.push(v)),
                },
            },
        }
    }
}

proof fn lemma_format_values_count(ps: Seq<PieceView>, dev: DeviceView, unit: ExecuteUnitData, sysattrs: Seq<(String, String)>)
    ensures
        format_values(ps, dev, unit, sysattrs) matches Ok(vs) ==> vs.len() == subst_count(ps),
    decreases ps.len(),
{
    if ps.len() > 0 {
        lemma_format_values_count(ps.drop_last(), dev, unit, sysattrs);
    }
}

/// `src` formatted for `dev` and `unit`: its formatters' texts put in
/// place (spaces in them written as `_` where `replace_whitespace`
/// holds); the first formatter without a text, or one that cannot be
/// read, is an error.
pub open spec fn formatted(
    src: Seq<char>,
    replace_whitespace: bool,
    dev: DeviceView,
    unit: ExecuteUnitData,
    sysattrs: Seq<(String, String)>,
) -> Result<Seq<char>, ExecuteError> {
    let (ps, err) = format_walk(src, 0);
    match format_values(ps, dev, unit, sysattrs) {
        Err(e) => Err(e),
        Ok(vs) => match err {
            Some(e) => Err(ExecuteError::BadFormatter(e)),
            None => Ok(rendered(ps, vs, replace_whitespace)),
        },
    }
}

/// Formats `src` for `dev` and `unit` (see [`formatted`]).
pub fn apply_format(
    src: &str,
    replace_whitespace: bool,
    dev: &DeviceView,
    unit: &ExecuteUnitData,
    sysattrs: &Vec<(String, String)>,
) -> (r: Result<String, ExecuteError>)
    ensures
        match r {
            Ok(v) => formatted(src@, replace_whitespace, *dev, *unit, sysattrs@)
                == Ok::<Seq<char>, ExecuteError>(v@),
            Err(e) => formatted(src@, replace_whitespace, *dev, *unit, sysattrs@)
                == Err::<Seq<char>, ExecuteError>(e),
        },
{
    let plan = format_plan(src);
    let ghost ps = pieces_view(plan.pieces@);
    let mut values: Vec<String> = Vec::new();
    let mut i: usize = 0;
    assert(ps.take(0) =~= Seq::<PieceView>::empty());
    assert(texts(values@) =~= Seq::<Seq<char>>::empty());
    while i < plan.pieces.len()
        invariant
            0 <= i <= plan.pieces@.len(),
            ps == pieces_view(plan.pieces@),
            ps.len() == plan.pieces@.len(),
            format_walk(src@, 0) == (ps, plan.error),
            format_values(ps.take(i as int), *dev, *unit, sysattrs@) == Ok::<Seq<Seq<char>>, ExecuteError>(texts(values@)),
        decreases plan.pieces@.len() - i,
    {
        assert(ps.take(i + 1).drop_last() =~= ps.take(i as int));
        assert(ps.take(i + 1).last() == piece_view(plan.pieces@[i as int]));
        match &plan.pieces[i] {
            FormatPiece::Text(_) => {},
            FormatPiece::Subst(t, a) => {
                let ghost av: Option<Seq<char>> = match a {
                    Some(s) => Some(s@),
                    None => None,
                };
                assert(ps[i as int] == PieceView::Subst(*t, av));
                let v = match a {
                    Some(s) => subst_value(*t, Some(s.as_str()), dev, unit, sysattrs),
                    None => subst_value(*t, None, dev, unit, sysattrs),
                };
                assert(match v {
                    Ok(x) => subst_value_of(*t, av, *dev, *unit, sysattrs@) == Ok::<Seq<char>, ExecuteError>(x@),
                    Err(e) => subst_value_of(*t, av, *dev, *unit, sysattrs@) == Err::<Seq<char>, ExecuteError>(e),
                });
                match v {
                    Ok(v) => {
                        let ghost before = texts(values@);
                        values.push(v);
                        assert(texts(values@) =~= before.push(values@.last()@));
                    },
                    Err(e) => {
                        proof {
                            lemma_format_prefix_err(ps, i as int, *dev, *unit, sysattrs@, e);
                            assert(format_values(ps, *dev, *unit, sysattrs@) == Err::<Seq<Seq<char>>, ExecuteError>(e));
                            assert(format_walk(src@, 0) == (ps, plan.error));
                            assert(formatted(src@, replace_whitespace, *dev, *unit, sysattrs@)
                                == Err::<Seq<char>, ExecuteError>(e));
                        }
                        return Err(e);
                    },
                }
            },
        }
        i += 1;
    }
    assert(ps.take(i as int) =~= ps);
    proof {
        lemma_format_values_count(ps, *dev, *unit, sysattrs@);
    }
    match plan.error {
        Some(e) => Err(ExecuteError::BadFormatter(e)),
        None => Ok(render_format(&plan.pieces, &values, replace_whitespace)),
    }
}

/// An error among the first `i + 1` pieces is the error of all of them.
proof fn lemma_format_prefix_err(
    ps: Seq<PieceView>,
    i: int,
    dev: DeviceView,
    unit: ExecuteUnitData,
    sysattrs: Seq<(String, String)>,
    e: ExecuteError,
)
    requires
        0 <= i < ps.len(),
        format_values(ps.take(i + 1), dev, unit, sysattrs) == Err::<Seq<Seq<char>>, ExecuteError>(e),
    ensures
        format_values(ps, dev, unit, sysattrs) == Err::<Seq<Seq<char>>, ExecuteError>(e),
    decreases ps.len() - i,
{
    if i + 1 < ps.len() {
        assert(ps.take(i + 2).drop_last() =~= ps.take(i + 1));
        lemma_format_prefix_err(ps, i + 1, dev, unit, sysattrs, e);
    } else {
        assert(ps.take(i + 1) =~= ps);
    }
}

/// A match token's comparison of `text`: one of the value's globs matches
/// (or, for `!=`, none does); a malformed glob is an error.
pub open spec fn text_match(op: OperatorType, value: Seq<char>, text: Seq<char>) -> Result<bool, ExecuteError> {
    match glob_patterns(value) {
        None => Err(ExecuteError::InvalidPattern),
        Some(ps) => Ok((op == OperatorType::Nomatch) != any_matches(ps, text)),
    }
}

/// A match token's comparison of a list: where some item matches one of
/// the globs, the token matches for `==` (and fails for `!=`); where none
/// does, it matches for `!=` only.
pub open spec fn items_match(op: OperatorType, value: Seq<char>, items: Seq<String>) -> Result<bool, ExecuteError> {
    match glob_patterns(value) {
        None => Err(ExecuteError::InvalidPattern),
        Some(ps) => Ok(if exists|i: int| 0 <= i < items.len() && any_matches(ps, #[trigger] items[i]@) {
            op == OperatorType::Match
        } else {
            op == OperatorType::Nomatch
        }),
    }
}

/// Whether `token` matches `dev` and `unit`, for the tokens that compare
/// a value the device manager has read: the action, path, kernel name,
/// links, interface name, a property (empty where it is missing), tags,
/// subsystem and driver (empty where missing) and the program result.
/// `None` for the other tokens, which need a sysfs attribute, a file, a
/// program, a builtin or an import, or are no matching tokens.
pub open spec fn token_match_of(token: RuleToken, dev: DeviceView, unit: ExecuteUnitData) -> Option<Result<bool, ExecuteError>> {
    let op = token.op;
    let v = token.value@;
    match token.token_type {
        TokenType::MatchAction => Some(text_match(op, v, dev.action@)),
        TokenType::MatchDevpath => Some(text_match(op, v, dev.devpath@)),
        TokenType::MatchKernel | TokenType::MatchParentsKernel => Some(text_match(op, v, dev.sysname@)),
        TokenType::MatchDevlink => Some(items_match(op, v, dev.devlinks@)),
        TokenType::MatchName => Some(text_match(op, v, unit.name@)),
        TokenType::MatchEnv => Some(text_match(op, v, seq_or_empty(lookup(dev.properties@, or_empty(token.attr))))),
        TokenType::MatchTag | TokenType::MatchParentsTag => Some(items_match(op, v, dev.tags@)),
        TokenType::MatchSubsystem | TokenType::MatchParentsSubsystem => Some(text_match(op, v, or_empty(dev.subsystem))),
        TokenType::MatchDriver | TokenType::MatchParentsDriver => Some(text_match(op, v, or_empty(dev.driver))),
        TokenType::MatchResult => Some(text_match(op, v, unit.program_result@)),
        _ => None,
    }
}

fn text_token(op: OperatorType, value: &String, text: &str) -> (r: Result<bool, ExecuteError>)
    ensures
        r == text_match(op, value@, text@),
{
    match glob_set(value.as_str()) {
        None => Err(ExecuteError::InvalidPattern),
        Some(ps) => Ok(pattern_match(op, &ps, text)),
    }
}

fn items_token(op: OperatorType, value: &String, items: &Vec<String>) -> (r: Result<bool, ExecuteError>)
    ensures
        r == items_match(op, value@, items@),
{
    match glob_set(value.as_str()) {
        None => Err(ExecuteError::InvalidPattern),
        Some(ps) => Ok(list_match(op, &ps, items)),
    }
}

/// Whether `token` matches `dev` and `unit` (see [`token_match_of`]).
pub fn token_match(token: &RuleToken, dev: &DeviceView, unit: &ExecuteUnitData) -> (r: Option<Result<bool, ExecuteError>>)
    ensures
        r == token_match_of(*token, *dev, *unit),
{
    let op = token.op;
    let v = &token.value;
    match token.token_type {
        TokenType::MatchAction => Some(text_token(op, v, dev.action.as_str())),
        TokenType::MatchDevpath => Some(text_token(op, v, dev.devpath.as_str())),
        TokenType::MatchKernel | TokenType::MatchParentsKernel => Some(text_token(op, v, dev.sysname.as_str())),
        TokenType::MatchDevlink => Some(items_token(op, v, &dev.devlinks)),
        TokenType::MatchName => Some(text_token(op, v, unit.name.as_str())),
        TokenType::MatchEnv => {
            let key = text_or_empty(&token.attr);
            let value = match find_value(&dev.properties, key.as_str()) {
                Some(x) => x,
                None => String::new(),
            };
            Some(text_token(op, v, value.as_str()))
        },
        TokenType::MatchTag | TokenType::MatchParentsTag => Some(items_token(op, v, &dev.tags)),
        TokenType::MatchSubsystem | TokenType::MatchParentsSubsystem => {
            let s = text_or_empty(&dev.subsystem);
            Some(text_token(op, v, s.as_str()))
        },
        TokenType::MatchDriver | TokenType::MatchParentsDriver => {
            let s = text_or_empty(&dev.driver);
            Some(text_token(op, v, s.as_str()))
        },
        TokenType::MatchResult => Some(text_token(op, v, unit.program_result.as_str())),
        _ => None,
    }
}

/// What the device manager found out for a token that needs more than
/// the device's recorded values.
#[derive(Debug, Clone)]
pub enum OutsideResult {
    /// the token's value could not be formatted
    FormatFailed,
    /// the sysfs attribute's value, `None` where it could not be read
    Attribute(Option<String>),
    /// whether the tested file exists, and its permission bits
    FileTest(bool, u32),
    /// the program's output and exit code; `None` where it could not run
    Program(Option<(String, i32)>),
    /// whether the file to import from could be opened and read
    Imported(bool),
    /// whether the device database or the kernel command line held the
    /// value asked for
    Found(bool),
    /// what the builtin returned; `None` where it failed to run
    Builtin(Option<bool>),
}

/// What the device manager has to find out for a token before it can
/// tell whether the token matches.
#[derive(Debug, Clone, Copy, PartialEq, Eq, Structural)]
pub enum OutsideRequest {
    /// read the sysfs attribute that the token names (for `ATTRS`, on
    /// each parent in turn)
    Attribute,
    /// test the file that the formatted value names
    TestFile,
    /// run the formatted value as a program
    RunProgram,
    /// run the formatted value as a program and import its output
    ImportProgram,
    /// import the file that the formatted value names
    ImportFile,
    /// look the value up in the device database
    ImportDb,
    /// look the value up on the kernel command line
    ImportCmdline,
    /// run the builtin command of the formatted value
    RunBuiltin,
}

/// The request a matching token needs answered, `None` for the tokens
/// that [`token_match_of`] decides and for the tokens that assign.
pub open spec fn outside_request_of(token: RuleToken) -> Option<OutsideRequest> {
    match token.token_type {
        TokenType::MatchAttr | TokenType::MatchParentsAttr => Some(OutsideRequest::Attribute),
        TokenType::MatchTest => Some(OutsideRequest::TestFile),
        TokenType::MatchProgram => Some(OutsideRequest::RunProgram),
        TokenType::MatchImportProgram => Some(OutsideRequest::ImportProgram),
        TokenType::MatchImportFile => Some(OutsideRequest::ImportFile),
        TokenType::MatchImportDb => Some(OutsideRequest::ImportDb),
        TokenType::MatchImportCmdline => Some(OutsideRequest::ImportCmdline),
        TokenType::MatchImportBuiltin => Some(OutsideRequest::RunBuiltin),
        _ => None,
    }
}

/// The request a matching token needs answered (see
/// [`outside_request_of`]).
pub fn outside_request(token: &RuleToken) -> (r: Option<OutsideRequest>)
    ensures
        r == outside_request_of(*token),
{
    match token.token_type {
        TokenType::MatchAttr | TokenType::MatchParentsAttr => Some(OutsideRequest::Attribute),
        TokenType::MatchTest => Some(OutsideRequest::TestFile),
        TokenType::MatchProgram => Some(OutsideRequest::RunProgram),
        TokenType::MatchImportProgram => Some(OutsideRequest::ImportProgram),
        TokenType::MatchImportFile => Some(OutsideRequest::ImportFile),
        TokenType::MatchImportDb => Some(OutsideRequest::ImportDb),
        TokenType::MatchImportCmdline => Some(OutsideRequest::ImportCmdline),
        TokenType::MatchImportBuiltin => Some(OutsideRequest::RunBuiltin),
        _ => None,
    }
}

/// `result` is an answer to `request`: the attribute's value, the file
/// test, the program's run, the import, the lookup or the builtin's
/// answer; where the request needs the token's value formatted, also
/// that the formatting failed.
pub open spec fn answers(request: OutsideRequest, result: OutsideResult) -> bool {
    match (request, result) {
        (OutsideRequest::Attribute, OutsideResult::Attribute(_)) => true,
        (OutsideRequest::ImportDb, OutsideResult::Found(_)) => true,
        (OutsideRequest::ImportCmdline, OutsideResult::Found(_)) => true,
        (OutsideRequest::TestFile, OutsideResult::FileTest(_, _)) => true,
        (OutsideRequest::RunProgram, OutsideResult::Program(_)) => true,
        (OutsideRequest::ImportProgram, OutsideResult::Program(_)) => true,
        (OutsideRequest::ImportFile, OutsideResult::Imported(_)) => true,
        (OutsideRequest::RunBuiltin, OutsideResult::Builtin(_)) => true,
        (OutsideRequest::TestFile, OutsideResult::FormatFailed) => true,
        (OutsideRequest::RunProgram, OutsideResult::FormatFailed) => true,
        (OutsideRequest::ImportProgram, OutsideResult::FormatFailed) => true,
        (OutsideRequest::ImportFile, OutsideResult::FormatFailed) => true,
        (OutsideRequest::RunBuiltin, OutsideResult::FormatFailed) => true,
        _ => false,
    }
}

/// Law: every matching token is decided one way. A token that the
/// device's recorded values decide needs nothing found out; a token that
/// needs something found out is decided by any answer to its request,
/// and by nothing else.
pub proof fn law_token_decided_once(token: RuleToken, dev: DeviceView, unit: ExecuteUnitData, result: OutsideResult)
    ensures
        token_match_of(token, dev, unit) is Some ==> outside_request_of(token) is None,
        outside_request_of(token) matches Some(q) ==> (outside_match_of(token, result) is Some <==> answers(q, result)),
        outside_request_of(token) is None ==> outside_match_of(token, result) is None,
{
}

/// The mode that `TEST{mode}` compares, read as octal (0 where it is
/// not a number).
pub open spec fn test_mode(attr: Option<String>) -> Option<u32> {
    match attr {
        Some(a) => Some(match octal_u32_of(a@) {
            Some(m) => m as u32,
            None => 0,
        }),
        None => None,
    }
}

/// Whether `token` matches, given what was found out for it: an attribute
/// is compared as a value is (a missing one fails); a missing tested file
/// matches for `!=` only, an existing one by its mode (see
/// [`test_mode_match`]) or, without a mode, for `==`; a program that
/// cannot run fails, one that exits with a nonzero code matches for `!=`
/// only; an import whose program cannot run or exits with a negative code,
/// or whose file cannot be read, matches for `!=` only, else for `==`;
/// a value found in the database or on the command line matches for
/// `==`, else for `!=`; a builtin's answer is compared with the operator,
/// a builtin that fails matches for `!=` only. A value that cannot be
/// formatted makes `TEST` match for `!=` only and the other such tokens
/// fail. `None` where the result does not belong to the token.
pub open spec fn outside_match_of(token: RuleToken, result: OutsideResult) -> Option<Result<bool, ExecuteError>> {
    let op = token.op;
    let nomatch = op == OperatorType::Nomatch;
    let is_match = op == OperatorType::Match;
    match (token.token_type, result) {
        (TokenType::MatchAttr, OutsideResult::Attribute(None)) => Some(Ok(false)),
        (TokenType::MatchParentsAttr, OutsideResult::Attribute(None)) => Some(Ok(false)),
        (TokenType::MatchAttr, OutsideResult::Attribute(Some(v))) => Some(text_match(op, token.value@, v@)),
        (TokenType::MatchParentsAttr, OutsideResult::Attribute(Some(v))) => Some(text_match(op, token.value@, v@)),
        (TokenType::MatchTest, OutsideResult::FormatFailed) => Some(Ok(nomatch)),
        (TokenType::MatchTest, OutsideResult::FileTest(exists, perms)) => Some(Ok(if !exists {
            nomatch
        } else {
            match test_mode(token.attr) {
                Some(mode) => ((mode & perms) > 0) != nomatch,
                None => is_match,
            }
        })),
        (TokenType::MatchProgram, OutsideResult::FormatFailed) => Some(Ok(false)),
        (TokenType::MatchProgram, OutsideResult::Program(None)) => Some(Ok(false)),
        (TokenType::MatchProgram, OutsideResult::Program(Some((_, code)))) => Some(Ok(if code != 0 { nomatch } else { is_match })),
        (TokenType::MatchImportProgram, OutsideResult::FormatFailed) => Some(Ok(false)),
        (TokenType::MatchImportProgram, OutsideResult::Program(None)) => Some(Ok(nomatch)),
        (TokenType::MatchImportProgram, OutsideResult::Program(Some((_, code)))) => Some(Ok(if code < 0 { nomatch } else { is_match })),
        (TokenType::MatchImportFile, OutsideResult::FormatFailed) => Some(Ok(false)),
        (TokenType::MatchImportFile, OutsideResult::Imported(ok)) => Some(Ok(if ok { is_match } else { nomatch })),
        (TokenType::MatchImportDb, OutsideResult::Found(ok)) => Some(Ok(if ok { is_match } else { nomatch })),
        (TokenType::MatchImportCmdline, OutsideResult::Found(ok)) => Some(Ok(if ok { is_match } else { nomatch })),
        (TokenType::MatchImportBuiltin, OutsideResult::FormatFailed) => Some(Ok(false)),
        (TokenType::MatchImportBuiltin, OutsideResult::Builtin(Some(ret))) => Some(Ok(nomatch != ret)),
        (TokenType::MatchImportBuiltin, OutsideResult::Builtin(None)) => Some(Ok(nomatch)),
        _ => None,
    }
}

/// Whether `token` matches, given what was found out for it (see
/// [`outside_match_of`]).
pub fn outside_match(token: &RuleToken, result: &OutsideResult) -> (r: Option<Result<bool, ExecuteError>>)
    ensures
        r == outside_match_of(*token, *result),
{
    let op = token.op;
    let nomatch = op == OperatorType::Nomatch;
    let is_match = op == OperatorType::Match;
    match token.token_type {
        TokenType::MatchAttr | TokenType::MatchParentsAttr => match result {
            OutsideResult::Attribute(None) => Some(Ok(false)),
            OutsideResult::Attribute(Some(v)) => Some(text_token(op, &token.value, v.as_str())),
            _ => None,
        },
        TokenType::MatchTest => match result {
            OutsideResult::FormatFailed => Some(Ok(nomatch)),
            OutsideResult::FileTest(exists, perms) => {
                if !*exists {
                    Some(Ok(nomatch))
                } else {
                    match &token.attr {
                        Some(a) => Some(Ok(test_mode_match(op, Some(a.as_str()), *perms))),
                        None => Some(Ok(is_match)),
                    }
                }
            },
            _ => None,
        },
        TokenType::MatchProgram => match result {
            OutsideResult::FormatFailed => Some(Ok(false)),
            OutsideResult::Program(None) => Some(Ok(false)),
            OutsideResult::Program(Some((_, code))) => Some(Ok(if *code != 0 { nomatch } else { is_match })),
            _ => None,
        },
        TokenType::MatchImportProgram => match result {
            OutsideResult::FormatFailed => Some(Ok(false)),
            OutsideResult::Program(None) => Some(Ok(nomatch)),
            OutsideResult::Program(Some((_, code))) => Some(Ok(if *code < 0 { nomatch } else { is_match })),
            _ => None,
        },
        TokenType::MatchImportFile => match result {
            OutsideResult::FormatFailed => Some(Ok(false)),
            OutsideResult::Imported(ok) => Some(Ok(if *ok { is_match } else { nomatch })),
            _ => None,
        },
        TokenType::MatchImportDb | TokenType::MatchImportCmdline => match result {
            OutsideResult::Found(ok) => Some(Ok(if *ok { is_match } else { nomatch })),
            _ => None,
        },
        TokenType::MatchImportBuiltin => match result {
            OutsideResult::FormatFailed => Some(Ok(false)),
            OutsideResult::Builtin(Some(ret)) => Some(Ok(nomatch != *ret)),
            OutsideResult::Builtin(None) => Some(Ok(nomatch)),
            _ => None,
        },
        _ => None,
    }
}

/// Whether `token` holds on `dev`: by the device's recorded values where
/// they decide it, else by the sysfs attribute `attr` read for it.
pub open spec fn holds_on(token: RuleToken, dev: DeviceView, unit: ExecuteUnitData, attr: Option<String>) -> bool {
    match token_match_of(token, dev, unit) {
        Some(r) => r == Ok::<bool, ExecuteError>(true),
        None => outside_match_of(token, OutsideResult::Attribute(attr)) == Some(Ok::<bool, ExecuteError>(true)),
    }
}

/// The attribute read for token `i`, `None` where none was read.
pub open spec fn attr_at(attrs: Seq<Option<String>>, i: int) -> Option<String> {
    if 0 <= i < attrs.len() { attrs[i] } else { None }
}

/// Whether a group of tokens that match against a parent device all hold
/// on the parent `dev`, `attrs[i]` being the sysfs attribute read on it
/// for token `i`; the first that fails ends the check.
pub fn group_holds(tokens: &[RuleToken], dev: &DeviceView, unit: &ExecuteUnitData, attrs: &Vec<Option<String>>) -> (b: bool)
    ensures
        b == forall|i: int| 0 <= i < tokens@.len() ==> #[trigger] holds_on(tokens@[i], *dev, *unit, attr_at(attrs@, i)),
{
    let mut i: usize = 0;
    while i < tokens.len()
        invariant
            0 <= i <= tokens@.len(),
            forall|k: int| 0 <= k < i ==> #[trigger] holds_on(tokens@[k], *dev, *unit, attr_at(attrs@, k)),
        decreases tokens@.len() - i,
    {
        let t = &tokens[i];
        let ok = match token_match(t, dev, unit) {
            Some(r) => match r {
                Ok(v) => v,
                Err(_) => false,
            },
            None => {
                let a = if i < attrs.len() { attrs[i].clone() } else { None };
                assert(a == attr_at(attrs@, i as int));
                match outside_match(t, &OutsideResult::Attribute(a)) {
                    Some(Ok(v)) => v,
                    _ => false,
                }
            },
        };
        if !ok {
            assert(!holds_on(tokens@[i as int], *dev, *unit, attr_at(attrs@, i as int)));
            return false;
        }
        i += 1;
    }
    true
}

/// The views of key-value pairs.
pub open spec fn pairs_view(ps: Seq<(String, String)>) -> Seq<(Seq<char>, Seq<char>)> {
    ps.map_values(|p: (String, String)| (p.0@, p.1@))
}

/// `ps` without its entries for `key`, in order.
pub open spec fn without_key(ps: Seq<(Seq<char>, Seq<char>)>, key: Seq<char>) -> Seq<(Seq<char>, Seq<char>)>
    decreases ps.len(),
{
    if ps.len() == 0 {
        Seq::empty()
    } else {
        let r = without_key(ps.drop_last(), key);
        if ps.last().0 == key { r } else { r.push(ps.last()) }
    }
}

/// Sets property `key` of a device to `value`: its earlier value goes,
/// the new one comes last.
pub fn set_property(props: &mut Vec<(String, String)>, key: &str, value: &str)
    ensures
        pairs_view(final(props)@) == without_key(pairs_view(old(props)@), key@).push((key@, value@)),
{
    let ghost orig = pairs_view(props@);
    let mut out: Vec<(String, String)> = Vec::new();
    let mut i: usize = 0;
    assert(orig.take(0) =~= Seq::<(Seq<char>, Seq<char>)>::empty());
    assert(pairs_view(out@) =~= Seq::<(Seq<char>, Seq<char>)>::empty());
    while i < props.len()
        invariant
            0 <= i <= props@.len(),
            orig == pairs_view(props@),
            pairs_view(out@) == without_key(orig.take(i as int), key@),
        decreases props@.len() - i,
    {
        assert(orig.take(i + 1).drop_last() =~= orig.take(i as int));
        assert(orig.take(i + 1).last() == (props@[i as int].0@, props@[i as int].1@));
        if !str_eq(props[i].0.as_str(), key) {
            let ghost before = pairs_view(out@);
            out.push((props[i].0.clone(), props[i].1.clone()));
            assert(pairs_view(out@) =~= before.push((props@[i as int].0@, props@[i as int].1@)));
        }
        i += 1;
    }
    assert(orig.take(i as int) =~= orig);
    let ghost before = pairs_view(out@);
    out.push((string_of(key), string_of(value)));
    assert(pairs_view(out@) =~= before.push((key@, value@)));
    *props = out;
}

/// `ts` without the entries equal to `t`, in order.
pub open spec fn without_text(ts: Seq<Seq<char>>, t: Seq<char>) -> Seq<Seq<char>>
    decreases ts.len(),
{
    if ts.len() == 0 {
        Seq::empty()
    } else {
        let r = without_text(ts.drop_last(), t);
        if ts.last() == t { r } else { r.push(ts.last()) }
    }
}

/// A device's tags after a `TAG` token's change: dropped first where the
/// change says so; then the tag added where it is not yet there, or
/// removed.
pub open spec fn tags_after(ts: Seq<Seq<char>>, change: TagChange) -> Seq<Seq<char>> {
    let base = if change.cleanup { Seq::empty() } else { ts };
    match change.edit {
        TagEdit::Keep => base,
        TagEdit::Add(t) => if base.contains(t@) { base } else { base.push(t@) },
        TagEdit::Remove(t) => without_text(base, t@),
    }
}

/// Applies a `TAG` token's change to a device's tags.
pub fn edit_tags(tags: &mut Vec<String>, change: TagChange)
    ensures
        texts(final(tags)@) == tags_after(texts(old(tags)@), change),
{
    let ghost orig = texts(tags@);
    if change.cleanup {
        *tags = Vec::new();
        assert(texts(tags@) =~= Seq::<Seq<char>>::empty());
    }
    let ghost base = texts(tags@);
    match change.edit {
        TagEdit::Keep => {},
        TagEdit::Add(t) => {
            let mut i: usize = 0;
            while i < tags.len()
                invariant
                    0 <= i <= tags@.len(),
                    base == texts(tags@),
                    base == (if change.cleanup { Seq::<Seq<char>>::empty() } else { orig }),
                    change.edit == TagEdit::Add(t),
                    orig == texts(old(tags)@),
                    forall|k: int| 0 <= k < i ==> tags@[k]@ != t@,
                decreases tags@.len() - i,
            {
                if str_eq(tags[i].as_str(), t.as_str()) {
                    assert(base[i as int] == t@);
                    assert(base.contains(t@));
                    return;
                }
                i += 1;
            }
            assert(!base.contains(t@)) by {
                if base.contains(t@) {
                    let k = choose|k: int| 0 <= k < base.len() && base[k] == t@;
                    assert(tags@[k]@ == base[k]);
                }
            }
            let ghost t_view = t@;
            tags.push(t);
            assert(texts(tags@) =~= base.push(t_view));
        },
        TagEdit::Remove(t) => {
            let mut out: Vec<String> = Vec::new();
            let mut i: usize = 0;
            assert(base.take(0) =~= Seq::<Seq<char>>::empty());
            assert(texts(out@) =~= Seq::<Seq<char>>::empty());
            while i < tags.len()
                invariant
                    0 <= i <= tags@.len(),
                    base == texts(tags@),
                    texts(out@) == without_text(base.take(i as int), t@),
                decreases tags@.len() - i,
            {
                assert(base.take(i + 1).drop_last() =~= base.take(i as int));
                assert(base.take(i + 1).last() == tags@[i as int]@);
                if !str_eq(tags[i].as_str(), t.as_str()) {
                    let ghost before = texts(out@);
                    out.push(tags[i].clone());
                    assert(texts(out@) =~= before.push(tags@[i as int]@));
                }
                i += 1;
            }
            assert(base.take(i as int) =~= base);
            *tags = out;
        },
    }
}

/// What an assigning token asks of the device manager, by its kind; the
/// operator and the token's formatted value go with it.
#[derive(Debug, Clone, Copy, PartialEq, Eq, Structural)]
pub enum Assignment {
    /// set the network interface name ([`ExecuteUnitData::apply_name`])
    Name,
    /// add or set the device's links ([`ExecuteUnitData::apply_devlink`])
    Devlink,
    /// queue a program to run
    RunProgram,
    /// queue a builtin command to run
    RunBuiltin,
    /// set the owner by user name (looked up in the user database)
    OwnerByName,
    /// set the group by group name (looked up in the group database)
    GroupByName,
    /// set the owner by uid
    OwnerId,
    /// set the group by gid
    GroupId,
    /// set the device node's mode
    Mode,
    /// write strings without escaping
    EscapeNone,
    /// write strings with characters replaced
    EscapeReplace,
    /// watch the device node
    Watch,
    /// add, remove or set a tag
    Tag,
    /// set the property that the token's attribute names
    Env,
    /// write the sysfs attribute that the token's attribute names
    WriteAttr,
    /// options that act on the device database, the device node or the
    /// log, and security labels: recorded by the device manager, nothing
    /// to do while the rules run
    Recorded,
    /// `GOTO` and `LABEL`, which the walk over the rules handles
    Walk,
    /// a token kind that the rules do not apply (`SYSCTL`, `CONST`)
    Unsupported,
    /// a matching token
    NotAssignment,
}

/// The assignment that a token of kind `t` asks for.
pub open spec fn assignment_of_kind(t: TokenType) -> Assignment {
    match t {
        TokenType::AssignName => Assignment::Name,
        TokenType::AssignDevlink => Assignment::Devlink,
        TokenType::AssignRunProgram => Assignment::RunProgram,
        TokenType::AssignRunBuiltin => Assignment::RunBuiltin,
        TokenType::AssignOwner => Assignment::OwnerByName,
        TokenType::AssignGroup => Assignment::GroupByName,
        TokenType::AssignOwnerId => Assignment::OwnerId,
        TokenType::AssignGroupId => Assignment::GroupId,
        TokenType::AssignMode | TokenType::AssignModeId => Assignment::Mode,
        TokenType::AssignOptionsStringEscapeNone => Assignment::EscapeNone,
        TokenType::AssignOptionsStringEscapeReplace => Assignment::EscapeReplace,
        TokenType::AssignOptionsWatch => Assignment::Watch,
        TokenType::AssignTag => Assignment::Tag,
        TokenType::AssignEnv => Assignment::Env,
        TokenType::AssignAttr => Assignment::WriteAttr,
        TokenType::AssignOptionsDbPersist | TokenType::AssignOptionsDevlinkPriority
        | TokenType::AssignOptionsLogLevel | TokenType::AssignOptionsStaticNode
        | TokenType::AssignSeclabel => Assignment::Recorded,
        TokenType::Goto | TokenType::Label => Assignment::Walk,
        TokenType::AssignSysctl | TokenType::MatchSysctl | TokenType::MatchConst => Assignment::Unsupported,
        _ => Assignment::NotAssignment,
    }
}

/// The assignment that a token of kind `t` asks for (see
/// [`assignment_of_kind`]).
pub fn assignment_of(t: TokenType) -> (r: Assignment)
    ensures
        r == assignment_of_kind(t),
{
    match t {
        TokenType::AssignName => Assignment::Name,
        TokenType::AssignDevlink => Assignment::Devlink,
        TokenType::AssignRunProgram => Assignment::RunProgram,
        TokenType::AssignRunBuiltin => Assignment::RunBuiltin,
        TokenType::AssignOwner => Assignment::OwnerByName,
        TokenType::AssignGroup => Assignment::GroupByName,
        TokenType::AssignOwnerId => Assignment::OwnerId,
        TokenType::AssignGroupId => Assignment::GroupId,
        TokenType::AssignMode | TokenType::AssignModeId => Assignment::Mode,
        TokenType::AssignOptionsStringEscapeNone => Assignment::EscapeNone,
        TokenType::AssignOptionsStringEscapeReplace => Assignment::EscapeReplace,
        TokenType::AssignOptionsWatch => Assignment::Watch,
        TokenType::AssignTag => Assignment::Tag,
        TokenType::AssignEnv => Assignment::Env,
        TokenType::AssignAttr => Assignment::WriteAttr,
        TokenType::AssignOptionsDbPersist | TokenType::AssignOptionsDevlinkPriority
        | TokenType::AssignOptionsLogLevel | TokenType::AssignOptionsStaticNode
        | TokenType::AssignSeclabel => Assignment::Recorded,
        TokenType::Goto | TokenType::Label => Assignment::Walk,
        TokenType::AssignSysctl | TokenType::MatchSysctl | TokenType::MatchConst => Assignment::Unsupported,
        _ => Assignment::NotAssignment,
    }
}

/// Law: every token is exactly one of: decided by the device's recorded
/// values, decided by something found out, or an assignment (or a
/// `GOTO`/`LABEL`), but for `IMPORT{parent}`, which
/// [`import_parent`] applies, and `SYSCTL` and `CONST`, which the rules do
/// not apply.
pub proof fn law_token_routes(token: RuleToken, dev: DeviceView, unit: ExecuteUnitData)
    ensures
        token.token_type != TokenType::MatchImportParent && assignment_of_kind(token.token_type) != Assignment::Unsupported ==> {
            let decided = token_match_of(token, dev, unit) is Some;
            let asks = outside_request_of(token) is Some;
            let assigns = assignment_of_kind(token.token_type) != Assignment::NotAssignment;
            (decided && !asks && !assigns) || (!decided && asks && !assigns) || (!decided && !asks && assigns)
        },
{
}

/// What `IMPORT{cmdline}` of the key `key` gives, `item` being the
/// kernel command line item for the key (`key` or `key=value`), if there
/// is one: whether the token matches, and the property it sets.
pub open spec fn cmdline_import_of(op: OperatorType, key: Seq<char>, item: Option<Seq<char>>) -> (bool, Option<(Seq<char>, Seq<char>)>) {
    match item {
        None => (op == OperatorType::Nomatch, None),
        Some(it) => (op == OperatorType::Match, Some((key, cmdline_value(it)))),
    }
}

/// Applies `IMPORT{cmdline}` (see [`cmdline_import_of`]).
pub fn cmdline_import(op: OperatorType, key: &str, item: Option<&str>) -> (r: (bool, Option<(String, String)>))
    ensures
        r.0 == cmdline_import_of(op, key@, match item { Some(i) => Some(i@), None => None }).0,
        match r.1 {
            Some((k, v)) => cmdline_import_of(op, key@, match item { Some(i) => Some(i@), None => None }).1
                == Some((k@, v@)),
            None => cmdline_import_of(op, key@, match item { Some(i) => Some(i@), None => None }).1 is None,
        },
{
    match item {
        None => (op == OperatorType::Nomatch, None),
        Some(it) => (op == OperatorType::Match, Some((string_of(key), cmdline_property_value(it)))),
    }
}

/// The device's properties after copying in, in order, those of the
/// parent's properties `parent` whose key one of the patterns matches.
pub open spec fn imported_from(props: Seq<(Seq<char>, Seq<char>)>, parent: Seq<(Seq<char>, Seq<char>)>, ps: Seq<Seq<char>>) -> Seq<(Seq<char>, Seq<char>)>
    decreases parent.len(),
{
    if parent.len() == 0 {
        props
    } else {
        let acc = imported_from(props, parent.drop_last(), ps);
        let (k, v) = parent.last();
        if any_matches(ps, k) { without_key(acc, k).push((k, v)) } else { acc }
    }
}

/// What `IMPORT{parent}` does, with `value` the token's formatted value
/// (`None` where it could not be formatted) and `parent` the parent's
/// properties (`None` where the device has no parent): the result, and
/// the device's properties after it. A value that cannot be formatted
/// fails the token; a malformed glob is an error; without a parent the
/// token matches for `!=` only; otherwise the parent's properties whose
/// key one of the value's globs matches are copied and the token matches
/// for `==`.
pub open spec fn import_parent_of(
    op: OperatorType,
    value: Option<Seq<char>>,
    parent: Option<Seq<(Seq<char>, Seq<char>)>>,
    props: Seq<(Seq<char>, Seq<char>)>,
) -> (Result<bool, ExecuteError>, Seq<(Seq<char>, Seq<char>)>) {
    match value {
        None => (Ok(false), props),
        Some(v) => match glob_patterns(v) {
            None => (Err(ExecuteError::InvalidPattern), props),
            Some(ps) => match parent {
                None => (Ok(op == OperatorType::Nomatch), props),
                Some(pp) => (Ok(op == OperatorType::Match), imported_from(props, pp, ps)),
            },
        },
    }
}

/// Applies `IMPORT{parent}` (see [`import_parent_of`]).
pub fn import_parent(
    op: OperatorType,
    value: Option<&str>,
    parent: Option<&Vec<(String, String)>>,
    props: &mut Vec<(String, String)>,
) -> (r: Result<bool, ExecuteError>)
    ensures
        (r, pairs_view(final(props)@)) == import_parent_of(
            op,
            match value { Some(v) => Some(v@), None => None },
            match parent { Some(p) => Some(pairs_view(p@)), None => None },
            pairs_view(old(props)@),
        ),
{
    let v = match value {
        None => return Ok(false),
        Some(v) => v,
    };
    let ps = match glob_set(v) {
        None => return Err(ExecuteError::InvalidPattern),
        Some(ps) => ps,
    };
    let pp = match parent {
        None => return Ok(op == OperatorType::Nomatch),
        Some(pp) => pp,
    };
    let ghost start = pairs_view(props@);
    let ghost pv = pairs_view(pp@);
    let ghost pats = texts(ps@);
    let mut i: usize = 0;
    assert(pv.take(0) =~= Seq::<(Seq<char>, Seq<char>)>::empty());
    while i < pp.len()
        invariant
            0 <= i <= pp@.len(),
            pv == pairs_view(pp@),
            pats == texts(ps@),
            pairs_view(props@) == imported_from(start, pv.take(i as int), pats),
        decreases pp@.len() - i,
    {
        assert(pv.take(i + 1).drop_last() =~= pv.take(i as int));
        assert(pv.take(i + 1).last() == (pp@[i as int].0@, pp@[i as int].1@));
        if globs_match(&ps, pp[i].0.as_str()) {
            set_property(props, pp[i].0.as_str(), pp[i].1.as_str());
        }
        i += 1;
    }
    assert(pv.take(i as int) =~= pv);
    Ok(op == OperatorType::Match)
}

/// `cs` from position `idx` on holds no `$` and no `%`.
pub open spec fn plain_from(cs: Seq<char>, idx: int) -> bool {
    forall|k: int| idx <= k < cs.len() ==> #[trigger] cs[k] != '$' && cs[k] != '%'
}

/// The pieces `ps` are the characters of `cs`, each a literal.
pub open spec fn literal_pieces(ps: Seq<PieceView>, cs: Seq<char>) -> bool {
    ps.len() == cs.len() && forall|k: int| 0 <= k < ps.len() ==> #[trigger] ps[k] == PieceView::Text(cs[k])
}

proof fn lemma_cons_literal(c: char, rest: Seq<PieceView>, tail: Seq<char>)
    requires
        literal_pieces(rest, tail),
    ensures
        literal_pieces(seq![PieceView::Text(c)] + rest, seq![c] + tail),
{
    let all = seq![PieceView::Text(c)] + rest;
    let sub = seq![c] + tail;
    assert forall|k: int| 0 <= k < all.len() implies #[trigger] all[k] == PieceView::Text(sub[k]) by {
        if k > 0 {
            assert(all[k] == rest[k - 1]);
            assert(sub[k] == tail[k - 1]);
        }
    }
}

proof fn lemma_walk_plain(cs: Seq<char>, idx: int)
    requires
        0 <= idx <= cs.len(),
        plain_from(cs, idx),
    ensures
        format_walk(cs, idx).1 is None,
        literal_pieces(format_walk(cs, idx).0, cs.subrange(idx, cs.len() as int)),
    decreases cs.len() - idx,
{
    if idx < cs.len() {
        lemma_walk_plain(cs, idx + 1);
        assert(cs[idx] != '$' && cs[idx] != '%');
        let r = format_walk(cs, idx + 1);
        assert(subst_at(cs, idx, false) == (Ok::<Option<(FormatSubstitutionType, Option<Seq<char>>)>, crate::rules::exec_unit::SubstError>(None), idx));
        assert(format_walk(cs, idx) == (seq![PieceView::Text(cs[idx])] + r.0, r.1));
        let tail = cs.subrange(idx + 1, cs.len() as int);
        lemma_cons_literal(cs[idx], r.0, tail);
        assert(seq![cs[idx]] + tail =~= cs.subrange(idx, cs.len() as int));
    } else {
        assert(cs.subrange(idx, cs.len() as int) =~= Seq::<char>::empty());
    }
}

proof fn lemma_render_plain(
    ps: Seq<PieceView>,
    cs: Seq<char>,
    dev: DeviceView,
    unit: ExecuteUnitData,
    sysattrs: Seq<(String, String)>,
    replace: bool,
)
    requires
        literal_pieces(ps, cs),
    ensures
        format_values(ps, dev, unit, sysattrs) == Ok::<Seq<Seq<char>>, ExecuteError>(Seq::empty()),
        rendered(ps, Seq::empty(), replace) == cs,
    decreases cs.len(),
{
    if cs.len() > 0 {
        assert forall|k: int| 0 <= k < ps.drop_last().len() implies #[trigger] ps.drop_last()[k] == PieceView::Text(cs.drop_last()[k]) by {
            assert(ps[k] == PieceView::Text(cs[k]));
        }
        lemma_render_plain(ps.drop_last(), cs.drop_last(), dev, unit, sysattrs, replace);
        assert(ps.last() == PieceView::Text(cs.last())) by {
            assert(ps[ps.len() - 1] == PieceView::Text(cs[cs.len() - 1]));
        }
        assert(cs.drop_last().push(cs.last()) =~= cs);
    } else {
        assert(ps.len() == 0);
    }
}

/// Law: a value with no `$` and no `%` holds no formatter and formats to
/// itself, whatever the device and whether or not whitespace is
/// replaced.
pub proof fn law_format_plain(
    src: Seq<char>,
    replace_whitespace: bool,
    dev: DeviceView,
    unit: ExecuteUnitData,
    sysattrs: Seq<(String, String)>,
)
    requires
        plain_from(src, 0),
    ensures
        formatted(src, replace_whitespace, dev, unit, sysattrs) == Ok::<Seq<char>, ExecuteError>(src),
{
    lemma_walk_plain(src, 0);
    assert(src.subrange(0, src.len() as int) =~= src);
    lemma_render_plain(format_walk(src, 0).0, src, dev, unit, sysattrs, replace_whitespace);
}


/// Law: a token that compares one of the device's recorded values
/// compares the right one: `ACTION` the event's action, `DEVPATH` the
/// path, `KERNEL`/`KERNELS` the kernel name, `NAME` the name set so far,
/// `ENV{key}` the property `key` (empty where missing), `SUBSYSTEM(S)`
/// the subsystem and `DRIVER(S)` the driver (empty where missing),
/// `RESULT` the last program's output. With `==` it matches exactly when
/// one of the globs of its value matches that text, with `!=` exactly when
/// none does; a malformed glob is an error.
pub proof fn law_token_compares(token: RuleToken, dev: DeviceView, unit: ExecuteUnitData)
    ensures
        ({
            let text: Option<Seq<char>> = match token.token_type {
                TokenType::MatchAction => Some(dev.action@),
                TokenType::MatchDevpath => Some(dev.devpath@),
                TokenType::MatchKernel | TokenType::MatchParentsKernel => Some(dev.sysname@),
                TokenType::MatchName => Some(unit.name@),
                TokenType::MatchEnv => Some(match lookup(dev.properties@, or_empty(token.attr)) {
                    Some(v) => v,
                    None => Seq::<char>::empty(),
                }),
                TokenType::MatchSubsystem | TokenType::MatchParentsSubsystem => Some(or_empty(dev.subsystem)),
                TokenType::MatchDriver | TokenType::MatchParentsDriver => Some(or_empty(dev.driver)),
                TokenType::MatchResult => Some(unit.program_result@),
                _ => None,
            };
            text matches Some(t) ==> token_match_of(token, dev, unit) == Some(match glob_patterns(token.value@) {
                None => Err(ExecuteError::InvalidPattern),
                Some(ps) => Ok::<bool, ExecuteError>(if token.op == OperatorType::Nomatch {
                    !any_matches(ps, t)
                } else {
                    any_matches(ps, t)
                }),
            })
        }),
{
}

/// Law: `SYMLINK` and `TAG`/`TAGS` compare the device's links and tags:
/// with `==` the token matches exactly when some link or tag matches one
/// of the value's globs, with `!=` exactly when none does; a malformed
/// glob is an error. Other token kinds that need something found out, or
/// that assign, are not decided by the recorded values.
pub proof fn law_token_lists(token: RuleToken, dev: DeviceView, unit: ExecuteUnitData)
    ensures
        token.token_type == TokenType::MatchDevlink && token.op == OperatorType::Match ==> token_match_of(token, dev, unit)
            == Some(match glob_patterns(token.value@) {
                None => Err(ExecuteError::InvalidPattern),
                Some(ps) => Ok::<bool, ExecuteError>(exists|i: int| 0 <= i < dev.devlinks@.len() && any_matches(ps, #[trigger] dev.devlinks@[i]@)),
            }),
        token.token_type == TokenType::MatchDevlink && token.op == OperatorType::Nomatch ==> token_match_of(token, dev, unit)
            == Some(match glob_patterns(token.value@) {
                None => Err(ExecuteError::InvalidPattern),
                Some(ps) => Ok::<bool, ExecuteError>(!exists|i: int| 0 <= i < dev.devlinks@.len() && any_matches(ps, #[trigger] dev.devlinks@[i]@)),
            }),
        (token.token_type == TokenType::MatchTag || token.token_type == TokenType::MatchParentsTag) && token.op == OperatorType::Match
            ==> token_match_of(token, dev, unit) == Some(match glob_patterns(token.value@) {
                None => Err(ExecuteError::InvalidPattern),
                Some(ps) => Ok::<bool, ExecuteError>(exists|i: int| 0 <= i < dev.tags@.len() && any_matches(ps, #[trigger] dev.tags@[i]@)),
            }),
        (token.token_type == TokenType::MatchTag || token.token_type == TokenType::MatchParentsTag) && token.op == OperatorType::Nomatch
            ==> token_match_of(token, dev, unit) == Some(match glob_patterns(token.value@) {
                None => Err(ExecuteError::InvalidPattern),
                Some(ps) => Ok::<bool, ExecuteError>(!exists|i: int| 0 <= i < dev.tags@.len() && any_matches(ps, #[trigger] dev.tags@[i]@)),
            }),
        outside_request_of(token) is Some ==> token_match_of(token, dev, unit) is None,
        token.token_type.rank() >= TokenType::AssignOptionsStringEscapeNone.rank() ==> token_match_of(token, dev, unit) is None,
{
    let v = token.value@;
    match glob_patterns(v) {
        Some(ps) => {
            if token.token_type == TokenType::MatchDevlink {
                assert(token_match_of(token, dev, unit) == Some(items_match(token.op, v, dev.devlinks@)));
            }
            if token.token_type == TokenType::MatchTag || token.token_type == TokenType::MatchParentsTag {
                assert(token_match_of(token, dev, unit) == Some(items_match(token.op, v, dev.tags@)));
            }
        },
        None => {},
    }
}

} // verus!
