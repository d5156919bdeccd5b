//! String utilities of the device manager: formatter checks, name
//! sanitisers, property parsing, command splitting and the placeholder
//! trie. This module holds the pattern-based forms of the checks; the
//! character-scanning forms are in `commons`.

pub mod commons;
pub mod spawn;
pub mod trie;

use vstd::prelude::*;
use crate::rules::{formatter_of, FormatSubstitutionType, RulesError};
use crate::text::{chars_of, parse_int, parse_int_range, string_from_range, trim_bounds, trim_ws};
use crate::utils::commons::PropertyError;

verus! {

/// What `regex::Regex::captures_iter` reports for `pattern` on `text`:
/// for each match, left to right, the text of each group in order (group
/// 0 is the whole match); `None` where the pattern does not compile.
pub uninterp spec fn regex_captures_of(pattern: Seq<char>, text: Seq<char>) -> Option<Seq<Seq<Option<Seq<char>>>>>;

/// What `regex::Regex::is_match` reports for `pattern` on `text`; `None`
/// where the pattern does not compile.
pub uninterp spec fn regex_matches(pattern: Seq<char>, text: Seq<char>) -> Option<bool>;

/// What `regex::Regex::replace_all` gives for `pattern` on `text` with the
/// literal replacement `rep`; `None` where the pattern does not compile.
pub uninterp spec fn regex_replaced(pattern: Seq<char>, text: Seq<char>, rep: Seq<char>) -> Option<Seq<char>>;

/// One match: the texts of its groups.
pub open spec fn groups_view(c: Seq<Option<String>>) -> Seq<Option<Seq<char>>> {
    c.map_values(|g: Option<String>| crate::rules::opt_view(g))
}

/// All matches, as plain values.
pub open spec fn captures_view(r: Option<Vec<Vec<Option<String>>>>) -> Option<Seq<Seq<Option<Seq<char>>>>> {
    match r {
        Some(v) => Some(v@.map_values(|c: Vec<Option<String>>| groups_view(c@))),
        None => None,
    }
}

/// `regex::Regex::new` then `captures_iter`: the groups of every match of
/// `pattern` in `text`. The result is the named `regex_captures_of`.
#[verifier::external_body]
pub(crate) fn regex_captures(pattern: &str, text: &str) -> (r: Option<Vec<Vec<Option<String>>>>)
    ensures
        captures_view(r) == regex_captures_of(pattern@, text@),
{
    regex::Regex::new(pattern).ok().map(|re| {
        re.captures_iter(text).map(|c| c.iter().map(|m| m.map(|m| m.as_str().to_string())).collect()).collect()
    })
}

/// `regex::Regex::new` then `is_match`. The result is the named
/// `regex_matches`.
#[verifier::external_body]
pub(crate) fn regex_is_match(pattern: &str, text: &str) -> (r: Option<bool>)
    ensures
        r == regex_matches(pattern@, text@),
{
    regex::Regex::new(pattern).ok().map(|re| re.is_match(text))
}

/// `regex::Regex::new` then `replace_all` with a literal replacement. The
/// result is the named `regex_replaced`.
#[verifier::external_body]
pub(crate) fn regex_replace_all(pattern: &str, text: &str, rep: &str) -> (r: Option<String>)
    ensures
        crate::rules::opt_view(r) == regex_replaced(pattern@, text@, rep@),
{
    regex::Regex::new(pattern).ok().map(|re| re.replace_all(text, regex::NoExpand(rep)).to_string())
}

/// The pattern of a formatter: `$name` or `%c`, with an optional `{attr}`.
pub const FORMATTER_PATTERN: &'static str = "(\\$(?P<long>\\w+)|%(?P<short>\\w))(\\{(?P<attr>\\w+)\\})?";

/// Group `i` of a match (`None` where the match has fewer groups).
pub open spec fn group(c: Seq<Option<Seq<char>>>, i: int) -> Option<Seq<char>> {
    if 0 <= i < c.len() {
        c[i]
    } else {
        None
    }
}

/// The formatter kind a match names: by its long name, else its short
/// name; `Invalid` where the name is unknown.
pub open spec fn capture_kind(c: Seq<Option<Seq<char>>>) -> FormatSubstitutionType {
    let name = if group(c, 2) is Some { group(c, 2) } else { group(c, 3) };
    match name {
        Some(n) => match formatter_of(n) {
            Some(t) => t,
            None => FormatSubstitutionType::Invalid,
        },
        None => FormatSubstitutionType::Invalid,
    }
}

/// The check of one formatter match: its kind must be known, `attr` and
/// `env` need an attribute, and the attribute of `result` must be an
/// `i32`.
pub open spec fn capture_check(c: Seq<Option<Seq<char>>>) -> Result<(), RulesError> {
    let t = capture_kind(c);
    if t == FormatSubstitutionType::Invalid {
        Err(RulesError::InvalidFormatter)
    } else if (t == FormatSubstitutionType::Attr || t == FormatSubstitutionType::Env) && group(c, 5) is None {
        Err(RulesError::InvalidFormat)
    } else if t == FormatSubstitutionType::Result && group(c, 5) is Some
        && parse_int(group(c, 5)->Some_0, i32::MIN as int, i32::MAX as int, true) is None {
        Err(RulesError::InvalidFormat)
    } else {
        Ok(())
    }
}

/// The checks of all matches, in order: the first failure, if any.
pub open spec fn captures_check(cs: Seq<Seq<Option<Seq<char>>>>) -> Result<(), RulesError>
    decreases cs.len(),
{
    if cs.len() == 0 {
        Ok(())
    } else if captures_check(cs.drop_last()) is Err {
        captures_check(cs.drop_last())
    } else {
        capture_check(cs.last())
    }
}

fn opt_group(c: &Vec<Option<String>>, i: usize) -> (r: Option<&String>)
    ensures
        crate::rules::opt_view(match r { Some(s) => Some(*s), None => None }) == group(groups_view(c@), i as int),
{
    if i < c.len() {
        match &c[i] {
            Some(s) => Some(s),
            None => None,
        }
    } else {
        None
    }
}

fn check_capture(c: &Vec<Option<String>>) -> (r: Result<(), RulesError>)
    ensures
        r == capture_check(groups_view(c@)),
{
    let name = match opt_group(c, 2) {
        Some(n) => Some(n),
        None => opt_group(c, 3),
    };
    let t = match name {
        Some(n) => match FormatSubstitutionType::from_str(n.as_str()) {
            Ok(t) => t,
            Err(_) => FormatSubstitutionType::Invalid,
        },
        None => FormatSubstitutionType::Invalid,
    };
    if t == FormatSubstitutionType::Invalid {
        return Err(RulesError::InvalidFormatter);
    }
    let attr = opt_group(c, 5);
    if (t == FormatSubstitutionType::Attr || t == FormatSubstitutionType::Env) && attr.is_none() {
        return Err(RulesError::InvalidFormat);
    }
    if t == FormatSubstitutionType::Result {
        if let Some(a) = attr {
            let av = chars_of(a.as_str());
            assert(av@.subrange(0, av@.len() as int) =~= av@);
            if parse_int_range(&av, 0, av.len(), i32::MIN as i128, i32::MAX as i128, true).is_none() {
                return Err(RulesError::InvalidFormat);
            }
        }
    }
    Ok(())
}

/// Checks the formatter matches of a value in order; the first that
/// fails decides.
pub fn check_captures(cs: &Vec<Vec<Option<String>>>) -> (r: Result<(), RulesError>)
    ensures
        r == captures_check(cs@.map_values(|c: Vec<Option<String>>| groups_view(c@))),
{
    let ghost cv = cs@.map_values(|c: Vec<Option<String>>| groups_view(c@));
    let mut i: usize = 0;
    assert(cv.take(0) =~= Seq::<Seq<Option<Seq<char>>>>::empty());
    while i < cs.len()
        invariant
            0 <= i <= cs.len(),
            cv == cs@.map_values(|c: Vec<Option<String>>| groups_view(c@)),
            captures_check(cv.take(i as int)) == Ok::<(), RulesError>(()),
        decreases cs.len() - i,
    {
        assert(cv.take(i + 1).drop_last() =~= cv.take(i as int));
        assert(cv.take(i + 1).last() == groups_view(cs@[i as int]@));
        let c = check_capture(&cs[i]);
        if c.is_err() {
            proof {
                lemma_captures_check_stop(cv, i as int);
            }
            return c;
        }
        i += 1;
    }
    assert(cv.take(i as int) =~= cv);
    Ok(())
}

/// A failing match decides the check of all matches.
pub proof fn lemma_captures_check_stop(cs: Seq<Seq<Option<Seq<char>>>>, k: int)
    requires
        0 <= k < cs.len(),
        captures_check(cs.take(k + 1)) is Err,
    ensures
        captures_check(cs) == captures_check(cs.take(k + 1)),
    decreases cs.len(),
{
    if k + 1 == cs.len() {
        assert(cs.take(k + 1) =~= cs);
    } else {
        assert(cs.drop_last().take(k + 1) =~= cs.take(k + 1));
        lemma_captures_check_stop(cs.drop_last(), k);
    }
}

/// The formatter check of `value`: every `$name{attr}` or `%c{attr}` match
/// must pass `capture_check`; where the pattern cannot be compiled the
/// value is refused.
pub open spec fn format_check(value: Seq<char>) -> Result<(), RulesError> {
    match regex_captures_of(FORMATTER_PATTERN@, value) {
        Some(cs) => captures_check(cs),
        None => Err(RulesError::InvalidFormat),
    }
}

/// Checks the formatters in `value` (matched by `FORMATTER_PATTERN`).
pub fn check_format(key: &str, value: &str) -> (r: Result<(), RulesError>)
    ensures
        r == format_check(value@),
{
    match regex_captures(FORMATTER_PATTERN, value) {
        Some(cs) => check_captures(&cs),
        None => Err(RulesError::InvalidFormat),
    }
}

/// Checks the formatters in a rule value; with `nonempty` an empty value
/// is refused.
pub fn check_value_format(key: &str, value: &str, nonempty: bool) -> (r: Result<(), RulesError>)
    ensures
        nonempty && value@.len() == 0 ==> r == Err::<(), RulesError>(RulesError::InvalidValue),
        !(nonempty && value@.len() == 0) ==> r == format_check(value@),
{
    if nonempty && value.is_empty() {
        return Err(RulesError::InvalidValue);
    }
    check_format(key, value)
}

/// Checks the formatters in a rule attribute, which must not be empty.
pub fn check_attr_format(key: &str, attr: &str) -> (r: Result<(), RulesError>)
    ensures
        attr@.len() == 0 ==> r == Err::<(), RulesError>(RulesError::InvalidAttribute),
        attr@.len() > 0 ==> r == format_check(attr@),
{
    if attr.is_empty() {
        return Err(RulesError::InvalidAttribute);
    }
    check_format(key, attr)
}

/// The pattern of whitespace runs.
pub const WHITESPACE_PATTERN: &'static str = "\\s+";

/// Replaces every run of whitespace in `s` with one underscore; where the
/// pattern cannot be compiled, `s` is returned unchanged.
pub fn replace_whitespace(s: &str) -> (r: String)
    ensures
        regex_replaced(WHITESPACE_PATTERN@, s@, "_"@) matches Some(t) ==> r@ == t,
        regex_replaced(WHITESPACE_PATTERN@, s@, "_"@) is None ==> r@ == s@,
{
    match regex_replace_all(WHITESPACE_PATTERN, s, "_") {
        Some(t) => t,
        None => crate::text::string_of(s),
    }
}

/// The pattern of a `KEY=value` property line.
pub const PROPERTY_PATTERN: &'static str = "(?P<key>[^=]*)\\s*=\\s*(?P<value>([^\"']$)|([^\"'].*[^\"']$)|(\".*\"$)|('.*'$))";

/// What the first property match (its key group 1 and value group 2)
/// gives: both must be nonempty; a quoted value loses its quotes.
pub open spec fn property_match(c: Seq<Option<Seq<char>>>) -> Result<(Seq<char>, Seq<char>), PropertyError> {
    let key = match group(c, 1) { Some(k) => k, None => Seq::empty() };
    let value = match group(c, 2) { Some(v) => v, None => Seq::empty() };
    if key.len() == 0 || value.len() == 0 {
        Err(PropertyError::Malformed)
    } else if value[0] == '"' || value[0] == '\'' {
        if value.len() < 2 {
            Err(PropertyError::UnmatchedQuotes)
        } else {
            Ok((key, value.subrange(1, value.len() - 1)))
        }
    } else {
        Ok((key, value))
    }
}

/// What parsing a property line gives: the line is trimmed; a comment is
/// refused; otherwise the first match of `PROPERTY_PATTERN` decides.
pub open spec fn property_line(s: Seq<char>) -> Result<(Seq<char>, Seq<char>), PropertyError> {
    let t = trim_ws(s);
    if t.len() > 0 && t[0] == '#' {
        Err(PropertyError::Commented)
    } else {
        match regex_captures_of(PROPERTY_PATTERN@, t) {
            Some(cs) => if cs.len() == 0 {
                Err(PropertyError::Malformed)
            } else {
                property_match(cs[0])
            },
            None => Err(PropertyError::Malformed),
        }
    }
}

/// Parses a `KEY=value` property line by pattern matching.
pub fn get_property_from_string(s: &str) -> (r: Result<(String, String), PropertyError>)
    ensures
        r matches Ok(p) ==> property_line(s@) == Ok::<(Seq<char>, Seq<char>), PropertyError>((p.0@, p.1@)),
        r matches Err(e) ==> property_line(s@) == Err::<(Seq<char>, Seq<char>), PropertyError>(e),
{
    let v = chars_of(s);
    assert(v@.subrange(0, v@.len() as int) =~= v@);
    let (a, b) = trim_bounds(&v, 0, v.len());
    let t = string_from_range(&v, a, b);
    if a < b && v[a] == '#' {
        return Err(PropertyError::Commented);
    }
    let cs = match regex_captures(PROPERTY_PATTERN, t.as_str()) {
        Some(cs) => cs,
        None => {
            return Err(PropertyError::Malformed);
        },
    };
    if cs.len() == 0 {
        return Err(PropertyError::Malformed);
    }
    let c = &cs[0];
    assert(groups_view(c@) == captures_view(Some(cs))->Some_0[0]);
    let key = match opt_group(c, 1) {
        Some(k) => k.clone(),
        None => String::new(),
    };
    let value = match opt_group(c, 2) {
        Some(x) => x.clone(),
        None => String::new(),
    };
    let vv = chars_of(value.as_str());
    if key.as_str().is_empty() || vv.len() == 0 {
        return Err(PropertyError::Malformed);
    }
    if vv[0] == '"' || vv[0] == '\'' {
        if vv.len() < 2 {
            return Err(PropertyError::UnmatchedQuotes);
        }
        return Ok((key, string_from_range(&vv, 1, vv.len() - 1)));
    }
    Ok((key, value))
}

} // verus!
