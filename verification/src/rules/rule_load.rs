//! The pattern-based rule reader: it knows the `ACTION` and `SYMLINK`
//! keys and splits a line into elements with a regular expression.

use vstd::prelude::*;
use crate::rules::{eq_lit, operator_of, opt_view, OperatorType, RuleLine, RuleToken, RulesError, TokenType};
use crate::rules::rules_load::{is_match_op, token_view, tokens_parts, TokenParts};
use crate::text::chars_of;
use crate::utils::{captures_view, group, groups_view, regex_captures, regex_captures_of, regex_is_match, regex_matches};

verus! {

/// What an `ACTION` or `SYMLINK` element becomes.
pub open spec fn basic_outcome(key: Seq<char>, attr: Option<Seq<char>>, op_str: Seq<char>, value: Seq<char>) -> Result<TokenParts, RulesError> {
    match operator_of(op_str) {
        None => Err(RulesError::InvalidOperator),
        Some(op) => if key == "ACTION"@ {
            if attr is Some {
                Err(RulesError::AttributeNotAllowed)
            } else if !is_match_op(op) {
                Err(RulesError::OperatorNotAllowed)
            } else {
                Ok((TokenType::MatchAction, op, None, value))
            }
        } else {
            if attr is Some {
                Err(RulesError::AttributeNotAllowed)
            } else if !is_match_op(op) {
                Ok((TokenType::AssignDevlink, op, None, value))
            } else {
                Ok((TokenType::MatchDevlink, op, None, value))
            }
        },
    }
}

impl RuleToken {
    /// Creates an `ACTION` or `SYMLINK` token: `ACTION` only compares,
    /// `SYMLINK` compares or assigns, neither takes an attribute. Other
    /// keys are not handled (the operator is checked first).
    pub fn new(key: String, attr: Option<String>, op: String, value: String) -> (r: Result<RuleToken, RulesError>)
        requires
            operator_of(op@) is Some ==> (key@ == "ACTION"@ || key@ == "SYMLINK"@),
        ensures
            token_view(r) == basic_outcome(key@, opt_view(attr), op@, value@),
    {
        let op = match OperatorType::from_str(op.as_str()) {
            Ok(o) => o,
            Err(e) => {
                return Err(e);
            },
        };
        let m = op == OperatorType::Match || op == OperatorType::Nomatch;
        let kv = chars_of(key.as_str());
        if eq_lit(&kv, "ACTION") {
            if attr.is_some() {
                return Err(RulesError::AttributeNotAllowed);
            }
            if !m {
                return Err(RulesError::OperatorNotAllowed);
            }
            Ok(RuleToken::from_parts(TokenType::MatchAction, op, None, value))
        } else {
            if attr.is_some() {
                return Err(RulesError::AttributeNotAllowed);
            }
            if !m {
                Ok(RuleToken::from_parts(TokenType::AssignDevlink, op, None, value))
            } else {
                Ok(RuleToken::from_parts(TokenType::MatchDevlink, op, None, value))
            }
        }
    }
}

/// The pattern of a whole rule line: one or more elements.
pub const LINE_PATTERN: &'static str = "((?P<key>[^={+\\-!:\u{0}\\s]+)(\\{(?P<attr>[^\\{\\}]+)\\})?\\s*(?P<op>[!:+-=]?=)\\s*\"(?P<value>[^\"]+)\"\\s*,?\\s*)+";

/// The pattern of one element: key (group 1), attribute (group 3),
/// operator (group 4) and value (group 5).
pub const TOKEN_PATTERN: &'static str = "(?P<key>[^={+\\-!:\u{0}\\s]+)(\\{(?P<attr>[^\\{\\}]+)\\})?\\s*(?P<op>[!:+-=]?=)\\s*\"(?P<value>[^\"]+)\"\\s*,?\\s*";

/// The element of one element match.
pub open spec fn match_element(c: Seq<Option<Seq<char>>>) -> (Seq<char>, Option<Seq<char>>, Seq<char>, Seq<char>) {
    (
        match group(c, 1) { Some(k) => k, None => Seq::empty() },
        group(c, 3),
        match group(c, 4) { Some(o) => o, None => Seq::empty() },
        match group(c, 5) { Some(v) => v, None => Seq::empty() },
    )
}

/// The element's key is one that `RuleToken::new` handles, or its
/// operator is invalid.
pub open spec fn element_known(e: (Seq<char>, Option<Seq<char>>, Seq<char>, Seq<char>)) -> bool {
    operator_of(e.2) is Some ==> (e.0 == "ACTION"@ || e.0 == "SYMLINK"@)
}

/// The tokens of the element matches, or the first error; an element
/// with another key is `UnknownKey`.
pub open spec fn elements_outcome(cs: Seq<Seq<Option<Seq<char>>>>) -> Result<Seq<TokenParts>, RulesError>
    decreases cs.len(),
{
    if cs.len() == 0 {
        Ok(Seq::empty())
    } else {
        match elements_outcome(cs.drop_last()) {
            Err(e) => Err(e),
            Ok(ps) => {
                let e = match_element(cs.last());
                if !element_known(e) {
                    Err(RulesError::UnknownKey)
                } else {
                    match basic_outcome(e.0, e.1, e.2, e.3) {
                        Err(err) => Err(err),
                        Ok(p) => Ok(ps.push(p)),
                    }
                }
            },
        }
    }
}

/// What reading `line` with the patterns gives: a line that does not
/// match `LINE_PATTERN` (or whose patterns do not compile) is invalid;
/// otherwise each match of `TOKEN_PATTERN` becomes a token.
pub open spec fn pattern_line_outcome(line: Seq<char>) -> Result<Seq<TokenParts>, RulesError> {
    match (regex_matches(LINE_PATTERN@, line), regex_captures_of(TOKEN_PATTERN@, line)) {
        (Some(true), Some(cs)) => elements_outcome(cs),
        _ => Err(RulesError::InvalidLine(0)),
    }
}

fn group_text(c: &Vec<Option<String>>, i: usize) -> (s: String)
    ensures
        s@ == match group(groups_view(c@), i as int) { Some(x) => x, None => Seq::empty() },
{
    if i < c.len() {
        match &c[i] {
            Some(x) => x.clone(),
            None => String::new(),
        }
    } else {
        String::new()
    }
}

fn element_of(c: &Vec<Option<String>>) -> (r: (String, Option<String>, String, String))
    ensures
        (r.0@, opt_view(r.1), r.2@, r.3@) == match_element(groups_view(c@)),
{
    let attr = if 3 < c.len() {
        match &c[3] {
            Some(x) => Some(x.clone()),
            None => None,
        }
    } else {
        None
    };
    (group_text(c, 1), attr, group_text(c, 4), group_text(c, 5))
}

impl RuleLine {
    /// Reads a rule line with the element patterns; only `ACTION` and
    /// `SYMLINK` elements are understood.
    pub fn from_pattern(line: String, line_number: u32) -> (r: Result<RuleLine, RulesError>)
        ensures
            match r {
                Ok(l) => pattern_line_outcome(line@) == Ok::<Seq<TokenParts>, RulesError>(tokens_parts(l.tokens@))
                    && l.line_content@ == line@ && l.line_number == line_number,
                Err(e) => pattern_line_outcome(line@) == Err::<Seq<TokenParts>, RulesError>(e),
            },
    {
        let matched = regex_is_match(LINE_PATTERN, line.as_str());
        let caps = regex_captures(TOKEN_PATTERN, line.as_str());
        let cs = match (matched, caps) {
            (Some(true), Some(cs)) => cs,
            _ => {
                return Err(RulesError::InvalidLine(0));
            },
        };
        let ghost cv = captures_view(Some(cs))->Some_0;
        assert(pattern_line_outcome(line@) == elements_outcome(cv));
        let ghost whole = line@;
        let mut out = RuleLine::new(line, line_number);
        let mut i: usize = 0;
        assert(cv.take(0) =~= Seq::<Seq<Option<Seq<char>>>>::empty());
        assert(tokens_parts(out.tokens@) =~= Seq::<TokenParts>::empty());
        while i < cs.len()
            invariant
                0 <= i <= cs.len(),
                cv == captures_view(Some(cs))->Some_0,
                cv.len() == cs@.len(),
                whole == line@,
                pattern_line_outcome(whole) == elements_outcome(cv),
                elements_outcome(cv.take(i as int)) == Ok::<Seq<TokenParts>, RulesError>(tokens_parts(out.tokens@)),
                out.line_content@ == line@,
                out.line_number == line_number,
            decreases cs.len() - i,
        {
            assert(cv.take(i + 1).drop_last() =~= cv.take(i as int));
            assert(cv.take(i + 1).last() == groups_view(cs@[i as int]@));
            let (key, attr, op, value) = element_of(&cs[i]);
            let kv = chars_of(key.as_str());
            let known = match OperatorType::from_str(op.as_str()) {
                Ok(_) => eq_lit(&kv, "ACTION") || eq_lit(&kv, "SYMLINK"),
                Err(_) => true,
            };
            if !known {
                proof {
                    lemma_elements_stop(cv, i as int);
                }
                return Err(RulesError::UnknownKey);
            }
            match RuleToken::new(key, attr, op, value) {
                Err(e) => {
                    proof {
                        lemma_elements_stop(cv, i as int);
                    }
                    return Err(e);
                },
                Ok(t) => {
                    let ghost before = out.tokens@;
                    out.tokens.push(t);
                    assert(tokens_parts(out.tokens@) =~= tokens_parts(before).push(t.parts()));
                },
            }
            i += 1;
        }
        assert(cv.take(i as int) =~= cv);
        Ok(out)
    }
}

/// A failing element decides the outcome of all elements.
pub proof fn lemma_elements_stop(cs: Seq<Seq<Option<Seq<char>>>>, k: int)
    requires
        0 <= k < cs.len(),
        elements_outcome(cs.take(k + 1)) is Err,
    ensures
        elements_outcome(cs) == elements_outcome(cs.take(k + 1)),
    decreases cs.len(),
{
    if k + 1 == cs.len() {
        assert(cs.take(k + 1) =~= cs);
    } else {
        assert(cs.drop_last().take(k + 1) =~= cs.take(k + 1));
        lemma_elements_stop(cs.drop_last(), k);
    }
}

} // verus!
