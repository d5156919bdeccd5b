//! The order in which the rules are applied to a device. The walk goes
//! through the files, and through the lines of each file; a line whose
//! kind the device cannot use is skipped; otherwise its tokens are
//! evaluated one by one until one fails. Tokens that match against the
//! parent devices are evaluated until one of them matches; the others of
//! that line are then passed over. A line whose tokens all matched goes
//! on at its `GOTO` target, if it has one. Evaluating a token needs the
//! device, so the walk says which token to evaluate next and is told
//! whether it matched.

use vstd::prelude::*;
use crate::rules::{OperatorType, RuleFile, RuleLine, RuleLineType, RuleToken, Rules, TokenType};
use crate::rules::exec_unit::texts;
use crate::rules::rules_load::{octal_u32_of, parse_octal_u32};
use crate::text::{split_char, split_on};
use crate::utils::{regex_is_match, regex_matches};

verus! {

/// The kinds of line applied to a device: lines with `GOTO` or another
/// update always; lines with `SYMLINK`, `OWNER`, `GROUP` or `MODE` where
/// the device has a device number; lines with `NAME` where it has an
/// interface index; on removal neither of the last two.
pub open spec fn mask_of(remove: bool, has_devnum: bool, has_ifindex: bool) -> RuleLineType {
    RuleLineType {
        has_name: !remove && has_ifindex,
        has_devlink: !remove && has_devnum,
        has_static_node: false,
        has_goto: true,
        has_label: false,
        update_something: true,
    }
}

/// The two sets of flags share one.
pub open spec fn intersects(a: RuleLineType, b: RuleLineType) -> bool {
    ||| a.has_name && b.has_name
    ||| a.has_devlink && b.has_devlink
    ||| a.has_static_node && b.has_static_node
    ||| a.has_goto && b.has_goto
    ||| a.has_label && b.has_label
    ||| a.update_something && b.update_something
}

/// The mask of line kinds applied to a device.
pub fn execution_mask(remove: bool, has_devnum: bool, has_ifindex: bool) -> (m: RuleLineType)
    ensures
        m == mask_of(remove, has_devnum, has_ifindex),
{
    RuleLineType {
        has_name: !remove && has_ifindex,
        has_devlink: !remove && has_devnum,
        has_static_node: false,
        has_goto: true,
        has_label: false,
        update_something: true,
    }
}

/// A line of kind `line_type` is applied under `mask`.
pub fn line_selected(line_type: &RuleLineType, mask: &RuleLineType) -> (b: bool)
    ensures
        b == intersects(*line_type, *mask),
{
    (line_type.has_name && mask.has_name) || (line_type.has_devlink && mask.has_devlink)
        || (line_type.has_static_node && mask.has_static_node) || (line_type.has_goto && mask.has_goto)
        || (line_type.has_label && mask.has_label) || (line_type.update_something
        && mask.update_something)
}

/// The token matches against the parent devices.
pub open spec fn parent_token(t: RuleToken) -> bool {
    TokenType::MatchParentsKernel.rank() <= t.token_type.rank() <= TokenType::MatchParentsTag.rank()
}

/// Token `j` of `l` is evaluated: it is no parent token, or no parent
/// token of the line has matched yet.
pub open spec fn evaluable(l: RuleLine, j: int, parents_done: bool) -> bool {
    !(parents_done && parent_token(l.tokens@[j]))
}

/// The first token of `l` from `from` on that is evaluated; the number of
/// tokens if there is none.
pub open spec fn first_evaluable(l: RuleLine, from: int, parents_done: bool) -> int
    decreases l.tokens@.len() - from,
{
    if from >= l.tokens@.len() {
        l.tokens@.len() as int
    } else if evaluable(l, from, parents_done) {
        from
    } else {
        first_evaluable(l, from + 1, parents_done)
    }
}

/// The line is applied under `mask` and has tokens to evaluate.
pub open spec fn line_runs(l: RuleLine, mask: RuleLineType) -> bool {
    intersects(l.line_type, mask) && l.tokens@.len() > 0
}

/// The first line, from line `i` of file `f` on, in file order and then
/// line order, that runs under `mask`.
pub open spec fn next_running(files: Seq<RuleFile>, mask: RuleLineType, f: int, i: int) -> Option<(int, int)>
    decreases files.len() - f, files[f].lines@.len() - i,
{
    if f < 0 || f >= files.len() || i < 0 {
        None
    } else if i >= files[f].lines@.len() {
        next_running(files, mask, f + 1, 0)
    } else if line_runs(files[f].lines@[i], mask) {
        Some((f, i))
    } else {
        next_running(files, mask, f, i + 1)
    }
}

/// What the walk asks for next.
#[derive(Debug, Clone, Copy, PartialEq, Eq, Structural)]
pub enum WalkAction {
    /// Evaluate token `token` of line `line` of file `file`, against the
    /// parent devices where `on_parent` holds, else against the device.
    Evaluate { file: usize, line: usize, token: usize, on_parent: bool },
    /// Every line has been walked.
    Done,
}

/// Where the walk stands: the token last asked for, and whether a parent
/// token of its line has matched.
#[derive(Debug, Clone, Copy, PartialEq, Eq, Structural)]
pub struct RulesWalk {
    pub file: usize,
    pub line: usize,
    pub token: usize,
    pub parents_done: bool,
}

/// The action that asks for token `k` of line `i` of file `f`.
pub open spec fn evaluate_at(files: Seq<RuleFile>, f: int, i: int, k: int) -> WalkAction {
    WalkAction::Evaluate {
        file: f as usize,
        line: i as usize,
        token: k as usize,
        on_parent: parent_token(files[f].lines@[i].tokens@[k]),
    }
}

/// The walk on from line `i` of file `f`: the first token of the next
/// line that runs, or the end.
pub open spec fn walk_from(files: Seq<RuleFile>, mask: RuleLineType, f: int, i: int) -> (RulesWalk, WalkAction) {
    match next_running(files, mask, f, i) {
        None => (RulesWalk { file: 0, line: 0, token: 0, parents_done: false }, WalkAction::Done),
        Some((g, j)) => (
            RulesWalk { file: g as usize, line: j as usize, token: 0, parents_done: false },
            evaluate_at(files, g, j, 0),
        ),
    }
}

/// The walk after token `w.token` of its line matched (`matched`) or not:
/// a failed token ends the line; else the next token to evaluate, or, at
/// the end of the line, its `GOTO` target or the line after it.
pub open spec fn walk_after(files: Seq<RuleFile>, mask: RuleLineType, w: RulesWalk, matched: bool) -> (RulesWalk, WalkAction) {
    let l = files[w.file as int].lines@[w.line as int];
    if !matched {
        walk_from(files, mask, w.file as int, w.line + 1)
    } else {
        let done = w.parents_done || parent_token(l.tokens@[w.token as int]);
        let j = first_evaluable(l, w.token + 1, done);
        if j < l.tokens@.len() {
            (
                RulesWalk { file: w.file, line: w.line, token: j as usize, parents_done: done },
                evaluate_at(files, w.file as int, w.line as int, j),
            )
        } else {
            match l.goto_line {
                Some(g) => walk_from(files, mask, w.file as int, g as int),
                None => walk_from(files, mask, w.file as int, w.line + 1),
            }
        }
    }
}

proof fn lemma_first_evaluable(l: RuleLine, from: int, parents_done: bool)
    requires
        0 <= from,
    ensures
        from <= first_evaluable(l, from, parents_done) <= l.tokens@.len() || (from > l.tokens@.len()
            && first_evaluable(l, from, parents_done) == l.tokens@.len()),
        first_evaluable(l, from, parents_done) < l.tokens@.len() ==> evaluable(
            l,
            first_evaluable(l, from, parents_done),
            parents_done,
        ),
        forall|j: int|
            from <= j < first_evaluable(l, from, parents_done) ==> !evaluable(l, j, parents_done),
    decreases l.tokens@.len() - from,
{
    if from < l.tokens@.len() && !evaluable(l, from, parents_done) {
        lemma_first_evaluable(l, from + 1, parents_done);
    }
}

proof fn lemma_next_running(files: Seq<RuleFile>, mask: RuleLineType, f: int, i: int)
    ensures
        next_running(files, mask, f, i) matches Some((g, j)) ==> 0 <= g < files.len() && 0 <= j
            < files[g].lines@.len() && line_runs(files[g].lines@[j], mask) && (f < g || (f == g
            && i <= j)),
    decreases files.len() - f, files[f].lines@.len() - i,
{
    if f < 0 || f >= files.len() || i < 0 {
    } else if i >= files[f].lines@.len() {
        lemma_next_running(files, mask, f + 1, 0);
    } else if !line_runs(files[f].lines@[i], mask) {
        lemma_next_running(files, mask, f, i + 1);
    }
}

impl RulesWalk {
    /// The position names a token of `rules`.
    pub open spec fn valid_for(&self, rules: &Rules) -> bool {
        &&& self.file < rules.files@.len()
        &&& self.line < rules.files@[self.file as int].lines@.len()
        &&& self.token < rules.files@[self.file as int].lines@[self.line as int].tokens@.len()
    }

    /// The first token of `l` from `from` on that is evaluated.
    fn seek(l: &RuleLine, from: usize, parents_done: bool) -> (j: usize)
        requires
            from <= l.tokens@.len(),
        ensures
            j == first_evaluable(*l, from as int, parents_done),
    {
        let mut j = from;
        while j < l.tokens.len() && parents_done && l.tokens[j].is_for_parents()
            invariant
                from <= j <= l.tokens@.len(),
                first_evaluable(*l, j as int, parents_done) == first_evaluable(*l, from as int, parents_done),
            decreases l.tokens@.len() - j,
        {
            j += 1;
        }
        j
    }

    /// The walk from line `i` of file `f` on.
    fn settle(rules: &Rules, mask: &RuleLineType, f: usize, i: usize) -> (r: (RulesWalk, WalkAction))
        ensures
            r == walk_from(rules.files@, *mask, f as int, i as int),
            r.1 is Evaluate ==> r.0.valid_for(rules),
            r.1 matches WalkAction::Evaluate { file, line, .. } ==> next_running(
                rules.files@,
                *mask,
                f as int,
                i as int,
            ) == Some((file as int, line as int)),
    {
        let ghost files = rules.files@;
        proof {
            lemma_next_running(files, *mask, f as int, i as int);
        }
        let mut fc = f;
        let mut ic = i;
        while fc < rules.files.len()
            invariant
                files == rules.files@,
                next_running(files, *mask, fc as int, ic as int) == next_running(files, *mask, f as int, i as int),
            decreases files.len() - fc, files[fc as int].lines@.len() - ic,
        {
            let lines = &rules.files[fc].lines;
            if ic >= lines.len() {
                fc += 1;
                ic = 0;
            } else if line_selected(&lines[ic].line_type, mask) && lines[ic].tokens.len() > 0 {
                let on_parent = lines[ic].tokens[0].is_for_parents();
                assert(next_running(files, *mask, fc as int, ic as int) == Some((fc as int, ic as int)));
                let w = RulesWalk { file: fc, line: ic, token: 0, parents_done: false };
                return (w, WalkAction::Evaluate { file: fc, line: ic, token: 0, on_parent });
            } else {
                ic += 1;
            }
        }
        (RulesWalk { file: 0, line: 0, token: 0, parents_done: false }, WalkAction::Done)
    }

    /// Starts the walk over `rules` for a device whose usable line kinds
    /// are `mask`.
    pub fn start(rules: &Rules, mask: &RuleLineType) -> (r: (RulesWalk, WalkAction))
        ensures
            r == walk_from(rules.files@, *mask, 0, 0),
            r.1 is Evaluate ==> r.0.valid_for(rules),
    {
        RulesWalk::settle(rules, mask, 0, 0)
    }

    /// Goes on after the token last asked for was evaluated: `matched`
    /// says whether it matched.
    pub fn token_done(&self, rules: &Rules, mask: &RuleLineType, matched: bool) -> (r: (RulesWalk, WalkAction))
        requires
            self.valid_for(rules),
        ensures
            r == walk_after(rules.files@, *mask, *self, matched),
            r.1 is Evaluate ==> r.0.valid_for(rules),
            // a token that fails to match ends its line: the walk goes on
            // at a later line
            !matched ==> (r.1 matches WalkAction::Evaluate { file, line, .. } ==> (self.file < file
                || (self.file == file && self.line < line))),
            // once a token against the parent devices has matched, no later
            // such token of the line is evaluated
            matched && parent_token(rules.files@[self.file as int].lines@[self.line as int].tokens@[self.token as int])
                ==> (r.1 matches WalkAction::Evaluate { file, line, token, on_parent } ==> (file == self.file
                && line == self.line && self.token < token ==> !on_parent)),
    {
        let lines = &rules.files[self.file].lines;
        let nl = lines.len();
        let l = &lines[self.line];
        let nt = l.tokens.len();
        assert(self.line < nl && self.token < nt);
        if !matched {
            let r = RulesWalk::settle(rules, mask, self.file, self.line + 1);
            proof {
                lemma_next_running(rules.files@, *mask, self.file as int, self.line + 1);
            }
            return r;
        }
        let done = self.parents_done || l.tokens[self.token].is_for_parents();
        let j = RulesWalk::seek(l, self.token + 1, done);
        proof {
            lemma_first_evaluable(*l, self.token + 1, done);
        }
        if j < l.tokens.len() {
            let on_parent = l.tokens[j].is_for_parents();
            (
                RulesWalk { file: self.file, line: self.line, token: j, parents_done: done },
                WalkAction::Evaluate { file: self.file, line: self.line, token: j, on_parent },
            )
        } else {
            let r = match l.goto_line {
                Some(g) => RulesWalk::settle(rules, mask, self.file, g),
                None => RulesWalk::settle(rules, mask, self.file, self.line + 1),
            };
            proof {
                match l.goto_line {
                    Some(g) => lemma_next_running(rules.files@, *mask, self.file as int, g as int),
                    None => lemma_next_running(rules.files@, *mask, self.file as int, self.line + 1),
                }
            }
            r
        }
    }
}

/// The end of the run of tokens of `l` that match against the parent
/// devices from `from` on: the first token from `from` on that does not,
/// or the number of tokens.
pub open spec fn parent_run_end(l: RuleLine, from: int) -> int
    decreases l.tokens@.len() - from,
{
    if from < 0 || from >= l.tokens@.len() {
        l.tokens@.len() as int
    } else if !parent_token(l.tokens@[from]) {
        from
    } else {
        parent_run_end(l, from + 1)
    }
}

impl RulesWalk {
    /// Where the token asked for matches against the parent devices, the
    /// tokens from it up to this end are evaluated together against each
    /// ancestor in turn, until an ancestor matches all of them.
    pub fn parent_group_end(&self, rules: &Rules) -> (r: usize)
        requires
            self.valid_for(rules),
        ensures
            r == parent_run_end(rules.files@[self.file as int].lines@[self.line as int], self.token as int),
    {
        let l = &rules.files[self.file].lines[self.line];
        let mut j = self.token;
        while j < l.tokens.len() && l.tokens[j].is_for_parents()
            invariant
                self.token <= j <= l.tokens@.len(),
                parent_run_end(*l, j as int) == parent_run_end(*l, self.token as int),
            decreases l.tokens@.len() - j,
        {
            j += 1;
        }
        j
    }
}

/// What `fnmatch_regex::glob_to_regex_pattern` makes of the glob `glob`:
/// the regular expression it stands for; `None` where the glob is
/// malformed.
pub uninterp spec fn glob_pattern_of(glob: Seq<char>) -> Option<Seq<char>>;

/// `fnmatch_regex::glob_to_regex_pattern`: the regular expression that a
/// shell glob stands for. Nothing more of it is stated than that it is the
/// crate's result.
#[verifier::external_body]
fn glob_pattern(glob: &str) -> (r: Option<String>)
    ensures
        match r {
            Some(p) => glob_pattern_of(glob@) == Some(p@),
            None => glob_pattern_of(glob@) is None,
        },
{
    fnmatch_regex::glob_to_regex_pattern(glob).ok()
}

/// The regular expression of glob `g` compiles: it can be tried on the
/// empty text.
pub open spec fn pattern_compiles(p: Seq<char>) -> bool {
    regex_matches(p, Seq::empty()) is Some
}

/// The regular expressions of the alternatives of a token value (the
/// globs between `|`), where each converts and compiles.
pub open spec fn glob_patterns(value: Seq<char>) -> Option<Seq<Seq<char>>> {
    let alts = split_on(value, '|');
    if forall|i: int| 0 <= i < alts.len() ==> (#[trigger] glob_pattern_of(alts[i]) matches Some(p) && pattern_compiles(p)) {
        Some(alts.map_values(|a: Seq<char>| glob_pattern_of(a)->Some_0))
    } else {
        None
    }
}

/// Some of the expressions matches `text`.
pub open spec fn any_matches(patterns: Seq<Seq<char>>, text: Seq<char>) -> bool {
    exists|i: int| 0 <= i < patterns.len() && regex_matches(#[trigger] patterns[i], text) == Some(true)
}

/// Converts each alternative of the token value `value` (the globs
/// between `|`) into a regular expression; `None` where one of them is
/// malformed.
pub fn glob_set(value: &str) -> (r: Option<Vec<String>>)
    ensures
        match r {
            Some(ps) => glob_patterns(value@) == Some(texts(ps@)),
            None => glob_patterns(value@) is None,
        },
{
    let alts = split_char(value, '|');
    let ghost av = alts@.map_values(|p: &str| p@);
    let mut out: Vec<String> = Vec::new();
    let mut i: usize = 0;
    while i < alts.len()
        invariant
            av == alts@.map_values(|p: &str| p@),
            av == split_on(value@, '|'),
            0 <= i <= alts@.len(),
            out@.len() == i,
            forall|k: int| 0 <= k < i ==> (#[trigger] glob_pattern_of(av[k]) matches Some(p) && pattern_compiles(p) && out@[k]@ == p),
        decreases alts@.len() - i,
    {
        assert(av[i as int] == alts@[i as int]@);
        let p = match glob_pattern(alts[i]) {
            Some(p) => p,
            None => {
                assert(!(glob_pattern_of(av[i as int]) matches Some(p) && pattern_compiles(p)));
                return None;
            },
        };
        let probe = regex_is_match(p.as_str(), "");
        proof {
            reveal_strlit("");
            assert(""@ =~= Seq::<char>::empty());
        }
        if probe.is_none() {
            assert(!pattern_compiles(p@));
            return None;
        }
        assert(pattern_compiles(p@));
        let ghost before = out@;
        out.push(p);
        proof {
            assert forall|k: int| 0 <= k < i + 1 implies (#[trigger] glob_pattern_of(av[k]) matches Some(q) && pattern_compiles(q) && out@[k]@ == q) by {
                if k < i {
                    assert(out@[k] == before[k]);
                }
            }
        }
        i += 1;
    }
    assert(texts(out@) =~= av.map_values(|a: Seq<char>| glob_pattern_of(a)->Some_0));
    Some(out)
}

/// Whether one of the expressions matches `text`.
pub fn globs_match(patterns: &Vec<String>, text: &str) -> (r: bool)
    ensures
        r == any_matches(texts(patterns@), text@),
{
    let ghost ps = texts(patterns@);
    let mut i: usize = 0;
    while i < patterns.len()
        invariant
            ps == texts(patterns@),
            0 <= i <= patterns@.len(),
            forall|k: int| 0 <= k < i ==> regex_matches(#[trigger] ps[k], text@) != Some(true),
        decreases patterns@.len() - i,
    {
        if regex_is_match(patterns[i].as_str(), text) == Some(true) {
            assert(regex_matches(ps[i as int], text@) == Some(true));
            return true;
        }
        i += 1;
    }
    false
}

/// A match token with operator `op` and the expressions of its value
/// matches `text`: one of them matches, or, for `!=`, none does.
pub fn pattern_match(op: OperatorType, patterns: &Vec<String>, text: &str) -> (r: bool)
    ensures
        r == ((op == OperatorType::Nomatch) != any_matches(texts(patterns@), text@)),
{
    (op == OperatorType::Nomatch) != globs_match(patterns, text)
}

/// A match token over a list (the device's links or tags): where some
/// item matches one of the expressions, the token matches for `==` (and
/// fails for `!=`); where none does, it matches for `!=` only.
pub fn list_match(op: OperatorType, patterns: &Vec<String>, items: &Vec<String>) -> (r: bool)
    ensures
        r == (if exists|i: int| 0 <= i < items@.len() && any_matches(texts(patterns@), #[trigger] items@[i]@) {
            op == OperatorType::Match
        } else {
            op == OperatorType::Nomatch
        }),
{
    let mut i: usize = 0;
    while i < items.len()
        invariant
            0 <= i <= items@.len(),
            forall|k: int| 0 <= k < i ==> !any_matches(texts(patterns@), #[trigger] items@[k]@),
        decreases items@.len() - i,
    {
        if pattern_match(op, patterns, items[i].as_str()) != (op == OperatorType::Nomatch) {
            return op == OperatorType::Match;
        }
        i += 1;
    }
    op == OperatorType::Nomatch
}

/// `TEST{mode}` on an existing file with permission bits `permissions`:
/// with a mode (read as octal, 0 where it is not), the token matches
/// where the mode shares a bit with the permissions (for `==`) or shares
/// none (for `!=`); without a mode, it matches for `==`.
pub fn test_mode_match(op: OperatorType, attr: Option<&str>, permissions: u32) -> (r: bool)
    ensures
        r == match attr {
            Some(a) => {
                let mode: u32 = match octal_u32_of(a@) {
                    Some(m) => m as u32,
                    None => 0,
                };
                ((mode & permissions) > 0) != (op == OperatorType::Nomatch)
            },
            None => op == OperatorType::Match,
        },
{
    match attr {
        Some(a) => {
            let mode: u32 = match parse_octal_u32(a) {
                Some(m) => m,
                None => 0,
            };
            ((mode & permissions) > 0) != (op == OperatorType::Nomatch)
        },
        None => op == OperatorType::Match,
    }
}

/// The positions of the parent's properties that `IMPORT{parent}` with
/// the formatted value `value` copies: those whose key one of the value's
/// globs matches; `None` where a glob is malformed.
pub fn import_parent_keys(value: &str, keys: &Vec<String>) -> (r: Option<Vec<usize>>)
    ensures
        match r {
            None => glob_patterns(value@) is None,
            Some(idx) => glob_patterns(value@) matches Some(ps) && (forall|k: int|
                0 <= k < idx@.len() ==> #[trigger] idx@[k] < keys@.len() && any_matches(ps, keys@[idx@[k] as int]@))
                && (forall|j: int| 0 <= j < keys@.len() && any_matches(ps, keys@[j]@) ==> idx@.contains(j as usize))
                && (forall|a: int, b: int| 0 <= a < b < idx@.len() ==> idx@[a] < idx@[b]),
        },
{
    let ps = match glob_set(value) {
        Some(ps) => ps,
        None => return None,
    };
    let mut idx: Vec<usize> = Vec::new();
    let mut j: usize = 0;
    while j < keys.len()
        invariant
            glob_patterns(value@) == Some(texts(ps@)),
            0 <= j <= keys@.len(),
            forall|k: int| 0 <= k < idx@.len() ==> #[trigger] idx@[k] < j && any_matches(texts(ps@), keys@[idx@[k] as int]@),
            forall|m: int| 0 <= m < j && any_matches(texts(ps@), keys@[m]@) ==> idx@.contains(m as usize),
            forall|a: int, b: int| 0 <= a < b < idx@.len() ==> idx@[a] < idx@[b],
        decreases keys@.len() - j,
    {
        if globs_match(&ps, keys[j].as_str()) {
            let ghost before = idx@;
            idx.push(j);
            proof {
                assert(idx@[idx@.len() - 1] == j);
                assert forall|m: int| 0 <= m < j + 1 && any_matches(texts(ps@), keys@[m]@) implies idx@.contains(m as usize) by {
                    if m < j {
                        assert(before.contains(m as usize));
                        let q = choose|q: int| 0 <= q < before.len() && before[q] == m as usize;
                        assert(idx@[q] == m as usize);
                    } else {
                        assert(idx@[idx@.len() - 1] == m as usize);
                    }
                }
            }
        }
        j += 1;
    }
    Some(idx)
}


/// Law: the lines that run for an event are those that jump or update
/// something, those that change the device node where the device has a
/// device number, and those that rename where it has an interface index;
/// for a removal only the first kind runs.
pub proof fn law_mask_selects(line: RuleLineType, remove: bool, has_devnum: bool, has_ifindex: bool)
    ensures
        intersects(line, mask_of(remove, has_devnum, has_ifindex)) == (line.has_goto || line.update_something
            || (!remove && has_devnum && line.has_devlink) || (!remove && has_ifindex && line.has_name)),
        mask_of(remove, has_devnum, has_ifindex).has_name == (!remove && has_ifindex),
        mask_of(remove, has_devnum, has_ifindex).has_devlink == (!remove && has_devnum),
        mask_of(remove, has_devnum, has_ifindex).has_goto,
        mask_of(remove, has_devnum, has_ifindex).update_something,
        !mask_of(remove, has_devnum, has_ifindex).has_label,
        !mask_of(remove, has_devnum, has_ifindex).has_static_node,
{
}

} // verus!
