//! Runtime formatting of rule values. A value holds `$name{attr}` or
//! `%c{attr}` formatters, which stand for properties of the device; `$$`
//! and `%%` stand for `$` and `%`. Reading a formatter's value needs the
//! device, so formatting is done in two steps: the value is cut into
//! literal characters and formatters, and, once the device has given a
//! text for each formatter, the pieces are put together.
//! Positions in a value count characters; characters beyond ASCII stand
//! for themselves.

use vstd::prelude::*;
use vstd::string::StringSliceAdditionalSpecFns;
use crate::rules::FormatSubstitutionType;
use crate::text::{
    chars_of, find_char, is_unicode_ws, len_before, parse_int, parse_int_range, split_char, split_on,
    str_eq, string_extend, string_from_range, string_of, string_push, trim_bounds, trim_end_ws, trim_ws,
    has_prefix_at, is_prefix, unicode_ws,
    alphanumeric, is_alphanumeric,
};
use crate::utils::commons::{
    ifname_of, replace_chars, replace_from, replace_ifname, DEVMASTER_LEGAL_CHARS,
};
use crate::rules::{EscapeType, OperatorType};
use crate::rules::rules_load::{mode_of, parse_mode};

verus! {

broadcast use vstd::utf8::encode_utf8_valid_utf8, vstd::utf8::encode_utf8_decode_utf8;

/// Why a formatter cannot be read.
#[derive(Debug, Clone, Copy, PartialEq, Eq, Structural)]
pub enum SubstError {
    /// the position lies at or after the end of the value
    OutOfRange,
    /// a `$` or `%` that starts no known formatter (strict reading only)
    Invalid,
    /// an attribute whose closing brace is missing
    Unclosed,
}

/// The formatters: long name, short name and kind, in the order in which
/// they are tried.
pub open spec fn subst_table() -> Seq<(Seq<char>, char, FormatSubstitutionType)> {
    seq![
        ("devnode"@, 'N', FormatSubstitutionType::Devnode),
        ("tempnode"@, 'N', FormatSubstitutionType::Devnode),
        ("attr"@, 's', FormatSubstitutionType::Attr),
        ("sysfs"@, 's', FormatSubstitutionType::Attr),
        ("env"@, 'E', FormatSubstitutionType::Env),
        ("kernel"@, 'k', FormatSubstitutionType::Kernel),
        ("number"@, 'n', FormatSubstitutionType::KernelNumber),
        ("driver"@, 'd', FormatSubstitutionType::Driver),
        ("devpath"@, 'p', FormatSubstitutionType::Devpath),
        ("id"@, 'b', FormatSubstitutionType::Id),
        ("major"@, 'M', FormatSubstitutionType::Major),
        ("minor"@, 'm', FormatSubstitutionType::Minor),
        ("result"@, 'c', FormatSubstitutionType::Result),
        ("parent"@, 'P', FormatSubstitutionType::Parent),
        ("name"@, 'D', FormatSubstitutionType::Name),
        ("links"@, 'L', FormatSubstitutionType::Links),
        ("root"@, 'r', FormatSubstitutionType::Root),
        ("sys"@, 'S', FormatSubstitutionType::Sys),
    ]
}

/// Character `i` of `cs`, if there is one.
pub open spec fn nth_char(cs: Seq<char>, i: int) -> Option<char> {
    if 0 <= i < cs.len() {
        Some(cs[i])
    } else {
        None
    }
}

/// The characters `cs` hold `name` at position `at`.
pub open spec fn chars_start_with(cs: Seq<char>, at: int, name: Seq<char>) -> bool {
    &&& 0 <= at
    &&& at + name.len() <= cs.len()
    &&& forall|j: int| 0 <= j < name.len() ==> cs[at + j] == name[j]
}

/// The first formatter, from entry `k` of the table on, whose long name
/// (`long`) or short name the characters at `at` begin with: the length
/// of that name and the formatter's kind.
pub open spec fn table_match(cs: Seq<char>, at: int, long: bool, k: int) -> Option<(int, FormatSubstitutionType)>
    decreases subst_table().len() - k,
{
    if k < 0 || k >= subst_table().len() {
        None
    } else {
        let e = subst_table()[k];
        let name = if long { e.0 } else { seq![e.1] };
        if chars_start_with(cs, at, name) {
            Some((name.len() as int, e.2))
        } else {
            table_match(cs, at, long, k + 1)
        }
    }
}

/// First position at or after `from` that holds `c`.
pub open spec fn find_from(cs: Seq<char>, from: int, c: char) -> Option<int>
    decreases cs.len() - from,
{
    if from < 0 || from >= cs.len() {
        None
    } else if cs[from] == c {
        Some(from)
    } else {
        find_from(cs, from + 1, c)
    }
}

pub proof fn lemma_find_from(cs: Seq<char>, from: int, c: char)
    ensures
        find_from(cs, from, c) matches Some(p) ==> 0 <= from <= p < cs.len() && cs[p] == c,
    decreases cs.len() - from,
{
    if 0 <= from < cs.len() && cs[from] != c {
        lemma_find_from(cs, from + 1, c);
    }
}

/// What reading a formatter at position `idx` of the value `cs` gives:
/// the formatter and its attribute, `None` where no formatter starts
/// there, or an error; and the position after it.
pub open spec fn subst_at(cs: Seq<char>, idx: int, strict: bool) -> (Result<
    Option<(FormatSubstitutionType, Option<Seq<char>>)>,
    SubstError,
>, int) {
    if idx < 0 || idx >= cs.len() {
        (Err(SubstError::OutOfRange), idx)
    } else if cs[idx] != '$' && cs[idx] != '%' {
        (Ok(None), idx)
    } else if nth_char(cs, idx + 1) == Some(cs[idx]) {
        (Ok(None), idx + 1)
    } else {
        let i1 = idx + 1;
        match table_match(cs, i1, cs[idx] == '$', 0) {
            None => if strict {
                (Err(SubstError::Invalid), idx)
            } else {
                (Ok(None), idx)
            },
            Some((n, t)) => {
                let i2 = i1 + n;
                if nth_char(cs, i2) == Some('{') {
                    match find_from(cs, i2 + 1, '}') {
                        None => (Err(SubstError::Unclosed), idx),
                        Some(right) => (Ok(Some((t, Some(cs.subrange(i2 + 1, right))))), right + 1),
                    }
                } else {
                    (Ok(Some((t, None))), i2)
                }
            },
        }
    }
}

pub proof fn lemma_table_match(cs: Seq<char>, at: int, long: bool, k: int)
    ensures
        table_match(cs, at, long, k) matches Some((n, t)) ==> 1 <= n && at + n <= cs.len()
            && t != FormatSubstitutionType::Invalid,
    decreases subst_table().len() - k,
{
    reveal_with_fuel(table_match, 2);
    if 0 <= k < subst_table().len() {
        let e = subst_table()[k];
        let name = if long { e.0 } else { seq![e.1] };
        assert(name.len() >= 1) by {
            reveal_strlit("devnode");
            reveal_strlit("tempnode");
            reveal_strlit("attr");
            reveal_strlit("sysfs");
            reveal_strlit("env");
            reveal_strlit("kernel");
            reveal_strlit("number");
            reveal_strlit("driver");
            reveal_strlit("devpath");
            reveal_strlit("id");
            reveal_strlit("major");
            reveal_strlit("minor");
            reveal_strlit("result");
            reveal_strlit("parent");
            reveal_strlit("name");
            reveal_strlit("links");
            reveal_strlit("root");
            reveal_strlit("sys");
        }
        if !chars_start_with(cs, at, name) {
            lemma_table_match(cs, at, long, k + 1);
        }
    }
}

/// Reading a formatter moves on: past it where one is found, and never
/// back; where none is found, it stays on a character of the value.
pub proof fn lemma_subst_at_moves(cs: Seq<char>, idx: int, strict: bool)
    requires
        0 <= idx,
    ensures
        subst_at(cs, idx, strict).1 >= idx,
        idx < cs.len() ==> subst_at(cs, idx, strict).1 <= cs.len(),
        subst_at(cs, idx, strict).0 matches Ok(Some(_)) ==> subst_at(cs, idx, strict).1 > idx,
        (idx < cs.len() && subst_at(cs, idx, strict).0 == Ok::<Option<(FormatSubstitutionType, Option<Seq<char>>)>, SubstError>(None)) ==> subst_at(cs, idx, strict).1 < cs.len(),
{
    if idx < cs.len() {
        lemma_table_match(cs, idx + 1, cs[idx] == '$', 0);
        match table_match(cs, idx + 1, cs[idx] == '$', 0) {
            Some((n, t)) => lemma_find_from(cs, idx + 1 + n + 1, '}'),
            None => {},
        }
    }
}

/// Entry `k` of the table.
fn table_entry(k: usize) -> (r: (&'static str, char, FormatSubstitutionType))
    requires
        k < 18,
    ensures
        r.0@ == subst_table()[k as int].0,
        r.1 == subst_table()[k as int].1,
        r.2 == subst_table()[k as int].2,
{
    match k {
        0 => ("devnode", 'N', FormatSubstitutionType::Devnode),
        1 => ("tempnode", 'N', FormatSubstitutionType::Devnode),
        2 => ("attr", 's', FormatSubstitutionType::Attr),
        3 => ("sysfs", 's', FormatSubstitutionType::Attr),
        4 => ("env", 'E', FormatSubstitutionType::Env),
        5 => ("kernel", 'k', FormatSubstitutionType::Kernel),
        6 => ("number", 'n', FormatSubstitutionType::KernelNumber),
        7 => ("driver", 'd', FormatSubstitutionType::Driver),
        8 => ("devpath", 'p', FormatSubstitutionType::Devpath),
        9 => ("id", 'b', FormatSubstitutionType::Id),
        10 => ("major", 'M', FormatSubstitutionType::Major),
        11 => ("minor", 'm', FormatSubstitutionType::Minor),
        12 => ("result", 'c', FormatSubstitutionType::Result),
        13 => ("parent", 'P', FormatSubstitutionType::Parent),
        14 => ("name", 'D', FormatSubstitutionType::Name),
        15 => ("links", 'L', FormatSubstitutionType::Links),
        16 => ("root", 'r', FormatSubstitutionType::Root),
        _ => ("sys", 'S', FormatSubstitutionType::Sys),
    }
}

/// The characters `cs` hold `name` at position `at`.
fn starts_with_at(cs: &Vec<char>, at: usize, name: &Vec<char>) -> (r: bool)
    ensures
        r == chars_start_with(cs@, at as int, name@),
{
    if at > cs.len() || name.len() > cs.len() - at {
        return false;
    }
    let mut j: usize = 0;
    while j < name.len()
        invariant
            at + name@.len() <= cs@.len(),
            cs@.len() <= usize::MAX,
            0 <= j <= name@.len(),
            forall|q: int| 0 <= q < j ==> cs@[at + q] == name@[q],
        decreases name@.len() - j,
    {
        if cs[at + j] != name[j] {
            return false;
        }
        j += 1;
    }
    true
}

/// The first formatter whose name the characters at `at` begin with.
fn find_in_table(cs: &Vec<char>, at: usize, long: bool) -> (r: Option<(usize, FormatSubstitutionType)>)
    ensures
        match r {
            Some((n, t)) => table_match(cs@, at as int, long, 0) == Some((n as int, t)),
            None => table_match(cs@, at as int, long, 0) is None,
        },
{
    let mut k: usize = 0;
    while k < 18
        invariant
            0 <= k <= 18,
            subst_table().len() == 18,
            table_match(cs@, at as int, long, k as int) == table_match(cs@, at as int, long, 0),
        decreases 18 - k,
    {
        let (l, s, t) = table_entry(k);
        let name: Vec<char> = if long {
            chars_of(l)
        } else {
            let mut v: Vec<char> = Vec::new();
            v.push(s);
            v
        };
        proof {
            let e = subst_table()[k as int];
            let spec_name = if long { e.0 } else { seq![e.1] };
            assert(name@ =~= spec_name);
        }
        if starts_with_at(cs, at, &name) {
            return Some((name.len(), t));
        }
        k += 1;
    }
    None
}

/// The view of what reading a formatter gives.
pub open spec fn read_view(r: Result<Option<(FormatSubstitutionType, Option<String>)>, SubstError>) -> Result<
    Option<(FormatSubstitutionType, Option<Seq<char>>)>,
    SubstError,
> {
    match r {
        Ok(Some((t, Some(a)))) => Ok(Some((t, Some(a@)))),
        Ok(Some((t, None))) => Ok(Some((t, None))),
        Ok(None) => Ok(None),
        Err(e) => Err(e),
    }
}

/// Reads the formatter at position `idx` of `cs` (see [`subst_at`]).
fn read_subst(cs: &Vec<char>, idx: usize, strict: bool) -> (r: (
    Result<Option<(FormatSubstitutionType, Option<String>)>, SubstError>,
    usize,
))
    ensures
        (read_view(r.0), r.1 as int) == subst_at(cs@, idx as int, strict),
{
    if idx >= cs.len() {
        return (Err(SubstError::OutOfRange), idx);
    }
    let c = cs[idx];
    if c != '$' && c != '%' {
        return (Ok(None), idx);
    }
    if idx + 1 < cs.len() && cs[idx + 1] == c {
        return (Ok(None), idx + 1);
    }
    let i1 = idx + 1;
    let (n, t) = match find_in_table(cs, i1, c == '$') {
        None => {
            if strict {
                return (Err(SubstError::Invalid), idx);
            } else {
                return (Ok(None), idx);
            }
        },
        Some(p) => p,
    };
    proof {
        lemma_table_match(cs@, i1 as int, c == '$', 0);
    }
    let i2 = i1 + n;
    if !(i2 < cs.len() && cs[i2] == '{') {
        return (Ok(Some((t, None))), i2);
    }
    let left = i2 + 1;
    let right = find_char(cs, left, '}');
    proof {
        lemma_find_char_from(cs@, left as int, right as int, '}');
    }
    if right == cs.len() {
        return (Err(SubstError::Unclosed), idx);
    }
    let attr = string_from_range(cs, left, right);
    (Ok(Some((t, Some(attr)))), right + 1)
}

/// `find_char`'s answer is the first position of `c` from `from` on.
proof fn lemma_find_char_from(cs: Seq<char>, from: int, r: int, c: char)
    requires
        0 <= from <= r <= cs.len(),
        forall|k: int| from <= k < r ==> cs[k] != c,
        r < cs.len() ==> cs[r] == c,
    ensures
        find_from(cs, from, c) == (if r < cs.len() { Some(r) } else { None::<int> }),
    decreases r - from,
{
    if from < r {
        lemma_find_char_from(cs, from + 1, r, c);
    }
}

/// Reads the formatter at character position `*idx` of `s`. `$$` and
/// `%%` are no formatter; they move `*idx` onto the second character. An
/// unknown `$` or `%` is an error where `strict` holds, else no
/// formatter. A formatter followed by `{` takes the text up to the next
/// `}` as its attribute. On a formatter, `*idx` moves past it.
pub fn get_subst_type(s: &str, idx: &mut usize, strict: bool) -> (r: Result<
    Option<(FormatSubstitutionType, Option<String>)>,
    SubstError,
>)
    ensures
        (read_view(r), *final(idx) as int) == subst_at(s@, *old(idx) as int, strict),
{
    let cs = chars_of(s);
    let (r, j) = read_subst(&cs, *idx, strict);
    *idx = j;
    r
}

/// A piece of a value cut for formatting: a literal character, or a
/// formatter with its attribute.
#[derive(Debug, Clone)]
pub enum FormatPiece {
    Text(char),
    Subst(FormatSubstitutionType, Option<String>),
}

/// The view of a piece.
pub enum PieceView {
    Text(char),
    Subst(FormatSubstitutionType, Option<Seq<char>>),
}

/// The view of a piece.
pub open spec fn piece_view(p: FormatPiece) -> PieceView {
    match p {
        FormatPiece::Text(c) => PieceView::Text(c),
        FormatPiece::Subst(t, None) => PieceView::Subst(t, None),
        FormatPiece::Subst(t, Some(a)) => PieceView::Subst(t, Some(a@)),
    }
}

/// The views of pieces.
pub open spec fn pieces_view(ps: Seq<FormatPiece>) -> Seq<PieceView> {
    ps.map_values(|p: FormatPiece| piece_view(p))
}

/// The value `cs` from position `idx` on, cut into pieces: the pieces up
/// to the first formatter that cannot be read, and that formatter's
/// error.
pub open spec fn format_walk(cs: Seq<char>, idx: int) -> (Seq<PieceView>, Option<SubstError>)
    decreases cs.len() - idx,
{
    if idx < 0 || idx >= cs.len() {
        (Seq::empty(), None)
    } else {
        let sa = subst_at(cs, idx, false);
        let j = sa.1;
        proof {
            lemma_subst_at_moves(cs, idx, false);
        }
        match sa.0 {
            Err(e) => (Seq::empty(), Some(e)),
            Ok(Some((t, a))) => {
                let (ps, e) = format_walk(cs, j);
                (seq![PieceView::Subst(t, a)] + ps, e)
            },
            Ok(None) => {
                let (ps, e) = format_walk(cs, j + 1);
                (seq![PieceView::Text(cs[j])] + ps, e)
            },
        }
    }
}

/// A value cut into pieces, with the error that stopped the cut, if any.
#[derive(Debug)]
pub struct FormatPlan {
    pub pieces: Vec<FormatPiece>,
    pub error: Option<SubstError>,
}

/// Cuts one piece off `cs` at position `idx`: the piece and the position
/// after it, or the error that stops the cut.
fn plan_step(cs: &Vec<char>, idx: usize) -> (r: Result<(FormatPiece, usize), SubstError>)
    requires
        idx < cs@.len(),
    ensures
        match r {
            Err(e) => format_walk(cs@, idx as int) == (Seq::<PieceView>::empty(), Some(e)),
            Ok((p, j)) => idx < j <= cs@.len() && format_walk(cs@, idx as int)
                == (seq![piece_view(p)] + format_walk(cs@, j as int).0, format_walk(cs@, j as int).1),
        },
{
    proof {
        lemma_subst_at_moves(cs@, idx as int, false);
    }
    let (read, i) = read_subst(cs, idx, false);
    match read {
        Err(e) => Err(e),
        Ok(Some((t, a))) => {
            let p = FormatPiece::Subst(t, a);
            assert(piece_view(p) == PieceView::Subst(t, subst_at(cs@, idx as int, false).0->Ok_0->Some_0.1));
            Ok((p, i))
        },
        Ok(None) => {
            let n = cs.len();
            assert(i < n);
            Ok((FormatPiece::Text(cs[i]), i + 1))
        },
    }
}

/// Cuts `src` into literal characters and formatters, as formatting reads
/// it.
pub fn format_plan(src: &str) -> (r: FormatPlan)
    ensures
        format_walk(src@, 0) == (pieces_view(r.pieces@), r.error),
{
    let cs = chars_of(src);
    let mut pieces: Vec<FormatPiece> = Vec::new();
    let mut idx: usize = 0;
    while idx < cs.len()
        invariant
            cs@ == src@,
            idx <= cs@.len(),
            format_walk(cs@, 0) == (pieces_view(pieces@) + format_walk(cs@, idx as int).0, format_walk(cs@, idx as int).1),
        decreases cs@.len() - idx,
    {
        let ghost before = pieces@;
        match plan_step(&cs, idx) {
            Err(e) => {
                assert(pieces_view(pieces@) + Seq::<PieceView>::empty() =~= pieces_view(pieces@));
                return FormatPlan { pieces, error: Some(e) };
            },
            Ok((p, j)) => {
                let ghost pv = piece_view(p);
                pieces.push(p);
                proof {
                    assert(pieces_view(pieces@) =~= pieces_view(before).push(pv));
                    let rest = format_walk(cs@, j as int).0;
                    assert(pieces_view(before) + (seq![pv] + rest) =~= pieces_view(pieces@) + rest);
                }
                idx = j;
            },
        }
    }
    assert(pieces_view(pieces@) + Seq::<PieceView>::empty() =~= pieces_view(pieces@));
    FormatPlan { pieces, error: None }
}

/// The number of formatters among the pieces.
pub open spec fn subst_count(ps: Seq<PieceView>) -> nat
    decreases ps.len(),
{
    if ps.len() == 0 {
        0
    } else {
        subst_count(ps.drop_last()) + (if ps.last() is Subst { 1nat } else { 0nat })
    }
}

/// `v` with each space written as `_` where `replace` holds.
pub open spec fn spaces_replaced(v: Seq<char>, replace: bool) -> Seq<char> {
    if replace {
        v.map_values(|c: char| if c == ' ' { '_' } else { c })
    } else {
        v
    }
}

/// The pieces put together, the k-th formatter standing for `values[k]`.
pub open spec fn rendered(ps: Seq<PieceView>, values: Seq<Seq<char>>, replace: bool) -> Seq<char>
    decreases ps.len(),
{
    if ps.len() == 0 {
        Seq::empty()
    } else {
        match ps.last() {
            PieceView::Text(c) => rendered(ps.drop_last(), values, replace).push(c),
            PieceView::Subst(..) => rendered(ps.drop_last(), values.drop_last(), replace) + spaces_replaced(values.last(), replace),
        }
    }
}

/// Puts the pieces of a value together: each literal character as it
/// stands, the k-th formatter as `values[k]`, with its spaces written as
/// `_` where `replace_whitespace` holds.
pub fn render_format(pieces: &Vec<FormatPiece>, values: &Vec<String>, replace_whitespace: bool) -> (r: String)
    requires
        values@.len() == subst_count(pieces_view(pieces@)),
    ensures
        r@ == rendered(pieces_view(pieces@), values@.map_values(|v: String| v@), replace_whitespace),
{
    let ghost ps = pieces_view(pieces@);
    let ghost vs = values@.map_values(|v: String| v@);
    let mut out = String::new();
    let nv = values.len();
    let mut i: usize = 0;
    let mut k: usize = 0;
    while i < pieces.len()
        invariant
            nv == values@.len(),
            ps == pieces_view(pieces@),
            vs == values@.map_values(|v: String| v@),
            values@.len() == subst_count(ps),
            0 <= i <= pieces@.len(),
            k == subst_count(ps.subrange(0, i as int)),
            k <= values@.len(),
            out@ == rendered(ps.subrange(0, i as int), vs.subrange(0, k as int), replace_whitespace),
        decreases pieces@.len() - i,
    {
        proof {
            lemma_subst_count_prefix(ps, i as int);
            lemma_subst_count_prefix(ps, i + 1);
        }
        let ghost pre = ps.subrange(0, i as int + 1);
        assert(pre.drop_last() =~= ps.subrange(0, i as int));
        match &pieces[i] {
            FormatPiece::Text(c) => {
                string_push(&mut out, *c);
            },
            FormatPiece::Subst(_, _) => {
                let v = chars_of(values[k].as_str());
                let mut j: usize = 0;
                let ghost base = out@;
                while j < v.len()
                    invariant
                        0 <= j <= v@.len(),
                        out@ == base + spaces_replaced(v@.subrange(0, j as int), replace_whitespace),
                    decreases v@.len() - j,
                {
                    let c = if replace_whitespace && v[j] == ' ' { '_' } else { v[j] };
                    string_push(&mut out, c);
                    j += 1;
                    assert(spaces_replaced(v@.subrange(0, j as int), replace_whitespace)
                        =~= spaces_replaced(v@.subrange(0, j - 1), replace_whitespace).push(c));
                }
                assert(v@.subrange(0, v@.len() as int) =~= v@);
                assert(vs.subrange(0, k + 1).drop_last() =~= vs.subrange(0, k as int));
                k += 1;
            },
        }
        i += 1;
    }
    proof {
        lemma_subst_count_prefix(ps, ps.len() as int);
        assert(ps.subrange(0, ps.len() as int) =~= ps);
        assert(vs.subrange(0, vs.len() as int) =~= vs);
    }
    out
}

proof fn lemma_subst_count_prefix(ps: Seq<PieceView>, i: int)
    requires
        0 <= i <= ps.len(),
    ensures
        subst_count(ps.subrange(0, i)) <= subst_count(ps),
        i < ps.len() ==> subst_count(ps.subrange(0, i + 1)) == subst_count(ps.subrange(0, i)) + (if ps[i] is Subst { 1nat } else { 0nat }),
    decreases ps.len() - i,
{
    if i < ps.len() {
        assert(ps.subrange(0, i + 1).drop_last() =~= ps.subrange(0, i));
        lemma_subst_count_prefix(ps, i + 1);
    } else {
        assert(ps.subrange(0, i) =~= ps);
    }
}

/// A value read from the device or a program: without trailing
/// whitespace, and with the characters that may not stand in a device
/// node name replaced.
pub fn sanitize_value(output: &str) -> (r: String)
    ensures
        r@ == replace_from(trim_end_ws(output@), DEVMASTER_LEGAL_CHARS@, 0),
{
    let v = chars_of(output);
    let mut end = v.len();
    assert(v@.subrange(0, end as int) =~= v@);
    while end > 0 && is_unicode_ws(v[end - 1])
        invariant
            v@ == output@,
            0 <= end <= v@.len(),
            trim_end_ws(output@) == trim_end_ws(v@.subrange(0, end as int)),
        decreases end,
    {
        assert(v@.subrange(0, end as int).drop_last() =~= v@.subrange(0, end - 1));
        end -= 1;
    }
    let t = string_from_range(&v, 0, end);
    replace_chars(t.as_str(), DEVMASTER_LEGAL_CHARS)
}

/// Why a rule token cannot be applied to the unit.
#[derive(Debug, Clone, Copy, PartialEq, Eq, Structural)]
pub enum ExecuteError {
    /// the token's value is not a number of the expected range
    ParseInt,
    /// the token's value is neither `true` nor `false`
    ParseBool,
    /// an `attr` or `env` formatter without an attribute
    MissingAttribute,
    /// a formatter of no known kind
    InvalidFormatter,
    /// a formatter that cannot be read from the value
    BadFormatter(SubstError),
    /// a glob of the token's value is malformed
    InvalidPattern,
}

/// The state that applying the rules to one device builds up, besides
/// the device itself: the interface name and program result, the node's
/// owner, group and mode, the builtins run so far and which of them
/// failed, the string escape mode, the inotify watch flag, which values
/// were assigned with `:=` (and are so fixed), and the commands to run.
#[derive(Debug)]
pub struct ExecuteUnitData {
    pub name: String,
    pub program_result: String,
    pub mode: Option<u32>,
    pub uid: Option<u32>,
    pub gid: Option<u32>,
    /// bit `i` set: builtin `i` has run
    pub builtin_run: u32,
    /// bit `i` set: builtin `i` failed or returned false
    pub builtin_ret: u32,
    pub escape_type: EscapeType,
    pub watch: bool,
    pub watch_final: bool,
    pub group_final: bool,
    pub owner_final: bool,
    pub mode_final: bool,
    pub name_final: bool,
    pub devlink_final: bool,
    pub run_final: bool,
    pub builtin_run_list: Vec<String>,
    pub program_run_list: Vec<String>,
}

/// The value is what `str::parse::<bool>` accepts.
pub open spec fn bool_of(s: Seq<char>) -> Option<bool> {
    if s == "true"@ {
        Some(true)
    } else if s == "false"@ {
        Some(false)
    } else {
        None
    }
}

/// Parses a uid or gid as `str::parse::<u32>` does.
fn parse_id(value: &str) -> (r: Option<u32>)
    ensures
        match r {
            Some(u) => parse_int(value@, 0, u32::MAX as int, false) == Some(u as int),
            None => parse_int(value@, 0, u32::MAX as int, false) is None,
        },
{
    let v = chars_of(value);
    match parse_int_range(&v, 0, v.len(), 0, 0xffff_ffff, false) {
        Some(n) => {
            assert(v@.subrange(0, v@.len() as int) =~= v@);
            Some(n as u32)
        },
        None => {
            assert(v@.subrange(0, v@.len() as int) =~= v@);
            None
        },
    }
}

/// The priority that `OPTIONS="link_priority=N"` gives the device's
/// links: the value as an `i32`.
pub fn devlink_priority(value: &str) -> (r: Result<i32, ExecuteError>)
    ensures
        match parse_int(value@, i32::MIN as int, i32::MAX as int, true) {
            Some(n) => r == Ok::<i32, ExecuteError>(n as i32),
            None => r == Err::<i32, ExecuteError>(ExecuteError::ParseInt),
        },
{
    let v = chars_of(value);
    assert(v@.subrange(0, v@.len() as int) =~= v@);
    match parse_int_range(&v, 0, v.len(), i32::MIN as i128, i32::MAX as i128, true) {
        Some(n) => Ok(n as i32),
        None => Err(ExecuteError::ParseInt),
    }
}

impl ExecuteUnitData {
    /// The state before any rule is applied.
    pub fn new() -> (r: ExecuteUnitData)
        ensures
            r.name@.len() == 0,
            r.program_result@.len() == 0,
            r.mode is None && r.uid is None && r.gid is None,
            r.builtin_run == 0 && r.builtin_ret == 0,
            r.escape_type == EscapeType::Unset,
            !r.watch && !r.watch_final && !r.group_final && !r.owner_final && !r.mode_final,
            !r.name_final && !r.devlink_final && !r.run_final,
            r.builtin_run_list@.len() == 0 && r.program_run_list@.len() == 0,
    {
        ExecuteUnitData {
            name: String::new(),
            program_result: String::new(),
            mode: None,
            uid: None,
            gid: None,
            builtin_run: 0,
            builtin_ret: 0,
            escape_type: EscapeType::Unset,
            watch: false,
            watch_final: false,
            group_final: false,
            owner_final: false,
            mode_final: false,
            name_final: false,
            devlink_final: false,
            run_final: false,
            builtin_run_list: Vec::new(),
            program_run_list: Vec::new(),
        }
    }

    /// `OPTIONS="string_escape=none|replace"`: sets the escape mode.
    pub fn set_escape_type(&mut self, escape_type: EscapeType)
        ensures
            *final(self) == (ExecuteUnitData { escape_type, ..*old(self) }),
    {
        self.escape_type = escape_type;
    }

    /// `OWNER`: where the owner is not fixed, `:=` fixes it, and `uid`, the
    /// user that the formatted value names (`None` where formatting or the
    /// lookup failed), becomes the owner.
    pub fn apply_owner(&mut self, op: OperatorType, uid: Option<u32>)
        ensures
            *final(self) == if old(self).owner_final {
                *old(self)
            } else {
                ExecuteUnitData {
                    owner_final: op == OperatorType::AssignFinal,
                    uid: if uid is Some { uid } else { old(self).uid },
                    ..*old(self)
                }
            },
    {
        if self.owner_final {
            return;
        }
        if op == OperatorType::AssignFinal {
            self.owner_final = true;
        }
        if uid.is_some() {
            self.uid = uid;
        }
    }

    /// `OWNER` with a numeric value resolved while loading: where the
    /// owner is not fixed, `:=` fixes it and the value, a uid, becomes the
    /// owner; a value that is no uid is an error.
    pub fn apply_owner_id(&mut self, op: OperatorType, value: &str) -> (r: Result<(), ExecuteError>)
        ensures
            old(self).owner_final ==> r is Ok && *final(self) == *old(self),
            !old(self).owner_final ==> match parse_int(value@, 0, u32::MAX as int, false) {
                Some(u) => r is Ok && *final(self) == (ExecuteUnitData {
                    owner_final: op == OperatorType::AssignFinal,
                    uid: Some(u as u32),
                    ..*old(self)
                }),
                None => r == Err::<(), ExecuteError>(ExecuteError::ParseInt) && *final(self) == (
                ExecuteUnitData { owner_final: op == OperatorType::AssignFinal, ..*old(self) }),
            },
    {
        if self.owner_final {
            return Ok(());
        }
        if op == OperatorType::AssignFinal {
            self.owner_final = true;
        }
        match parse_id(value) {
            Some(u) => {
                self.uid = Some(u);
                Ok(())
            },
            None => Err(ExecuteError::ParseInt),
        }
    }

    /// `GROUP`: as [`ExecuteUnitData::apply_owner`], for the group.
    pub fn apply_group(&mut self, op: OperatorType, gid: Option<u32>)
        ensures
            *final(self) == if old(self).group_final {
                *old(self)
            } else {
                ExecuteUnitData {
                    group_final: op == OperatorType::AssignFinal,
                    gid: if gid is Some { gid } else { old(self).gid },
                    ..*old(self)
                }
            },
    {
        if self.group_final {
            return;
        }
        if op == OperatorType::AssignFinal {
            self.group_final = true;
        }
        if gid.is_some() {
            self.gid = gid;
        }
    }

    /// `GROUP` with a numeric value: as [`ExecuteUnitData::apply_owner_id`],
    /// for the group.
    pub fn apply_group_id(&mut self, op: OperatorType, value: &str) -> (r: Result<(), ExecuteError>)
        ensures
            old(self).group_final ==> r is Ok && *final(self) == *old(self),
            !old(self).group_final ==> match parse_int(value@, 0, u32::MAX as int, false) {
                Some(g) => r is Ok && *final(self) == (ExecuteUnitData {
                    group_final: op == OperatorType::AssignFinal,
                    gid: Some(g as u32),
                    ..*old(self)
                }),
                None => r == Err::<(), ExecuteError>(ExecuteError::ParseInt) && *final(self) == (
                ExecuteUnitData { group_final: op == OperatorType::AssignFinal, ..*old(self) }),
            },
    {
        if self.group_final {
            return Ok(());
        }
        if op == OperatorType::AssignFinal {
            self.group_final = true;
        }
        match parse_id(value) {
            Some(g) => {
                self.gid = Some(g);
                Ok(())
            },
            None => Err(ExecuteError::ParseInt),
        }
    }

    /// `MODE`: where the mode is not fixed, `:=` fixes it, and `text` (the
    /// formatted value, `None` where formatting failed), if it is a mode,
    /// becomes the mode.
    pub fn apply_mode(&mut self, op: OperatorType, text: Option<&str>)
        ensures
            *final(self) == if old(self).mode_final {
                *old(self)
            } else {
                ExecuteUnitData {
                    mode_final: op == OperatorType::AssignFinal,
                    mode: match text {
                        Some(t) => match mode_of(t@) {
                            Some(m) => Some(m as u32),
                            None => old(self).mode,
                        },
                        None => old(self).mode,
                    },
                    ..*old(self)
                }
            },
    {
        if self.mode_final {
            return;
        }
        if op == OperatorType::AssignFinal {
            self.mode_final = true;
        }
        if let Some(t) = text {
            if let Ok(m) = parse_mode(t) {
                self.mode = Some(m);
            }
        }
    }

    /// `OPTIONS="watch"` / `OPTIONS="nowatch"`: where the flag is not
    /// fixed, `:=` fixes it, and the value, `true` or `false`, sets it.
    pub fn apply_watch(&mut self, op: OperatorType, value: &str) -> (r: Result<(), ExecuteError>)
        ensures
            old(self).watch_final ==> r is Ok && *final(self) == *old(self),
            !old(self).watch_final ==> match bool_of(value@) {
                Some(b) => r is Ok && *final(self) == (ExecuteUnitData {
                    watch_final: op == OperatorType::AssignFinal,
                    watch: b,
                    ..*old(self)
                }),
                None => r == Err::<(), ExecuteError>(ExecuteError::ParseBool) && *final(self) == (
                ExecuteUnitData { watch_final: op == OperatorType::AssignFinal, ..*old(self) }),
            },
    {
        if self.watch_final {
            return Ok(());
        }
        if op == OperatorType::AssignFinal {
            self.watch_final = true;
        }
        if str_eq(value, "true") {
            self.watch = true;
            Ok(())
        } else if str_eq(value, "false") {
            self.watch = false;
            Ok(())
        } else {
            Err(ExecuteError::ParseBool)
        }
    }
}

/// The name that `NAME` gives a network interface from the formatted
/// value `v`: unless escaping is off, each character that may not stand in
/// an interface name (with `strict`) or a device node name (else) is
/// replaced.
pub open spec fn name_escaped(v: Seq<char>, escape: EscapeType, strict: bool) -> Seq<char> {
    if escape == EscapeType::Unset || escape == EscapeType::Replace {
        if strict {
            ifname_of(v)
        } else {
            replace_from(v, "/"@, 0)
        }
    } else {
        v
    }
}

/// The formatted `SYMLINK` value after escaping: with the escape mode
/// unset, spaces are kept (they separate links); with `replace`, they
/// are replaced too; with escaping off, the value stands.
pub open spec fn devlink_escaped(v: Seq<char>, escape: EscapeType) -> Seq<char> {
    match escape {
        EscapeType::Unset => replace_from(v, "/ "@, 0),
        EscapeType::Replace => replace_from(v, "/"@, 0),
        EscapeType::NoEscape => v,
    }
}

/// The links that a `SYMLINK` value names: its space-separated words,
/// each trimmed and put under `/dev/`; none where the value is blank.
pub open spec fn devlinks_of(v: Seq<char>) -> Seq<Seq<char>> {
    if trim_ws(v).len() == 0 {
        Seq::empty()
    } else {
        split_on(trim_ws(v), ' ').map_values(|w: Seq<char>| "/dev/"@ + trim_ws(w))
    }
}

/// What a `SYMLINK` token does to the device's links.
#[derive(Debug)]
pub struct DevlinkChange {
    /// the links the device had are dropped first
    pub clear: bool,
    /// the links then added
    pub links: Vec<String>,
}

/// The view of a list of strings.
pub open spec fn texts(v: Seq<String>) -> Seq<Seq<char>> {
    v.map_values(|s: String| s@)
}

/// Trims `s` and builds `/dev/` followed by it.
fn dev_path(s: &str) -> (r: String)
    ensures
        r@ == "/dev/"@ + trim_ws(s@),
{
    let v = chars_of(s);
    let (a, b) = trim_bounds(&v, 0, v.len());
    assert(v@.subrange(0, v@.len() as int) =~= v@);
    let mut r = string_of("/dev/");
    let t = string_from_range(&v, a, b);
    let tv = chars_of(t.as_str());
    string_extend(&mut r, &tv);
    r
}

/// The links named by the escaped value `v`.
fn devlink_list(v: &str) -> (r: Vec<String>)
    ensures
        texts(r@) == devlinks_of(v@),
{
    let cs = chars_of(v);
    let (a, b) = trim_bounds(&cs, 0, cs.len());
    assert(cs@.subrange(0, cs@.len() as int) =~= cs@);
    let mut out: Vec<String> = Vec::new();
    if a == b {
        assert(texts(out@) =~= devlinks_of(v@));
        return out;
    }
    let t = string_from_range(&cs, a, b);
    let words = split_char(t.as_str(), ' ');
    let ghost ws = words@.map_values(|p: &str| p@);
    let mut i: usize = 0;
    while i < words.len()
        invariant
            ws == words@.map_values(|p: &str| p@),
            ws == split_on(trim_ws(v@), ' '),
            0 <= i <= words@.len(),
            texts(out@) == ws.subrange(0, i as int).map_values(|w: Seq<char>| "/dev/"@ + trim_ws(w)),
        decreases words@.len() - i,
    {
        let ghost before = out@;
        let link = dev_path(words[i]);
        out.push(link);
        proof {
            assert(out@ == before.push(link));
            assert(texts(out@) =~= texts(before).push(link@));
            assert(ws.subrange(0, i + 1) =~= ws.subrange(0, i as int).push(ws[i as int]));
            assert(ws.subrange(0, i + 1).map_values(|w: Seq<char>| "/dev/"@ + trim_ws(w))
                =~= ws.subrange(0, i as int).map_values(|w: Seq<char>| "/dev/"@ + trim_ws(w)).push("/dev/"@ + trim_ws(ws[i as int])));
        }
        i += 1;
    }
    assert(ws.subrange(0, ws.len() as int) =~= ws);
    out
}

/// What `TAG` does to the device's tags.
#[derive(Debug, Clone)]
pub enum TagEdit {
    /// nothing (the tag holds a character no tag may hold)
    Keep,
    Add(String),
    Remove(String),
}

/// What a `TAG` token does: whether the device's tags are dropped first,
/// and the tag added or removed.
#[derive(Debug)]
pub struct TagChange {
    pub cleanup: bool,
    pub edit: TagEdit,
}

/// A tag may hold letters, digits, `-` and `_`.
pub open spec fn tag_char(c: char) -> bool {
    alphanumeric(c) || c == '-' || c == '_'
}

/// What the `TAG` token with operator `op` and formatted value `value`
/// does: `=` drops the device's tags first; a value that holds a
/// character no tag may hold changes nothing more; `-=` removes the tag,
/// the other operators add it.
pub fn tag_change(op: OperatorType, value: &str) -> (r: TagChange)
    ensures
        r.cleanup == (op == OperatorType::Assign),
        !(forall|i: int| 0 <= i < value@.len() ==> tag_char(#[trigger] value@[i])) ==> r.edit is Keep,
        (forall|i: int| 0 <= i < value@.len() ==> tag_char(#[trigger] value@[i])) ==> match r.edit {
            TagEdit::Remove(t) => op == OperatorType::Remove && t@ == value@,
            TagEdit::Add(t) => op != OperatorType::Remove && t@ == value@,
            TagEdit::Keep => false,
        },
{
    let cleanup = op == OperatorType::Assign;
    let v = chars_of(value);
    let mut i: usize = 0;
    while i < v.len()
        invariant
            v@ == value@,
            cleanup == (op == OperatorType::Assign),
            0 <= i <= v@.len(),
            forall|k: int| 0 <= k < i ==> tag_char(#[trigger] v@[k]),
        decreases v@.len() - i,
    {
        let c = v[i];
        if !(is_alphanumeric(c) || c == '-' || c == '_') {
            assert(!tag_char(value@[i as int]));
            return TagChange { cleanup, edit: TagEdit::Keep };
        }
        i += 1;
    }
    let t = string_of(value);
    if op == OperatorType::Remove {
        TagChange { cleanup, edit: TagEdit::Remove(t) }
    } else {
        TagChange { cleanup, edit: TagEdit::Add(t) }
    }
}

/// The value of the property that `IMPORT{cmdline}` sets from the kernel
/// command line item `item`: the text after the first `=`, or `1` where
/// there is none or it is empty.
pub open spec fn cmdline_value(item: Seq<char>) -> Seq<char> {
    let n = len_before(item, '=');
    let v = if n < item.len() { item.subrange(n + 1, item.len() as int) } else { Seq::empty() };
    if v.len() == 0 { "1"@ } else { v }
}

/// The property value that `IMPORT{cmdline}` sets for `item`.
pub fn cmdline_property_value(item: &str) -> (r: String)
    ensures
        r@ == cmdline_value(item@),
{
    let v = chars_of(item);
    let n = find_char(&v, 0, '=');
    assert(v@.subrange(0, v@.len() as int) =~= v@);
    if n < v.len() && n + 1 < v.len() {
        string_from_range(&v, n + 1, v.len())
    } else {
        proof {
            if n < v@.len() {
                assert(v@.subrange(n + 1, v@.len() as int) =~= Seq::<char>::empty());
            }
        }
        string_of("1")
    }
}

/// The value that `ENV{key}` sets, if any: an empty token value drops to
/// an empty property, except with `+=`, which changes nothing; otherwise
/// `+=` appends the formatted value to the old one after a space (where
/// there was an old one), and with the escape mode `replace` the result's
/// characters that may not stand in a device node name are replaced.
pub open spec fn env_value_of(
    op: OperatorType,
    token_value: Seq<char>,
    old_value: Option<Seq<char>>,
    formatted: Seq<char>,
    escape: EscapeType,
) -> Option<Seq<char>> {
    if token_value.len() == 0 {
        if op == OperatorType::Add {
            None
        } else {
            Some(Seq::empty())
        }
    } else {
        let joined = match old_value {
            Some(o) if op == OperatorType::Add => o + seq![' '] + formatted,
            _ => formatted,
        };
        Some(if escape == EscapeType::Replace { replace_from(joined, ""@, 0) } else { joined })
    }
}

/// The value that the `ENV{key}` token with operator `op` and value
/// `token_value` sets, given the property's old value and the formatted
/// token value.
pub fn env_value(
    op: OperatorType,
    token_value: &str,
    old_value: Option<&str>,
    formatted: &str,
    escape: EscapeType,
) -> (r: Option<String>)
    ensures
        match r {
            Some(v) => env_value_of(op, token_value@, match old_value { Some(o) => Some(o@), None => None }, formatted@, escape) == Some(v@),
            None => env_value_of(op, token_value@, match old_value { Some(o) => Some(o@), None => None }, formatted@, escape) is None,
        },
{
    if token_value.is_empty() {
        if op == OperatorType::Add {
            return None;
        }
        return Some(String::new());
    }
    let ghost ov = match old_value { Some(o) => Some(o@), None => None::<Seq<char>> };
    let mut joined = String::new();
    if op == OperatorType::Add {
        if let Some(o) = old_value {
            joined = string_of(o);
            string_push(&mut joined, ' ');
        }
    }
    assert(joined@ == match ov {
        Some(o) if op == OperatorType::Add => o + seq![' '],
        _ => Seq::<char>::empty(),
    });
    let fv = chars_of(formatted);
    string_extend(&mut joined, &fv);
    assert(joined@ =~= match ov {
        Some(o) if op == OperatorType::Add => o + seq![' '] + formatted@,
        _ => formatted@,
    });
    if escape == EscapeType::Replace {
        Some(replace_chars(joined.as_str(), ""))
    } else {
        Some(joined)
    }
}

impl ExecuteUnitData {
    /// `NAME`: where the name is not fixed, `:=` fixes it; a device that
    /// is no network interface, or a value that failed to format (`None`),
    /// changes nothing more; else the escaped value becomes the name.
    pub fn apply_name(&mut self, op: OperatorType, has_ifindex: bool, value: Option<&str>, strict: bool)
        ensures
            old(self).name_final ==> *final(self) == *old(self),
            !old(self).name_final && (!has_ifindex || value is None) ==> *final(self) == (ExecuteUnitData {
                name_final: op == OperatorType::AssignFinal,
                ..*old(self)
            }),
            !old(self).name_final && has_ifindex && value is Some ==> *final(self) == (ExecuteUnitData {
                name_final: op == OperatorType::AssignFinal,
                name: final(self).name,
                ..*old(self)
            }) && final(self).name@ == name_escaped(value->Some_0@, old(self).escape_type, strict),
    {
        if self.name_final {
            return;
        }
        if op == OperatorType::AssignFinal {
            self.name_final = true;
        }
        if !has_ifindex {
            return;
        }
        let v = match value {
            Some(v) => v,
            None => return,
        };
        let name = if self.escape_type == EscapeType::Unset || self.escape_type == EscapeType::Replace {
            if strict {
                replace_ifname(v)
            } else {
                replace_chars(v, "/")
            }
        } else {
            string_of(v)
        };
        self.name = name;
    }

    /// The formatted `SYMLINK` value has its spaces replaced unless
    /// escaping is off.
    pub fn devlink_replaces_whitespace(&self) -> (b: bool)
        ensures
            b == (self.escape_type != EscapeType::NoEscape),
    {
        self.escape_type != EscapeType::NoEscape
    }

    /// `SYMLINK`: where the links are not fixed and the device has a
    /// device number, `:=` fixes them, `=` and `:=` drop the old links, and
    /// the links that the escaped value (`None` where formatting failed)
    /// names are added.
    pub fn apply_devlink(&mut self, op: OperatorType, has_devnum: bool, value: Option<&str>) -> (r: DevlinkChange)
        ensures
            old(self).devlink_final || !has_devnum ==> *final(self) == *old(self) && !r.clear && r.links@.len() == 0,
            !old(self).devlink_final && has_devnum ==> *final(self) == (ExecuteUnitData {
                devlink_final: op == OperatorType::AssignFinal,
                ..*old(self)
            }) && r.clear == (op == OperatorType::Assign || op == OperatorType::AssignFinal) && texts(r.links@)
                == match value {
                Some(v) => devlinks_of(devlink_escaped(v@, old(self).escape_type)),
                None => Seq::empty(),
            },
    {
        if self.devlink_final || !has_devnum {
            return DevlinkChange { clear: false, links: Vec::new() };
        }
        if op == OperatorType::AssignFinal {
            self.devlink_final = true;
        }
        let clear = op == OperatorType::Assign || op == OperatorType::AssignFinal;
        let v = match value {
            Some(v) => v,
            None => {
                let links: Vec<String> = Vec::new();
                assert(texts(links@) =~= Seq::<Seq<char>>::empty());
                return DevlinkChange { clear, links };
            },
        };
        let escaped = match self.escape_type {
            EscapeType::Unset => replace_chars(v, "/ "),
            EscapeType::Replace => replace_chars(v, "/"),
            EscapeType::NoEscape => string_of(v),
        };
        let links = devlink_list(escaped.as_str());
        DevlinkChange { clear, links }
    }

    /// `RUN` / `RUN{builtin}`: where the list is not fixed, `:=` fixes it,
    /// `=` and `:=` empty both lists, and the formatted command (`None`
    /// where formatting failed) joins the builtin list or the program list.
    pub fn apply_run(&mut self, op: OperatorType, builtin: bool, cmd: Option<&str>)
        ensures
            old(self).run_final ==> *final(self) == *old(self),
            !old(self).run_final ==> *final(self) == (ExecuteUnitData {
                run_final: op == OperatorType::AssignFinal,
                builtin_run_list: final(self).builtin_run_list,
                program_run_list: final(self).program_run_list,
                ..*old(self)
            }),
            !old(self).run_final ==> {
                let cleared = op == OperatorType::Assign || op == OperatorType::AssignFinal;
                let b0 = if cleared { Seq::<Seq<char>>::empty() } else { texts(old(self).builtin_run_list@) };
                let p0 = if cleared { Seq::<Seq<char>>::empty() } else { texts(old(self).program_run_list@) };
                &&& texts(final(self).builtin_run_list@) == match cmd {
                    Some(c) if builtin => b0.push(c@),
                    _ => b0,
                }
                &&& texts(final(self).program_run_list@) == match cmd {
                    Some(c) if !builtin => p0.push(c@),
                    _ => p0,
                }
            },
    {
        if self.run_final {
            return;
        }
        if op == OperatorType::AssignFinal {
            self.run_final = true;
        }
        if op == OperatorType::Assign || op == OperatorType::AssignFinal {
            self.builtin_run_list.clear();
            self.program_run_list.clear();
            assert(texts(self.builtin_run_list@) =~= Seq::<Seq<char>>::empty());
            assert(texts(self.program_run_list@) =~= Seq::<Seq<char>>::empty());
        }
        if let Some(c) = cmd {
            let ghost b = self.builtin_run_list@;
            let ghost p = self.program_run_list@;
            let s = string_of(c);
            if builtin {
                self.builtin_run_list.push(s);
                assert(texts(self.builtin_run_list@) =~= texts(b).push(c@));
            } else {
                self.program_run_list.push(s);
                assert(texts(self.program_run_list@) =~= texts(p).push(c@));
            }
        }
    }

    /// Before `IMPORT{builtin}` runs builtin number `index`: a builtin that
    /// runs once and has run answers at once, by its earlier outcome
    /// (`Some`); else it is marked as run where it runs once, and is run
    /// (`None`).
    pub fn builtin_gate(&mut self, index: u32, run_once: bool, op: OperatorType) -> (r: Option<bool>)
        requires
            index < 32,
        ensures
            run_once && old(self).builtin_run & (1u32 << index) != 0 ==> r == Some(
                (op == OperatorType::Match) != (old(self).builtin_ret & (1u32 << index) != 0),
            ) && *final(self) == *old(self),
            run_once && old(self).builtin_run & (1u32 << index) == 0 ==> r is None && *final(self) == (
            ExecuteUnitData { builtin_run: old(self).builtin_run | (1u32 << index), ..*old(self) }),
            !run_once ==> r is None && *final(self) == *old(self),
    {
        let mask: u32 = 1u32 << index;
        if run_once {
            if self.builtin_run & mask != 0 {
                return Some((op == OperatorType::Match) != (self.builtin_ret & mask != 0));
            }
            self.builtin_run = self.builtin_run | mask;
        }
        None
    }

    /// After builtin number `index` ran and returned `ret`: a false result
    /// is recorded, and the token matches where the result agrees with its
    /// operator.
    pub fn builtin_finish(&mut self, index: u32, ret: bool, op: OperatorType) -> (r: bool)
        requires
            index < 32,
        ensures
            r == ((op == OperatorType::Nomatch) != ret),
            *final(self) == (ExecuteUnitData {
                builtin_ret: if ret { old(self).builtin_ret } else { old(self).builtin_ret | (1u32 << index) },
                ..*old(self)
            }),
    {
        if !ret {
            self.builtin_ret = self.builtin_ret | (1u32 << index);
        }
        (op == OperatorType::Nomatch) != ret
    }

    /// `PROGRAM`: the program's output, without trailing whitespace and
    /// with the characters that may not stand in a device node name
    /// replaced, becomes the program result.
    pub fn set_program_result(&mut self, output: &str)
        ensures
            *final(self) == (ExecuteUnitData { program_result: final(self).program_result, ..*old(self) }),
            final(self).program_result@ == replace_from(trim_end_ws(output@), DEVMASTER_LEGAL_CHARS@, 0),
    {
        self.program_result = sanitize_value(output);
    }
}

/// The first position at or after `i` whose character is whitespace
/// (`ws`) or not (`!ws`); the length of `s` where there is none.
pub open spec fn next_ws(s: Seq<char>, i: int, ws: bool) -> int
    decreases s.len() - i,
{
    if i < 0 || i >= s.len() {
        s.len() as int
    } else if unicode_ws(s[i]) == ws {
        i
    } else {
        next_ws(s, i + 1, ws)
    }
}

pub proof fn lemma_next_ws(s: Seq<char>, i: int, ws: bool)
    requires
        0 <= i,
    ensures
        i <= next_ws(s, i, ws) <= s.len() || (i > s.len() && next_ws(s, i, ws) == s.len()),
        next_ws(s, i, ws) < s.len() ==> unicode_ws(s[next_ws(s, i, ws)]) == ws,
        forall|k: int| i <= k < next_ws(s, i, ws) ==> unicode_ws(#[trigger] s[k]) != ws,
    decreases s.len() - i,
{
    if i < s.len() && unicode_ws(s[i]) != ws {
        lemma_next_ws(s, i + 1, ws);
    }
}

/// The words of `s[i..]`, as `str::split_whitespace` gives them: the
/// maximal runs of characters that are not whitespace.
pub open spec fn words_from(s: Seq<char>, i: int) -> Seq<Seq<char>>
    decreases s.len() - i,
{
    let a = next_ws(s, i, false);
    if i < 0 || a >= s.len() {
        Seq::empty()
    } else {
        let b = next_ws(s, a, true);
        proof {
            lemma_next_ws(s, i, false);
            lemma_next_ws(s, a + 1, true);
        }
        seq![s.subrange(a, b)] + words_from(s, b)
    }
}

/// The words joined by single spaces.
pub open spec fn join_words(ws: Seq<Seq<char>>) -> Seq<char>
    decreases ws.len(),
{
    if ws.len() == 0 {
        Seq::empty()
    } else if ws.len() == 1 {
        ws[0]
    } else {
        join_words(ws.drop_last()) + seq![' '] + ws.last()
    }
}

/// What `$result{attr}` (`%c{attr}`) stands for, given the program result
/// `result`: nothing where there is no result; else the word number `n`
/// where the attribute is `n`, the words from number `n` on, joined by
/// spaces, where it is `n+`, and all the words where there is none. An
/// attribute that is no such index is an error.
pub open spec fn result_part(result: Seq<char>, attr: Option<Seq<char>>) -> Result<Seq<char>, ExecuteError> {
    let sel: Option<(int, bool)> = match attr {
        None => Some((0, true)),
        Some(a) => if a.len() > 0 && a.last() == '+' {
            match parse_int(a.drop_last(), 0, usize::MAX as int, false) {
                Some(n) => Some((n, true)),
                None => None,
            }
        } else {
            match parse_int(a, 0, usize::MAX as int, false) {
                Some(n) => Some((n, false)),
                None => None,
            }
        },
    };
    let words = words_from(result, 0);
    if result.len() == 0 {
        Ok(Seq::empty())
    } else {
        match sel {
            None => Err(ExecuteError::ParseInt),
            Some((n, false)) => Ok(if n < words.len() { words[n] } else { Seq::empty() }),
            Some((n, true)) => Ok(if n < words.len() { join_words(words.skip(n)) } else { Seq::empty() }),
        }
    }
}

/// Splits `s` into its words.
fn split_words(s: &Vec<char>) -> (r: Vec<String>)
    ensures
        texts(r@) == words_from(s@, 0),
{
    let mut out: Vec<String> = Vec::new();
    let mut i: usize = 0;
    while i < s.len()
        invariant
            0 <= i <= s@.len(),
            words_from(s@, 0) == texts(out@) + words_from(s@, i as int),
        decreases s@.len() - i,
    {
        let ghost at = i as int;
        proof {
            lemma_next_ws(s@, at, false);
        }
        let mut a = i;
        while a < s.len() && is_unicode_ws(s[a])
            invariant
                at <= a <= s@.len(),
                next_ws(s@, at, false) == next_ws(s@, a as int, false),
            decreases s@.len() - a,
        {
            a += 1;
        }
        if a == s.len() {
            assert(words_from(s@, at) =~= Seq::<Seq<char>>::empty());
            assert(texts(out@) + Seq::<Seq<char>>::empty() =~= texts(out@));
            i = a;
        } else {
            proof {
                lemma_next_ws(s@, a + 1, true);
            }
            let mut b = a + 1;
            while b < s.len() && !is_unicode_ws(s[b])
                invariant
                    a < b <= s@.len(),
                    next_ws(s@, a as int, true) == next_ws(s@, b as int, true),
                decreases s@.len() - b,
            {
                b += 1;
            }
            assert(next_ws(s@, a as int, true) == b);
            let w = string_from_range(s, a, b);
            let ghost before = out@;
            out.push(w);
            proof {
                assert(texts(out@) =~= texts(before).push(w@));
                assert(texts(before) + (seq![w@] + words_from(s@, b as int)) =~= texts(out@) + words_from(s@, b as int));
            }
            i = b;
        }
    }
    proof {
        assert(words_from(s@, i as int) =~= Seq::<Seq<char>>::empty());
        assert(texts(out@) + Seq::<Seq<char>>::empty() =~= texts(out@));
    }
    out
}

/// Parses an index as `str::parse::<usize>` does.
fn parse_index(v: &Vec<char>, end: usize) -> (r: Option<usize>)
    requires
        end <= v@.len(),
    ensures
        match r {
            Some(n) => parse_int(v@.subrange(0, end as int), 0, usize::MAX as int, false) == Some(n as int),
            None => parse_int(v@.subrange(0, end as int), 0, usize::MAX as int, false) is None,
        },
{
    match parse_int_range(v, 0, end, 0, usize::MAX as i128, false) {
        Some(n) => Some(n as usize),
        None => None,
    }
}

impl ExecuteUnitData {
    /// The text that `$result{attr}` (`%c{attr}`) stands for (see
    /// [`result_part`]).
    pub fn subst_result(&self, attr: Option<&str>) -> (r: Result<String, ExecuteError>)
        ensures
            match r {
                Ok(v) => result_part(self.program_result@, match attr { Some(a) => Some(a@), None => None }) == Ok::<Seq<char>, ExecuteError>(v@),
                Err(e) => result_part(self.program_result@, match attr { Some(a) => Some(a@), None => None }) == Err::<Seq<char>, ExecuteError>(e),
            },
    {
        let rv = chars_of(self.program_result.as_str());
        if rv.len() == 0 {
            return Ok(String::new());
        }
        let (index, plus) = match attr {
            None => (0usize, true),
            Some(a) => {
                let av = chars_of(a);
                if av.len() > 0 && av[av.len() - 1] == '+' {
                    assert(av@.subrange(0, av@.len() - 1) =~= av@.drop_last());
                    match parse_index(&av, av.len() - 1) {
                        Some(n) => (n, true),
                        None => return Err(ExecuteError::ParseInt),
                    }
                } else {
                    assert(av@.subrange(0, av@.len() as int) =~= av@);
                    match parse_index(&av, av.len()) {
                        Some(n) => (n, false),
                        None => return Err(ExecuteError::ParseInt),
                    }
                }
            },
        };
        let words = split_words(&rv);
        let ghost ws = texts(words@);
        if index >= words.len() {
            return Ok(String::new());
        }
        if !plus {
            let w = words[index].clone();
            return Ok(w);
        }
        let mut out = words[index].clone();
        let mut k = index + 1;
        proof {
            assert(ws.skip(index as int).subrange(0, 1) =~= seq![ws[index as int]]);
        }
        while k < words.len()
            invariant
                ws == texts(words@),
                index < k <= words@.len(),
                out@ == join_words(ws.skip(index as int).subrange(0, k - index)),
            decreases words@.len() - k,
        {
            string_push(&mut out, ' ');
            let wv = chars_of(words[k].as_str());
            string_extend(&mut out, &wv);
            proof {
                let part = ws.skip(index as int).subrange(0, k + 1 - index);
                assert(part.drop_last() =~= ws.skip(index as int).subrange(0, k - index));
                assert(part.last() == ws[k as int]);
            }
            k += 1;
        }
        assert(ws.skip(index as int).subrange(0, words@.len() - index) =~= ws.skip(index as int));
        Ok(out)
    }
}

/// `s` with every leading repetition of `p` removed (`str::trim_start_matches`).
pub open spec fn strip_leading(s: Seq<char>, p: Seq<char>) -> Seq<char>
    decreases s.len(),
{
    if p.len() > 0 && is_prefix(p, s) {
        strip_leading(s.skip(p.len() as int), p)
    } else {
        s
    }
}

/// A device name without its leading `/dev/` (all of them, where it is
/// repeated).
pub fn strip_dev(s: &str) -> (r: String)
    ensures
        r@ == strip_leading(s@, "/dev/"@),
{
    let v = chars_of(s);
    let p = chars_of("/dev/");
    proof {
        reveal_strlit("/dev/");
    }
    let vl = v.len();
    let mut i: usize = 0;
    assert(v@.subrange(0, v@.len() as int) =~= v@);
    while has_prefix_at(&v, i, &p)
        invariant
            vl == v@.len(),
            0 <= i <= v@.len(),
            p@ == "/dev/"@,
            p@.len() == 5,
            strip_leading(s@, p@) == strip_leading(v@.subrange(i as int, v@.len() as int), p@),
            v@ == s@,
        decreases v@.len() - i,
    {
        assert(v@.subrange(i as int, v@.len() as int).skip(5) =~= v@.subrange(i + 5, v@.len() as int));
        i += 5;
    }
    string_from_range(&v, i, v.len())
}

/// What `$links` (`%L`) stands for: the device's links without `/dev/`,
/// joined by spaces.
pub open spec fn links_text(links: Seq<Seq<char>>) -> Seq<char> {
    trim_end_ws(links.fold_left(Seq::<char>::empty(), |acc: Seq<char>, l: Seq<char>| acc + strip_leading(l, "/dev/"@) + seq![' ']))
}

/// The text that `$links` (`%L`) stands for, given the device's links.
pub fn subst_links(links: &Vec<String>) -> (r: String)
    ensures
        r@ == links_text(texts(links@)),
{
    let ghost ls = texts(links@);
    let mut acc: Vec<char> = Vec::new();
    let mut i: usize = 0;
    while i < links.len()
        invariant
            ls == texts(links@),
            0 <= i <= links@.len(),
            acc@ == ls.subrange(0, i as int).fold_left(Seq::<char>::empty(), |acc: Seq<char>, l: Seq<char>| acc + strip_leading(l, "/dev/"@) + seq![' ']),
        decreases links@.len() - i,
    {
        let t = strip_dev(links[i].as_str());
        let tv = chars_of(t.as_str());
        let mut j: usize = 0;
        let ghost base = acc@;
        while j < tv.len()
            invariant
                0 <= j <= tv@.len(),
                acc@ == base + tv@.subrange(0, j as int),
            decreases tv@.len() - j,
        {
            acc.push(tv[j]);
            j += 1;
            assert(acc@ =~= base + tv@.subrange(0, j as int));
        }
        acc.push(' ');
        proof {
            let sub = ls.subrange(0, i + 1);
            assert(sub.drop_last() =~= ls.subrange(0, i as int));
            assert(tv@.subrange(0, tv@.len() as int) =~= tv@);
            assert(acc@ =~= base + strip_leading(ls[i as int], "/dev/"@) + seq![' ']);
        }
        i += 1;
    }
    assert(ls.subrange(0, ls.len() as int) =~= ls);
    let mut end = acc.len();
    assert(acc@.subrange(0, end as int) =~= acc@);
    while end > 0 && is_unicode_ws(acc[end - 1])
        invariant
            0 <= end <= acc@.len(),
            trim_end_ws(acc@) == trim_end_ws(acc@.subrange(0, end as int)),
        decreases end,
    {
        assert(acc@.subrange(0, end as int).drop_last() =~= acc@.subrange(0, end - 1));
        end -= 1;
    }
    string_from_range(&acc, 0, end)
}

impl ExecuteUnitData {
    /// The text that `$name` (`%D`) stands for: the name given by `NAME`,
    /// else the device node's name without `/dev/`, else the kernel name
    /// (`devname`, `sysname`: the device's, where it has them).
    pub fn subst_name(&self, devname: Option<&str>, sysname: &str) -> (r: String)
        ensures
            r@ == if self.name@.len() > 0 {
                self.name@
            } else {
                match devname {
                    Some(d) => strip_leading(d@, "/dev/"@),
                    None => sysname@,
                }
            },
    {
        let n = chars_of(self.name.as_str());
        if n.len() > 0 {
            string_of(self.name.as_str())
        } else {
            match devname {
                Some(d) => strip_dev(d),
                None => string_of(sysname),
            }
        }
    }
}

} // verus!
