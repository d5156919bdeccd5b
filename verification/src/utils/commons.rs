//! Devmaster string utilities: formatter validation, name sanitisers and
//! small parsers.
//!
//! Formatter validation works on the UTF-8 bytes of its input, as slicing
//! by byte offsets does; an offset that falls inside a multi-byte character
//! is a panic there, which the contracts below exclude by `requires`.

use vstd::prelude::*;
use crate::rules::{formatter_of, FormatSubstitutionType, RulesError};
use vstd::string::{StrSliceExecFns, StringSliceAdditionalSpecFns};
use crate::text::{
    has_prefix_at, is_prefix,
    ascii_alnum, ascii_ws, chars_of, contains_char, is_ascii_alnum, is_ascii_ws, is_unicode_ws,
    parse_int, parse_int_range, string_extend, string_from, string_from_range, trim_bounds,
    trim_ws, unicode_ws, split_char, split_on,
};
use crate::utils::trie::{partial_len, Trie};

verus! {

/// Outcome of scanning a string for formatters.
#[derive(Debug, Clone, Copy, PartialEq, Eq, Structural)]
pub enum Scan {
    /// every formatter is well formed
    Valid,
    /// some formatter is malformed
    Invalid,
}

/// Byte offset `k` of `b` lies on a character boundary.
pub open spec fn boundary(b: Seq<u8>, k: int) -> bool {
    k == b.len() || (0 <= k < b.len() && !(0x80 <= b[k] && b[k] <= 0xbf))
}

pub proof fn lemma_find_byte(b: Seq<u8>, from: int, x: u8)
    requires
        from >= 0,
    ensures
        find_byte(b, from, x) matches Some(p) ==> from <= p < b.len() && b[p] == x,
    decreases b.len() - from,
{
    if from < b.len() && b[from] != x {
        lemma_find_byte(b, from + 1, x);
    }
}

/// First offset at or after `from` that holds byte `x`.
pub open spec fn find_byte(b: Seq<u8>, from: int, x: u8) -> Option<int>
    decreases b.len() - from,
{
    if from < 0 || from >= b.len() {
        None
    } else if b[from] == x {
        Some(from)
    } else {
        find_byte(b, from + 1, x)
    }
}

/// The bytes of `b`, each read as the character of the same number.
pub open spec fn byte_chars(b: Seq<u8>) -> Seq<char> {
    Seq::new(b.len(), |i: int| b[i] as char)
}

/// Long formatter names, written after `$`.
pub open spec fn long_words() -> Set<Seq<char>> {
    Set::empty().insert("devnode"@).insert("tempnode"@).insert("attr"@).insert("sysfs"@).insert(
        "env"@,
    ).insert("kernel"@).insert("number"@).insert("driver"@).insert("devpath"@).insert("id"@).insert(
        "major"@,
    ).insert("minor"@).insert("result"@).insert("parent"@).insert("name"@).insert("links"@).insert(
        "root"@,
    ).insert("sys"@)
}

/// Short formatter names, written after `%`.
pub open spec fn short_words() -> Set<Seq<char>> {
    Set::empty().insert("N"@).insert("s"@).insert("E"@).insert("k"@).insert("n"@).insert("d"@).insert(
        "p"@,
    ).insert("b"@).insert("M"@).insert("m"@).insert("c"@).insert("P"@).insert("D"@).insert(
        "L"@,
    ).insert("r"@).insert("S"@)
}

/// The formatter name that starts at offset `start` of `cs`: the longest
/// run of characters that begins a known name, which must itself be a
/// known name (a name cut off by the end of the value, or followed by a
/// character that no name continues with, is none); its length and kind.
pub open spec fn placeholder(words: Set<Seq<char>>, cs: Seq<char>, start: int) -> Option<(int, FormatSubstitutionType)> {
    let s = cs.subrange(start, cs.len() as int);
    let d = partial_len(words, s, 0);
    let p = s.subrange(0, d as int);
    if words.contains(p) {
        Some((d as int, match formatter_of(p) {
            Some(t) => t,
            None => FormatSubstitutionType::Invalid,
        }))
    } else {
        None
    }
}

/// The formatter kinds that take an attribute in braces.
pub open spec fn takes_attr(t: FormatSubstitutionType) -> bool {
    t == FormatSubstitutionType::Attr || t == FormatSubstitutionType::Env || t == FormatSubstitutionType::Result
}

/// The attribute `a` is acceptable for formatter `t`: `result` takes an
/// optional index (an `i32`, optionally followed by `+`), the others need a
/// non-empty attribute.
pub open spec fn attr_ok(t: FormatSubstitutionType, a: Seq<char>) -> bool {
    if t == FormatSubstitutionType::Result {
        a.len() == 0 || parse_int(
            if a.last() == '+' { a.drop_last() } else { a },
            i32::MIN as int,
            i32::MAX as int,
            true,
        ) is Some
    } else {
        a.len() > 0
    }
}

/// Scans the bytes `b` from offset `idx` for `$`/`%` formatters. Bytes
/// of characters beyond ASCII are never `$`, `%`, `{` or `}`, so they
/// stand for themselves.
pub open spec fn format_scan(b: Seq<u8>, idx: int) -> Scan
    decreases b.len() - idx,
{
    if idx < 0 || idx >= b.len() {
        Scan::Valid
    } else if (b[idx] == 0x25 || b[idx] == 0x24) && idx + 1 < b.len() {
        if b[idx + 1] == b[idx] {
            format_scan(b, idx + 2)
        } else {
            let words = if b[idx] == 0x24 { long_words() } else { short_words() };
            match placeholder(words, byte_chars(b), idx + 1) {
                None => Scan::Invalid,
                Some((d, t)) => {
                    let i2 = idx + d;
                    proof {
                        let cs = byte_chars(b);
                        crate::utils::trie::lemma_partial_len_bound(words, cs.subrange(idx + 1, cs.len() as int), 0);
                    }
                    if takes_attr(t) {
                        if i2 + 1 < b.len() && b[i2 + 1] == 0x7b {
                            match find_byte(b, i2 + 2, 0x7d) {
                                None => Scan::Invalid,
                                Some(p) => if attr_ok(t, byte_chars(b).subrange(i2 + 2, p)) {
                                    proof {
                                        lemma_find_byte(b, i2 + 2, 0x7d);
                                    }
                                    format_scan(b, p + 1)
                                } else {
                                    Scan::Invalid
                                },
                            }
                        } else if attr_ok(t, Seq::empty()) {
                            format_scan(b, i2 + 1)
                        } else {
                            Scan::Invalid
                        }
                    } else {
                        format_scan(b, i2 + 1)
                    }
                },
            }
        }
    } else {
        format_scan(b, idx + 1)
    }
}


/// The tree of long formatter names.
fn long_trie() -> (t: Trie)
    ensures
        t.wf(),
        t.root_depth() == 0,
        t.words() == long_words(),
{
    let mut t = Trie::new(0);
    proof {
        reveal_strlit("devnode");
        reveal_strlit("tempnode");
        reveal_strlit("attr");
        reveal_strlit("sysfs");
        reveal_strlit("env");
        reveal_strlit("kernel");
        reveal_strlit("number");
        reveal_strlit("driver");
        reveal_strlit("devpath");
        reveal_strlit("id");
        reveal_strlit("major");
        reveal_strlit("minor");
        reveal_strlit("result");
        reveal_strlit("parent");
        reveal_strlit("name");
        reveal_strlit("links");
        reveal_strlit("root");
        reveal_strlit("sys");
    }
    t.insert("devnode");
    t.insert("tempnode");
    t.insert("attr");
    t.insert("sysfs");
    t.insert("env");
    t.insert("kernel");
    t.insert("number");
    t.insert("driver");
    t.insert("devpath");
    t.insert("id");
    t.insert("major");
    t.insert("minor");
    t.insert("result");
    t.insert("parent");
    t.insert("name");
    t.insert("links");
    t.insert("root");
    t.insert("sys");
    t
}

/// The tree of short formatter names.
fn short_trie() -> (t: Trie)
    ensures
        t.wf(),
        t.root_depth() == 0,
        t.words() == short_words(),
{
    let mut t = Trie::new(0);
    proof {
        reveal_strlit("N");
        reveal_strlit("s");
        reveal_strlit("E");
        reveal_strlit("k");
        reveal_strlit("n");
        reveal_strlit("d");
        reveal_strlit("p");
        reveal_strlit("b");
        reveal_strlit("M");
        reveal_strlit("m");
        reveal_strlit("c");
        reveal_strlit("P");
        reveal_strlit("D");
        reveal_strlit("L");
        reveal_strlit("r");
        reveal_strlit("S");
    }
    t.insert("N");
    t.insert("s");
    t.insert("E");
    t.insert("k");
    t.insert("n");
    t.insert("d");
    t.insert("p");
    t.insert("b");
    t.insert("M");
    t.insert("m");
    t.insert("c");
    t.insert("P");
    t.insert("D");
    t.insert("L");
    t.insert("r");
    t.insert("S");
    t
}

/// The bytes of `b`, each read as the character of the same number.
fn byte_chars_vec(b: &[u8]) -> (v: Vec<char>)
    ensures
        v@ == byte_chars(b@),
{
    let mut v: Vec<char> = Vec::new();
    let mut i: usize = 0;
    while i < b.len()
        invariant
            0 <= i <= b.len(),
            v@ == byte_chars(b@).subrange(0, i as int),
        decreases b.len() - i,
    {
        v.push(b[i] as char);
        i += 1;
        assert(v@ =~= byte_chars(b@).subrange(0, i as int));
    }
    assert(byte_chars(b@).subrange(0, i as int) =~= byte_chars(b@));
    v
}

/// Whether `cs[lo..hi]` is an acceptable attribute for formatter `t`.
fn attr_valid(t: FormatSubstitutionType, cs: &Vec<char>, lo: usize, hi: usize) -> (b: bool)
    requires
        lo <= hi <= cs.len(),
    ensures
        b == attr_ok(t, cs@.subrange(lo as int, hi as int)),
{
    let ghost a = cs@.subrange(lo as int, hi as int);
    if t == FormatSubstitutionType::Result {
        if lo == hi {
            return true;
        }
        let end = if cs[hi - 1] == '+' { hi - 1 } else { hi };
        assert(cs@.subrange(lo as int, end as int) =~= (if a.last() == '+' { a.drop_last() } else { a }));
        parse_int_range(cs, lo, end, -2147483648, 2147483647, true).is_some()
    } else {
        lo < hi
    }
}

/// Checks every `$`/`%` formatter of `value`: the name must be known,
/// `attr`, `sysfs`, `env`, `s` and `E` need an attribute in braces, and the
/// attribute of `result`/`c`, if any, must be an index.  `$$` and `%%`
/// stand for themselves.
pub fn check_format(key: &str, value: &str) -> (r: Result<(), RulesError>)
    ensures
        r is Ok <==> format_scan(value.spec_bytes(), 0) == Scan::Valid,
        r matches Err(e) ==> e == RulesError::InvalidFormat,
{
    let b = value.as_bytes();
    let ghost bs = b@;
    let cs = byte_chars_vec(b);
    let long = long_trie();
    let short = short_trie();
    let mut idx: usize = 0;
    while idx < b.len()
        invariant
            bs == b@,
            bs == value.spec_bytes(),
            cs@ == byte_chars(bs),
            long.wf(),
            long.root_depth() == 0,
            long.words() == long_words(),
            short.wf(),
            short.root_depth() == 0,
            short.words() == short_words(),
            format_scan(bs, idx as int) == format_scan(bs, 0),
        decreases b.len() - idx,
    {
        let ch = b[idx];
        if (ch == 0x25 || ch == 0x24) && idx + 1 < b.len() {
            if b[idx + 1] == ch {
                idx += 2;
                continue;
            }
            let ghost words = if ch == 0x24 { long_words() } else { short_words() };
            let node = if ch == 0x24 {
                long.search_prefix_partial(&cs, idx + 1)
            } else {
                short.search_prefix_partial(&cs, idx + 1)
            };
            let n = match node {
                Some(n) => n,
                None => {
                    assert(cs@.subrange(idx + 1, cs@.len() as int) == byte_chars(bs).subrange(idx + 1, byte_chars(bs).len() as int));
                    assert(placeholder(words, byte_chars(bs), idx + 1) is None);
                    assert(format_scan(bs, idx as int) == Scan::Invalid);
                    return Err(RulesError::InvalidFormat);
                },
            };
            let (depth, is_word, subst) = if ch == 0x24 {
                (long.node_depth(n), long.node_is_end(n), long.node_value(n))
            } else {
                (short.node_depth(n), short.node_is_end(n), short.node_value(n))
            };
            if !is_word {
                assert(placeholder(words, byte_chars(bs), idx + 1) is None);
                assert(format_scan(bs, idx as int) == Scan::Invalid);
                return Err(RulesError::InvalidFormat);
            }
            let subst = match subst {
                Some(t) => t,
                None => FormatSubstitutionType::Invalid,
            };
            proof {
                let sub = cs@.subrange(idx + 1, cs@.len() as int);
                assert(sub == byte_chars(bs).subrange(idx + 1, byte_chars(bs).len() as int));
                crate::utils::trie::lemma_partial_len_bound(words, sub, 0);
            }
            assert(placeholder(words, byte_chars(bs), idx + 1) == Some((depth as int, subst)));
            let i2 = idx + depth;
            if subst == FormatSubstitutionType::Attr || subst == FormatSubstitutionType::Env
                || subst == FormatSubstitutionType::Result {
                if i2 + 1 < b.len() && b[i2 + 1] == 0x7b {
                    let mut p = i2 + 2;
                    while p < b.len() && b[p] != 0x7d
                        invariant
                            i2 + 2 <= p <= b.len(),
                            bs == b@,
                            i2 + 1 < b.len(),
                            find_byte(bs, i2 + 2, 0x7d) == find_byte(bs, p as int, 0x7d),
                        decreases b.len() - p,
                    {
                        p += 1;
                    }
                    if p == b.len() {
                        assert(find_byte(bs, p as int, 0x7d) is None);
                        return Err(RulesError::InvalidFormat);
                    }
                    assert(find_byte(bs, i2 + 2, 0x7d) == Some(p as int));
                    if !attr_valid(subst, &cs, i2 + 2, p) {
                        return Err(RulesError::InvalidFormat);
                    }
                    idx = p;
                } else {
                    if subst != FormatSubstitutionType::Result {
                        return Err(RulesError::InvalidFormat);
                    }
                    idx = i2;
                }
            } else {
                idx = i2;
            }
        }
        idx += 1;
    }
    Ok(())
}


/// Checks the formatters of a rule value; with `nonempty`, an empty value
/// is rejected first.
pub fn check_value_format(key: &str, value: &str, nonempty: bool) -> (r: Result<(), RulesError>)
    ensures
        r is Ok <==> !(nonempty && value@.len() == 0) && format_scan(value.spec_bytes(), 0) == Scan::Valid,
        r matches Err(e) ==> e == (if nonempty && value@.len() == 0 { RulesError::InvalidValue } else { RulesError::InvalidFormat }),
{
    if nonempty && value.is_empty() {
        return Err(RulesError::InvalidValue);
    }
    check_format(key, value)
}

/// Checks the formatters of a rule attribute, which must not be empty.
pub fn check_attr_format(key: &str, attr: &str) -> (r: Result<(), RulesError>)
    ensures
        r is Ok <==> attr@.len() > 0 && format_scan(attr.spec_bytes(), 0) == Scan::Valid,
        r matches Err(e) ==> e == (if attr@.len() == 0 { RulesError::InvalidAttribute } else { RulesError::InvalidFormat }),
{
    if attr.is_empty() {
        return Err(RulesError::InvalidAttribute);
    }
    check_format(key, attr)
}

/// Characters that devmaster keeps in names besides the always-valid ones.
pub const DEVMASTER_LEGAL_CHARS: &'static str = "/ $%?,";

/// `c` may stand in a device node name: an ASCII letter or digit, one of
/// `#+-.:=@_`, or a character of `white_list`.
pub open spec fn devnode_char(c: char, white_list: Seq<char>) -> bool {
    ascii_alnum(c) || "#+-.:=@_"@.contains(c) || white_list.contains(c)
}

/// Whether `c` may stand in a device node name (see [`devnode_char`]).
pub fn valid_devnode_chars(c: char, white_list: &str) -> (b: bool)
    ensures
        b == devnode_char(c, white_list@),
{
    let extra = chars_of("#+-.:=@_");
    let wl = chars_of(white_list);
    is_ascii_alnum(c) || contains_char(&extra, c) || contains_char(&wl, c)
}

/// `c` may stand in a network interface name: printable ASCII other than
/// space, `:`, `/` and `%`.
pub open spec fn ifname_char(c: char) -> bool {
    !((c as u32) <= 32 || (c as u32) >= 127 || c == ':' || c == '/' || c == '%')
}

/// Whether `c` may stand in a network interface name.
pub fn valid_ifname_chars(c: char) -> (b: bool)
    ensures
        b == ifname_char(c),
{
    !((c as u32) <= 32 || (c as u32) >= 127 || c == ':' || c == '/' || c == '%')
}

/// [`replace_chars`] applied to `s[i..]`.
pub open spec fn replace_from(s: Seq<char>, wl: Seq<char>, i: int) -> Seq<char>
    decreases s.len() - i,
{
    if i < 0 || i >= s.len() {
        Seq::empty()
    } else if devnode_char(s[i], wl) || (s[i] as u32) >= 128 {
        seq![s[i]] + replace_from(s, wl, i + 1)
    } else if s[i] == '\\' && i + 1 < s.len() && s[i + 1] == 'x' {
        seq!['\\', 'x'] + replace_from(s, wl, i + 2)
    } else if unicode_ws(s[i]) && wl.contains(' ') {
        seq![' '] + replace_from(s, wl, i + 1)
    } else {
        seq!['_'] + replace_from(s, wl, i + 1)
    }
}

/// Replaces characters that may not stand in a device node name by `_`,
/// keeping the white list, characters beyond ASCII (valid UTF-8 as every
/// Rust string is) and `\x` escapes and, where the white list holds a
/// space, turning whitespace into spaces.
pub fn replace_chars(s: &str, white_list: &str) -> (r: String)
    ensures
        r@ == replace_from(s@, white_list@, 0),
        r@.len() == s@.len(),
        forall|k: int| 0 <= k < s@.len() ==> #[trigger] r@[k] == replaced_char(s@, white_list@, k),
        replace_from(r@, white_list@, 0) == r@,
{
    proof {
        law_replace_chars_positions(s@, white_list@);
        law_replace_chars_idempotent(s@, white_list@);
    }
    let v = chars_of(s);
    let wl = chars_of(white_list);
    let space = contains_char(&wl, ' ');
    let mut out: Vec<char> = Vec::new();
    let mut i: usize = 0;
    while i < v.len()
        invariant
            v@ == s@,
            wl@ == white_list@,
            space == wl@.contains(' '),
            0 <= i <= v.len(),
            out@ + replace_from(v@, wl@, i as int) == replace_from(v@, wl@, 0),
        decreases v.len() - i,
    {
        let c = v[i];
        let ghost before = out@;
        if valid_devnode_chars(c, white_list) || (c as u32) >= 128 {
            out.push(c);
            i += 1;
        } else if c == '\\' && i + 1 < v.len() && v[i + 1] == 'x' {
            out.push('\\');
            out.push('x');
            i += 2;
        } else if is_unicode_ws(c) && space {
            out.push(' ');
            i += 1;
        } else {
            out.push('_');
            i += 1;
        }
        assert(out@ + replace_from(v@, wl@, i as int) =~= before + replace_from(v@, wl@, (if out@.len() == before.len() + 2 { i - 2 } else { i - 1 }) as int));
    }
    string_from(&out)
}

/// [`replace_ifname`] of `s`: each character that may not stand in an
/// interface name becomes `_`.
pub open spec fn ifname_of(s: Seq<char>) -> Seq<char> {
    s.map_values(|c: char| if ifname_char(c) { c } else { '_' })
}

/// Replaces every character that may not stand in a network interface
/// name by `_`.
pub fn replace_ifname(s: &str) -> (r: String)
    ensures
        r@ == ifname_of(s@),
{
    let v = chars_of(s);
    let mut out: Vec<char> = Vec::new();
    let mut i: usize = 0;
    while i < v.len()
        invariant
            v@ == s@,
            0 <= i <= v.len(),
            out@ == ifname_of(v@.subrange(0, i as int)),
        decreases v.len() - i,
    {
        let c = v[i];
        if valid_ifname_chars(c) {
            out.push(c);
        } else {
            out.push('_');
        }
        i += 1;
        assert(out@ =~= ifname_of(v@.subrange(0, i as int)));
    }
    assert(v@.subrange(0, v@.len() as int) =~= v@);
    string_from(&out)
}

/// `s` without trailing spaces (`' '` only).
pub open spec fn trim_end_spaces(s: Seq<char>) -> Seq<char>
    decreases s.len(),
{
    if s.len() > 0 && s.last() == ' ' {
        trim_end_spaces(s.drop_last())
    } else {
        s
    }
}

/// Each run of ASCII whitespace in `s` becomes one `_`.
pub open spec fn collapse_ws(s: Seq<char>) -> Seq<char>
    decreases s.len(),
{
    if s.len() == 0 {
        Seq::empty()
    } else if ascii_ws(s.last()) {
        if s.len() > 1 && ascii_ws(s[s.len() - 2]) {
            collapse_ws(s.drop_last())
        } else {
            collapse_ws(s.drop_last()).push('_')
        }
    } else {
        collapse_ws(s.drop_last()).push(s.last())
    }
}

/// Removes trailing spaces and turns every run of ASCII whitespace into a
/// single `_`.
pub fn replace_whitespace(s: &str) -> (r: String)
    ensures
        r@ == collapse_ws(trim_end_spaces(s@)),
        forall|k: int| 0 <= k < r@.len() ==> !ascii_ws(#[trigger] r@[k]),
        collapse_ws(trim_end_spaces(r@)) == r@,
{
    proof {
        law_replace_whitespace(s@);
    }
    let v = chars_of(s);
    let mut end = v.len();
    assert(v@.subrange(0, end as int) =~= v@);
    while end > 0 && v[end - 1] == ' '
        invariant
            v@ == s@,
            0 <= end <= v.len(),
            trim_end_spaces(s@) == trim_end_spaces(v@.subrange(0, end as int)),
        decreases end,
    {
        assert(v@.subrange(0, end as int).drop_last() =~= v@.subrange(0, end - 1));
        end -= 1;
    }
    assert(v@.subrange(0, end as int) == trim_end_spaces(v@.subrange(0, end as int)));
    let ghost t = v@.subrange(0, end as int);
    let mut out: Vec<char> = Vec::new();
    let mut cont = false;
    let mut i: usize = 0;
    while i < end
        invariant
            0 <= i <= end <= v.len(),
            t == v@.subrange(0, end as int),
            out@ == collapse_ws(t.subrange(0, i as int)),
            cont == (i > 0 && ascii_ws(t[i - 1])),
        decreases end - i,
    {
        let c = v[i];
        let ghost p = t.subrange(0, i + 1);
        assert(p.drop_last() =~= t.subrange(0, i as int));
        assert(p.last() == c);
        if is_ascii_ws(c) {
            if !cont {
                out.push('_');
            }
            cont = true;
        } else {
            cont = false;
            out.push(c);
        }
        i += 1;
    }
    assert(t.subrange(0, end as int) =~= t);
    string_from(&out)
}

/// Lower-case hexadecimal digit of `d` (below 16).
pub open spec fn hex_digit(d: u32) -> char {
    if d < 10 {
        (('0' as u32) + d) as char
    } else {
        (('a' as u32) + d - 10) as char
    }
}

fn hex_digit_exec(d: u32) -> (c: char)
    requires
        d < 16,
    ensures
        c == hex_digit(d),
{
    if d < 10 {
        ((('0' as u32) + d) as u8) as char
    } else {
        ((('a' as u32) + d - 10) as u8) as char
    }
}

/// How [`encode_devnode_name`] writes one character: multi-byte
/// characters as they are, `\` and characters that may not stand in a
/// device node name as `\xNN`, the others as they are.
pub open spec fn encode_char(c: char) -> Seq<char> {
    if (c as u32) >= 128 {
        seq![c]
    } else if c == '\\' || !devnode_char(c, Seq::empty()) {
        seq!['\\', 'x', hex_digit((c as u32) / 16), hex_digit((c as u32) % 16)]
    } else {
        seq![c]
    }
}

/// [`encode_devnode_name`] of `s`.
pub open spec fn encode_name(s: Seq<char>) -> Seq<char>
    decreases s.len(),
{
    if s.len() == 0 {
        Seq::empty()
    } else {
        encode_name(s.drop_last()) + encode_char(s.last())
    }
}

/// Why a name could not be encoded.
#[derive(Debug, Clone, Copy, PartialEq, Eq, Structural)]
pub enum EncodeError {
    /// the name is empty
    Empty,
}

/// Appends the device-node-name encoding of `str` to `str_enc`; an empty
/// name is an error and leaves the buffer as it was.
pub fn encode_devnode_name(str: &str, str_enc: &mut String) -> (r: Result<(), EncodeError>)
    ensures
        r is Err <==> str@.len() == 0,
        r matches Err(e) ==> e == EncodeError::Empty && final(str_enc)@ == old(str_enc)@,
        r is Ok ==> final(str_enc)@ == old(str_enc)@ + encode_name(str@),
{
    if str.is_empty() {
        return Err(EncodeError::Empty);
    }
    let v = chars_of(str);
    let mut out: Vec<char> = Vec::new();
    let mut i: usize = 0;
    while i < v.len()
        invariant
            v@ == str@,
            0 <= i <= v.len(),
            out@ == encode_name(v@.subrange(0, i as int)),
        decreases v.len() - i,
    {
        let c = v[i];
        let ghost p = v@.subrange(0, i + 1);
        assert(p.drop_last() =~= v@.subrange(0, i as int));
        if (c as u32) >= 128 {
            out.push(c);
        } else if c == '\\' || !valid_devnode_chars(c, "") {
            proof {
                reveal_strlit("");
                assert(""@ =~= Seq::<char>::empty());
            }
            out.push('\\');
            out.push('x');
            out.push(hex_digit_exec((c as u32) / 16));
            out.push(hex_digit_exec((c as u32) % 16));
        } else {
            proof {
                reveal_strlit("");
                assert(""@ =~= Seq::<char>::empty());
            }
            out.push(c);
        }
        assert(out@ =~= encode_name(v@.subrange(0, i + 1)));
        i += 1;
    }
    assert(v@.subrange(0, v@.len() as int) =~= v@);
    string_extend(str_enc, &out);
    Ok(())
}

/// Why a `KEY=VALUE` property line was rejected.
#[derive(Debug, Clone, Copy, PartialEq, Eq, Structural)]
pub enum PropertyError {
    /// the line is a comment
    Commented,
    /// the line does not have the `KEY=VALUE` shape, or key or value is empty
    Malformed,
    /// the value's quotes do not match
    UnmatchedQuotes,
}

/// State, key and value after reading `s` with the property scanner:
/// state 0 reads the key, 1 waits for `=`, 2 skips whitespace before the
/// value, 3 reads the value.
pub open spec fn prop_scan(s: Seq<char>) -> (int, Seq<char>, Seq<char>)
    decreases s.len(),
{
    if s.len() == 0 {
        (0, Seq::empty(), Seq::empty())
    } else {
        let (st, k, v) = prop_scan(s.drop_last());
        let c = s.last();
        if st == 0 {
            if ascii_ws(c) {
                (1, k, v)
            } else if c == '=' {
                (2, k, v)
            } else {
                (0, k.push(c), v)
            }
        } else if st == 1 {
            if c == '=' {
                (2, k, v)
            } else {
                (1, k, v)
            }
        } else if st == 2 {
            if ascii_ws(c) {
                (2, k, v)
            } else {
                (3, k, v.push(c))
            }
        } else {
            (3, k, v.push(c))
        }
    }
}

/// `c` is a quote character.
pub open spec fn quote(c: char) -> bool {
    c == '"' || c == '\''
}

/// The value part that the property scanner finds in `s`.
pub open spec fn prop_value(s: Seq<char>) -> Seq<char> {
    prop_scan(trim_ws(s)).2
}

/// The key and value of the property line `s`.
pub open spec fn property_of(s: Seq<char>) -> Result<(Seq<char>, Seq<char>), PropertyError> {
    let t = trim_ws(s);
    let (st, k, v) = prop_scan(t);
    if t.len() > 0 && t[0] == '#' {
        Err(PropertyError::Commented)
    } else if k.len() == 0 || v.len() == 0 {
        Err(PropertyError::Malformed)
    } else if quote(v[0]) {
        if v.len() < 2 || v.last() != v[0] {
            Err(PropertyError::UnmatchedQuotes)
        } else {
            Ok((k, v.subrange(1, v.len() - 1)))
        }
    } else if quote(v.last()) {
        Err(PropertyError::UnmatchedQuotes)
    } else {
        Ok((k, v))
    }
}

/// Splits a `KEY=VALUE` line.  The key ends at whitespace or `=`; the value
/// starts at the first non-whitespace character after `=` and runs to the
/// end of the trimmed line; a value in matching quotes loses them.
pub fn get_property_from_string(s: &str) -> (r: Result<(String, String), PropertyError>)
    ensures
        r matches Ok((k, v)) ==> property_of(s@) == Ok::<(Seq<char>, Seq<char>), PropertyError>((k@, v@)),
        r matches Err(e) ==> property_of(s@) == Err::<(Seq<char>, Seq<char>), PropertyError>(e),
{
    let all = chars_of(s);
    let (lo, hi) = trim_bounds(&all, 0, all.len());
    assert(all@.subrange(0, all@.len() as int) =~= s@);
    if lo < hi && all[lo] == '#' {
        return Err(PropertyError::Commented);
    }
    let (key, value) = scan_property(&all, lo, hi);
    if key.len() == 0 || value.len() == 0 {
        return Err(PropertyError::Malformed);
    }
    let first = value[0];
    let last = value[value.len() - 1];
    if first == '"' || first == '\'' {
        if value.len() < 2 || last != first {
            return Err(PropertyError::UnmatchedQuotes);
        }
        let inner = string_from_range(&value, 1, value.len() - 1);
        Ok((string_from(&key), inner))
    } else if last == '"' || last == '\'' {
        Err(PropertyError::UnmatchedQuotes)
    } else {
        Ok((string_from(&key), string_from(&value)))
    }
}

/// The key and value that the property scanner finds in `all[lo..hi]`.
fn scan_property(all: &Vec<char>, lo: usize, hi: usize) -> (r: (Vec<char>, Vec<char>))
    requires
        lo <= hi <= all.len(),
    ensures
        prop_scan(all@.subrange(lo as int, hi as int)).1 == r.0@,
        prop_scan(all@.subrange(lo as int, hi as int)).2 == r.1@,
{
    let ghost t = all@.subrange(lo as int, hi as int);
    let mut st: u8 = 0;
    let mut key: Vec<char> = Vec::new();
    let mut value: Vec<char> = Vec::new();
    let mut i = lo;
    assert(t.subrange(0, 0) =~= Seq::<char>::empty());
    while i < hi
        invariant
            lo <= i <= hi <= all.len(),
            t == all@.subrange(lo as int, hi as int),
            prop_scan(t.subrange(0, i - lo)) == (st as int, key@, value@),
        decreases hi - i,
    {
        let c = all[i];
        let ghost p = t.subrange(0, i + 1 - lo);
        assert(p.drop_last() =~= t.subrange(0, i - lo));
        assert(p.last() == c);
        if st == 0 {
            if is_ascii_ws(c) {
                st = 1;
            } else if c == '=' {
                st = 2;
            } else {
                key.push(c);
            }
        } else if st == 1 {
            if c == '=' {
                st = 2;
            }
        } else if st == 2 {
            if !is_ascii_ws(c) {
                st = 3;
                value.push(c);
            }
        } else {
            value.push(c);
        }
        i += 1;
    }
    assert(t.subrange(0, hi - lo) =~= t);
    (key, value)
}

/// The properties of the lines of `lines` that read as `KEY=VALUE`, in
/// order.
pub open spec fn properties_of(lines: Seq<Seq<char>>) -> Seq<(Seq<char>, Seq<char>)>
    decreases lines.len(),
{
    if lines.len() == 0 {
        Seq::empty()
    } else {
        let rest = properties_of(lines.drop_last());
        match property_of(lines.last()) {
            Ok(kv) => rest.push(kv),
            Err(_) => rest,
        }
    }
}

/// The properties that `IMPORT{file}` and `IMPORT{program}` take from a
/// text: one per line that reads as `KEY=VALUE`, in order; the other
/// lines are passed over.
pub fn imported_properties(content: &str) -> (r: Vec<(String, String)>)
    ensures
        r@.map_values(|p: (String, String)| (p.0@, p.1@)) == properties_of(split_on(content@, '\n')),
{
    let lines = split_char(content, '\n');
    let ghost lv = lines@.map_values(|p: &str| p@);
    let mut out: Vec<(String, String)> = Vec::new();
    let mut i: usize = 0;
    assert(lv.take(0) =~= Seq::<Seq<char>>::empty());
    while i < lines.len()
        invariant
            0 <= i <= lines@.len(),
            lv == lines@.map_values(|p: &str| p@),
            lv == split_on(content@, '\n'),
            out@.map_values(|p: (String, String)| (p.0@, p.1@)) == properties_of(lv.take(i as int)),
        decreases lines@.len() - i,
    {
        assert(lv.take(i + 1).drop_last() =~= lv.take(i as int));
        assert(lv.take(i + 1).last() == lines@[i as int]@);
        let ghost before = out@.map_values(|p: (String, String)| (p.0@, p.1@));
        match get_property_from_string(lines[i]) {
            Ok((k, v)) => {
                out.push((k, v));
                assert(out@.map_values(|p: (String, String)| (p.0@, p.1@)) =~= before.push((out@.last().0@, out@.last().1@)));
            },
            Err(_) => {},
        }
        i += 1;
    }
    assert(lv.take(i as int) =~= lv);
    out
}

/// Whether every character of `s` satisfies `f`; the characters are tried
/// in order and the first failure stops the walk.
pub fn str_satisfy<F: Fn(char) -> bool>(s: &str, f: F) -> (r: bool)
    requires
        forall|c: char| f.requires((c,)),
    ensures
        r ==> forall|i: int| 0 <= i < s@.len() ==> f.ensures((s@[i],), true),
        !r ==> exists|i: int| 0 <= i < s@.len() && f.ensures((s@[i],), false),
{
    let v = chars_of(s);
    let mut i: usize = 0;
    while i < v.len()
        invariant
            v@ == s@,
            0 <= i <= v.len(),
            forall|c: char| f.requires((c,)),
            forall|j: int| 0 <= j < i ==> f.ensures((s@[j],), true),
        decreases v.len() - i,
    {
        let ok = f(v[i]);
        if !ok {
            return false;
        }
        i += 1;
    }
    true
}

/// Length of the part of `s` before the first `/` (all of `s` if none).
pub open spec fn first_component_len(s: Seq<char>) -> int
    decreases s.len(),
{
    if s.len() == 0 || s[0] == '/' {
        0
    } else {
        1 + first_component_len(s.drop_first())
    }
}

/// Index of the first `/` in `v[from..]`, or `v.len()`.
fn find_slash(v: &Vec<char>, from: usize) -> (r: usize)
    requires
        from <= v.len(),
    ensures
        from <= r <= v.len(),
        r - from == first_component_len(v@.subrange(from as int, v@.len() as int)),
{
    let mut i = from;
    while i < v.len() && v[i] != '/'
        invariant
            from <= i <= v.len(),
            forall|k: int| from <= k < i ==> v@[k] != '/',
        decreases v.len() - i,
    {
        i += 1;
    }
    proof {
        lemma_first_component(v@.subrange(from as int, v@.len() as int), (i - from) as int);
    }
    i
}

pub proof fn lemma_first_component(s: Seq<char>, n: int)
    requires
        0 <= n <= s.len(),
        forall|k: int| 0 <= k < n ==> s[k] != '/',
        n < s.len() ==> s[n] == '/',
    ensures
        first_component_len(s) == n,
    decreases s.len(),
{
    if n > 0 {
        let d = s.drop_first();
        assert forall|k: int| 0 <= k < n - 1 implies d[k] != '/' by {
            assert(d[k] == s[k + 1]);
        }
        if n < s.len() {
            assert(d[n - 1] == s[n]);
        }
        lemma_first_component(d, n - 1);
    }
}

/// The first path component of `s` after `prefix`: `None` when `s` does not
/// start with `prefix`, otherwise the text up to the next `/`.
pub fn get_first_path_component<'a>(s: &'a str, prefix: &str) -> (r: Option<&'a str>)
    ensures
        !is_prefix(prefix@, s@) ==> r is None,
        is_prefix(prefix@, s@) ==> r is Some && r.unwrap()@ == s@.subrange(
            prefix@.len() as int,
            prefix@.len() + first_component_len(s@.subrange(prefix@.len() as int, s@.len() as int)),
        ),
{
    let v = chars_of(s);
    let p = chars_of(prefix);
    assert(v@.subrange(0, v@.len() as int) =~= v@);
    if !has_prefix_at(&v, 0, &p) {
        return None;
    }
    let start = p.len();
    let end = find_slash(&v, start);
    Some(s.substring_char(start, end))
}

/// The parts of a `[<SUBSYSTEM>/<KERNEL>]<attribute>` string: subsystem,
/// sysname and attribute (without leading slashes).
pub struct SubsystemKernel {
    pub subsystem: String,
    pub sysname: String,
    pub attribute: String,
}

/// `s` without leading `/` characters.
pub open spec fn trim_start_slashes(s: Seq<char>) -> Seq<char>
    decreases s.len(),
{
    if s.len() > 0 && s[0] == '/' {
        trim_start_slashes(s.drop_first())
    } else {
        s
    }
}

/// State, subsystem, sysname and attribute after scanning `s` (the text
/// after the opening `[`): state 0 reads the subsystem up to `/`, 1 the
/// sysname up to `]`, 2 the attribute.
pub open spec fn subsys_scan(s: Seq<char>) -> (int, Seq<char>, Seq<char>, Seq<char>)
    decreases s.len(),
{
    if s.len() == 0 {
        (0, Seq::empty(), Seq::empty(), Seq::empty())
    } else {
        let (st, a, b, c) = subsys_scan(s.drop_last());
        let ch = s.last();
        if st == 0 {
            if ch == '/' {
                (1, a, b, c)
            } else {
                (0, a.push(ch), b, c)
            }
        } else if st == 1 {
            if ch == ']' {
                (2, a, b, c)
            } else {
                (1, a, b.push(ch), c)
            }
        } else {
            (2, a, b, c.push(ch))
        }
    }
}

/// The parts of `s`, if it has the `[<SUBSYSTEM>/<KERNEL>]<attribute>`
/// shape with non-empty subsystem and sysname (and, when the attribute is
/// to be read, a non-empty attribute).
pub open spec fn subsystem_kernel_of(s: Seq<char>, read: bool) -> Option<(Seq<char>, Seq<char>, Seq<char>)> {
    if s.len() == 0 || s[0] != '[' {
        None
    } else {
        let (st, a, b, c) = subsys_scan(s.drop_first());
        let attr = trim_start_slashes(c);
        if a.len() == 0 || b.len() == 0 || st != 2 || (read && attr.len() == 0) {
            None
        } else {
            Some((a, b, attr))
        }
    }
}

/// Splits `[<SUBSYSTEM>/<KERNEL>]<attribute>`; the device that it names is
/// looked up by the caller.
pub fn parse_subsystem_kernel(s: &str, read: bool) -> (r: Result<SubsystemKernel, RulesError>)
    ensures
        r matches Ok(p) ==> subsystem_kernel_of(s@, read) == Some((p.subsystem@, p.sysname@, p.attribute@)),
        r is Err ==> subsystem_kernel_of(s@, read) is None,
        r matches Err(e) ==> e == RulesError::InvalidValue,
{
    let v = chars_of(s);
    if v.len() == 0 || v[0] != '[' {
        return Err(RulesError::InvalidValue);
    }
    let ghost t = v@.drop_first();
    let mut st: u8 = 0;
    let mut a: Vec<char> = Vec::new();
    let mut b: Vec<char> = Vec::new();
    let mut c: Vec<char> = Vec::new();
    let mut i: usize = 1;
    assert(t.subrange(0, 0) =~= Seq::<char>::empty());
    while i < v.len()
        invariant
            1 <= i <= v.len(),
            t == v@.drop_first(),
            subsys_scan(t.subrange(0, i - 1)) == (st as int, a@, b@, c@),
        decreases v.len() - i,
    {
        let ch = v[i];
        let ghost p = t.subrange(0, i as int);
        assert(p.drop_last() =~= t.subrange(0, i - 1));
        assert(p.last() == ch);
        if st == 0 {
            if ch == '/' {
                st = 1;
            } else {
                a.push(ch);
            }
        } else if st == 1 {
            if ch == ']' {
                st = 2;
            } else {
                b.push(ch);
            }
        } else {
            c.push(ch);
        }
        i += 1;
    }
    assert(t.subrange(0, v.len() - 1) =~= t);
    if a.len() == 0 || b.len() == 0 || st != 2 {
        return Err(RulesError::InvalidValue);
    }
    let mut k: usize = 0;
    assert(c@.subrange(0, c@.len() as int) =~= c@);
    while k < c.len() && c[k] == '/'
        invariant
            0 <= k <= c.len(),
            trim_start_slashes(c@) == trim_start_slashes(c@.subrange(k as int, c@.len() as int)),
        decreases c.len() - k,
    {
        assert(c@.subrange(k as int, c@.len() as int).drop_first() =~= c@.subrange(k + 1, c@.len() as int));
        k += 1;
    }
    let attribute = string_from_range(&c, k, c.len());
    if read && k == c.len() {
        return Err(RulesError::InvalidValue);
    }
    Ok(SubsystemKernel { subsystem: string_from(&a), sysname: string_from(&b), attribute })
}

/// The first position at or after `from` where `s` holds `/*/`.
pub open spec fn first_glob(s: Seq<char>, from: int) -> Option<int>
    decreases s.len() - from,
{
    if from < 0 || from + 3 > s.len() {
        None
    } else if s[from] == '/' && s[from + 1] == '*' && s[from + 2] == '/' {
        Some(from)
    } else {
        first_glob(s, from + 1)
    }
}

pub proof fn lemma_first_glob(s: Seq<char>, from: int)
    requires
        0 <= from,
    ensures
        first_glob(s, from) matches Some(k) ==> from <= k && k + 3 <= s.len(),
    decreases s.len() - from,
{
    if from + 3 <= s.len() && !(s[from] == '/' && s[from + 1] == '*' && s[from + 2] == '/') {
        lemma_first_glob(s, from + 1);
    }
}

/// Splits a sysfs attribute path at its first `/*/`, which stands for any
/// one subdirectory: the directory (with its `/`) and the rest after the
/// wildcard; `None` where the path has no wildcard and stands as it is.
/// The caller tries each subdirectory of the directory, in the order the
/// directory lists them, and takes the first under which the rest exists.
pub fn sysattr_subdir_split(sysattr: &str) -> (r: Option<(String, String)>)
    ensures
        match first_glob(sysattr@, 0) {
            Some(k) => r matches Some((d, t)) && d@ == sysattr@.subrange(0, k + 1) && t@
                == sysattr@.subrange(k + 3, sysattr@.len() as int),
            None => r is None,
        },
{
    let v = chars_of(sysattr);
    let mut k: usize = 0;
    proof {
        lemma_first_glob(v@, 0);
    }
    while k < v.len() && 3 <= v.len() - k
        invariant
            v@ == sysattr@,
            0 <= k,
            first_glob(v@, 0) == first_glob(v@, k as int),
        decreases v.len() - k,
    {
        if v[k] == '/' && v[k + 1] == '*' && v[k + 2] == '/' {
            let d = string_from_range(&v, 0, k + 1);
            let t = string_from_range(&v, k + 3, v.len());
            return Some((d, t));
        }
        k += 1;
    }
    None
}

/// Scanning from position `p.len() + j` of `p + u` is scanning `u` from `j`.
proof fn lemma_replace_shift(p: Seq<char>, u: Seq<char>, wl: Seq<char>, j: int)
    requires
        0 <= j,
    ensures
        replace_from(p + u, wl, p.len() + j) == replace_from(u, wl, j),
    decreases u.len() - j,
{
    let t = p + u;
    let k = p.len() + j;
    if j < u.len() {
        assert(t[k] == u[j]);
        if j + 1 < u.len() {
            assert(t[k + 1] == u[j + 1]);
        }
        if devnode_char(u[j], wl) || (u[j] as u32) >= 128 {
            lemma_replace_shift(p, u, wl, j + 1);
        } else if u[j] == '\\' && j + 1 < u.len() && u[j + 1] == 'x' {
            lemma_replace_shift(p, u, wl, j + 2);
        } else {
            lemma_replace_shift(p, u, wl, j + 1);
        }
    }
}

/// What the scan writes is left as it is by a second scan.
proof fn lemma_replace_stable(s: Seq<char>, wl: Seq<char>, i: int)
    requires
        0 <= i,
    ensures
        replace_from(replace_from(s, wl, i), wl, 0) == replace_from(s, wl, i),
    decreases s.len() - i,
{
    if i < s.len() {
        reveal_strlit("#+-.:=@_");
        assert("#+-.:=@_"@[7] == '_');
        let c = s[i];
        if devnode_char(c, wl) || (c as u32) >= 128 {
            let rest = replace_from(s, wl, i + 1);
            lemma_replace_stable(s, wl, i + 1);
            let piece = seq![c];
            lemma_replace_shift(piece, rest, wl, 0);
            assert((piece + rest)[0] == c);
        } else if c == '\\' && i + 1 < s.len() && s[i + 1] == 'x' {
            let rest = replace_from(s, wl, i + 2);
            lemma_replace_stable(s, wl, i + 2);
            let piece = seq!['\\', 'x'];
            let t = piece + rest;
            assert(t[0] == '\\' && t[1] == 'x');
            lemma_replace_shift(piece, rest, wl, 0);
            if devnode_char('\\', wl) {
                assert(devnode_char('x', wl));
                assert(replace_from(t, wl, 1) == seq!['x'] + replace_from(t, wl, 2));
            }
        } else {
            let rest = replace_from(s, wl, i + 1);
            lemma_replace_stable(s, wl, i + 1);
            let out = if unicode_ws(c) && wl.contains(' ') { ' ' } else { '_' };
            let piece = seq![out];
            assert(devnode_char(out, wl));
            lemma_replace_shift(piece, rest, wl, 0);
            assert((piece + rest)[0] == out);
        }
    }
}

/// Replacing the characters that may not stand in a device node name
/// changes nothing the second time: what it writes is kept as it is.
pub proof fn law_replace_chars_idempotent(s: Seq<char>, white_list: Seq<char>)
    ensures
        replace_from(replace_from(s, white_list, 0), white_list, 0) == replace_from(s, white_list, 0),
{
    lemma_replace_stable(s, white_list, 0);
}

/// A character the replacement may write at position `k` of `r`: one
/// that may stand in a device node name, one beyond ASCII, or the
/// backslash of a kept `\x`.
pub open spec fn written_ok(r: Seq<char>, wl: Seq<char>, k: int) -> bool {
    devnode_char(r[k], wl) || (r[k] as u32) >= 128 || (r[k] == '\\' && k + 1 < r.len() && r[k + 1] == 'x')
}

/// Every character that the replacement writes is one of [`written_ok`].
proof fn lemma_replace_chars_valid(s: Seq<char>, wl: Seq<char>, i: int)
    requires
        0 <= i,
    ensures
        forall|k: int| 0 <= k < replace_from(s, wl, i).len() ==> #[trigger] written_ok(replace_from(s, wl, i), wl, k),
    decreases s.len() - i,
{
    if i < s.len() {
        reveal_strlit("#+-.:=@_");
        assert("#+-.:=@_"@[7] == '_');
        let c = s[i];
        let r = replace_from(s, wl, i);
        if devnode_char(c, wl) || (c as u32) >= 128 {
            let r1 = replace_from(s, wl, i + 1);
            lemma_replace_chars_valid(s, wl, i + 1);
            assert forall|k: int| 0 <= k < r.len() implies #[trigger] written_ok(r, wl, k) by {
                if k > 0 {
                    assert(r[k] == r1[k - 1]);
                    assert(written_ok(r1, wl, k - 1));
                    if k + 1 < r.len() {
                        assert(r[k + 1] == r1[k]);
                    }
                }
            }
        } else if c == '\\' && i + 1 < s.len() && s[i + 1] == 'x' {
            let r2 = replace_from(s, wl, i + 2);
            lemma_replace_chars_valid(s, wl, i + 2);
            assert(ascii_alnum('x'));
            assert forall|k: int| 0 <= k < r.len() implies #[trigger] written_ok(r, wl, k) by {
                if k > 1 {
                    assert(r[k] == r2[k - 2]);
                    assert(written_ok(r2, wl, k - 2));
                    if k + 1 < r.len() {
                        assert(r[k + 1] == r2[k - 1]);
                    }
                }
            }
        } else {
            let r1 = replace_from(s, wl, i + 1);
            lemma_replace_chars_valid(s, wl, i + 1);
            let out = if unicode_ws(c) && wl.contains(' ') { ' ' } else { '_' };
            assert(devnode_char(out, wl));
            assert forall|k: int| 0 <= k < r.len() implies #[trigger] written_ok(r, wl, k) by {
                if k > 0 {
                    assert(r[k] == r1[k - 1]);
                    assert(written_ok(r1, wl, k - 1));
                    if k + 1 < r.len() {
                        assert(r[k + 1] == r1[k]);
                    }
                }
            }
        }
    }
}

/// What the replacement writes may stand in a device node name: each
/// character is valid there, lies beyond ASCII, or is the backslash of a
/// `\x` escape.
pub proof fn law_replace_chars_valid(s: Seq<char>, white_list: Seq<char>)
    ensures
        forall|k: int| 0 <= k < replace_from(s, white_list, 0).len()
            ==> #[trigger] written_ok(replace_from(s, white_list, 0), white_list, k),
{
    lemma_replace_chars_valid(s, white_list, 0);
}

/// What the replacement writes for position `k` of `s`: the character
/// itself where it may stand in a device node name, lies beyond ASCII or
/// is the backslash of `\x`; a space for whitespace where the white list
/// holds one; `_` otherwise.
pub open spec fn replaced_char(s: Seq<char>, wl: Seq<char>, k: int) -> char {
    let c = s[k];
    if devnode_char(c, wl) || (c as u32) >= 128 || (c == '\\' && k + 1 < s.len() && s[k + 1] == 'x') {
        c
    } else if unicode_ws(c) && wl.contains(' ') {
        ' '
    } else {
        '_'
    }
}

proof fn lemma_replace_positions(s: Seq<char>, wl: Seq<char>, i: int)
    requires
        0 <= i <= s.len(),
    ensures
        replace_from(s, wl, i) == Seq::new((s.len() - i) as nat, |k: int| replaced_char(s, wl, i + k)),
    decreases s.len() - i,
{
    let want = Seq::new((s.len() - i) as nat, |k: int| replaced_char(s, wl, i + k));
    if i == s.len() {
        assert(replace_from(s, wl, i) =~= want);
    } else {
        let c = s[i];
        if devnode_char(c, wl) || (c as u32) >= 128 {
            lemma_replace_positions(s, wl, i + 1);
            assert(replace_from(s, wl, i) =~= want);
        } else if c == '\\' && i + 1 < s.len() && s[i + 1] == 'x' {
            lemma_replace_positions(s, wl, i + 2);
            assert(ascii_alnum('x'));
            assert(devnode_char(s[i + 1], wl));
            assert(replace_from(s, wl, i) =~= want);
        } else {
            lemma_replace_positions(s, wl, i + 1);
            assert(replace_from(s, wl, i) =~= want);
        }
    }
}

/// The replacement works position by position: the result is as long as
/// `s`, and each of its characters is [`replaced_char`] of the same
/// position of `s`.
pub proof fn law_replace_chars_positions(s: Seq<char>, white_list: Seq<char>)
    ensures
        replace_from(s, white_list, 0).len() == s.len(),
        forall|k: int| 0 <= k < s.len() ==> #[trigger] replace_from(s, white_list, 0)[k] == replaced_char(s, white_list, k),
{
    lemma_replace_positions(s, white_list, 0);
}

/// Replacing the characters that may not stand in an interface name
/// yields a valid interface name, and changes nothing the second time.
pub proof fn law_replace_ifname(s: Seq<char>)
    ensures
        forall|k: int| 0 <= k < ifname_of(s).len() ==> ifname_char(#[trigger] ifname_of(s)[k]),
        ifname_of(ifname_of(s)) == ifname_of(s),
{
    assert(ifname_char('_'));
    assert(ifname_of(ifname_of(s)) =~= ifname_of(s));
}

proof fn lemma_collapse_no_ws(s: Seq<char>)
    ensures
        forall|k: int| 0 <= k < collapse_ws(s).len() ==> !ascii_ws(#[trigger] collapse_ws(s)[k]),
    decreases s.len(),
{
    if s.len() > 0 {
        lemma_collapse_no_ws(s.drop_last());
        let r = collapse_ws(s);
        let r0 = collapse_ws(s.drop_last());
        assert(!ascii_ws('_'));
        assert forall|k: int| 0 <= k < r.len() implies !ascii_ws(#[trigger] r[k]) by {
            if k < r0.len() {
                assert(r[k] == r0[k]);
            }
        }
    }
}

proof fn lemma_collapse_plain(s: Seq<char>)
    requires
        forall|k: int| 0 <= k < s.len() ==> !ascii_ws(#[trigger] s[k]),
    ensures
        collapse_ws(s) == s,
        trim_end_spaces(s) == s,
    decreases s.len(),
{
    if s.len() > 0 {
        assert(!ascii_ws(s[s.len() - 1]));
        assert(s.last() == s[s.len() - 1]);
        assert forall|k: int| 0 <= k < s.drop_last().len() implies !ascii_ws(#[trigger] s.drop_last()[k]) by {
            assert(s.drop_last()[k] == s[k]);
        }
        lemma_collapse_plain(s.drop_last());
        assert(s.drop_last().push(s.last()) =~= s);
        assert(ascii_ws(' '));
    }
}

/// Replacing whitespace leaves none (each run becomes one `_`, trailing
/// spaces go), so a second replacement changes nothing.
pub proof fn law_replace_whitespace(s: Seq<char>)
    ensures
        forall|k: int| 0 <= k < collapse_ws(trim_end_spaces(s)).len()
            ==> !ascii_ws(#[trigger] collapse_ws(trim_end_spaces(s))[k]),
        collapse_ws(trim_end_spaces(collapse_ws(trim_end_spaces(s)))) == collapse_ws(trim_end_spaces(s)),
{
    let r = collapse_ws(trim_end_spaces(s));
    lemma_collapse_no_ws(trim_end_spaces(s));
    lemma_collapse_plain(r);
}

} // verus!
