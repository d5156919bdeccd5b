//! Naming of the directories that record which devices claim a symlink.

use vstd::prelude::*;
use crate::text::{
    all_digits, ascii_digit, chars_of, decimal, digit_char, digits_value, has_prefix_at, is_prefix, parse_int,
    parse_int_range, push_decimal, split_char, split_on, string_extend, string_from_range, string_of,
    string_push,
};

verus! {

/// `s` with each `/` written as `\x2f` and each backslash as `\x5c`.
pub open spec fn escaped(s: Seq<char>) -> Seq<char>
    decreases s.len(),
{
    if s.len() == 0 {
        Seq::empty()
    } else {
        let c = s.last();
        escaped(s.drop_last()) + (if c == '/' {
            seq!['\\', 'x', '2', 'f']
        } else if c == '\\' {
            seq!['\\', 'x', '5', 'c']
        } else {
            seq![c]
        })
    }
}

/// Escapes a symlink name for use as one path component.
pub fn escape_prior_dir(symlink: &str) -> (r: String)
    ensures
        r@ == escaped(symlink@),
{
    let v = crate::text::chars_of(symlink);
    let mut out: Vec<char> = Vec::new();
    let mut i: usize = 0;
    assert(v@.take(0) =~= Seq::<char>::empty());
    while i < v.len()
        invariant
            0 <= i <= v.len(),
            out@ == escaped(v@.take(i as int)),
        decreases v.len() - i,
    {
        let c = v[i];
        assert(v@.take(i + 1).drop_last() =~= v@.take(i as int));
        if c == '/' {
            out.push('\\');
            out.push('x');
            out.push('2');
            out.push('f');
        } else if c == '\\' {
            out.push('\\');
            out.push('x');
            out.push('5');
            out.push('c');
        } else {
            out.push(c);
        }
        i += 1;
        assert(out@ =~= escaped(v@.take(i as int)));
    }
    assert(v@.take(i as int) =~= symlink@);
    crate::text::string_from(&out)
}

/// The escaped name of a non-empty name does not end in a backslash.
proof fn lemma_escaped_last(s: Seq<char>)
    requires
        s.len() > 0,
    ensures
        escaped(s).len() > 0,
        escaped(s).last() != '\\',
        escaped(s).last() == 'x' ==> s.last() == 'x',
        escaped(s).last() == '2' ==> s.last() == '2',
        escaped(s).last() == '5' ==> s.last() == '5',
{
}

/// Dropping the last character of a name drops the last block of its
/// escaped form.
proof fn lemma_escaped_split(s: Seq<char>)
    requires
        s.len() > 0,
    ensures
        escaped(s) == escaped(s.drop_last()) + (if s.last() == '/' {
            seq!['\\', 'x', '2', 'f']
        } else if s.last() == '\\' {
            seq!['\\', 'x', '5', 'c']
        } else {
            seq![s.last()]
        }),
{
}

/// An escaped name that ends in `\x` followed by `d` and then `e`, where
/// `d` and `e` stand for themselves, comes from no name whose last
/// character stands for itself.
proof fn lemma_no_fake_escape(b: Seq<char>, d: char, e: char)
    requires
        b.len() > 0,
        b.last() == e,
        e != '/' && e != '\\',
        d == '2' || d == '5',
    ensures
        !(escaped(b).len() >= 4 && escaped(b)[escaped(b).len() - 4] == '\\' && escaped(b)[escaped(b).len()
            - 3] == 'x' && escaped(b)[escaped(b).len() - 2] == d),
{
    if escaped(b).len() >= 4 && escaped(b)[escaped(b).len() - 4] == '\\' && escaped(b)[escaped(b).len() - 3]
        == 'x' && escaped(b)[escaped(b).len() - 2] == d {
        let b1 = b.drop_last();
        lemma_escaped_split(b);
        let e1 = escaped(b1);
        assert(escaped(b) == e1 + seq![e]);
        assert(e1.len() >= 3);
        assert(e1.last() == d);
        lemma_escaped_last(b1);
        assert(b1.last() == d);
        let b2 = b1.drop_last();
        lemma_escaped_split(b1);
        let e2 = escaped(b2);
        assert(e1 == e2 + seq![d]);
        assert(e2.last() == 'x');
        lemma_escaped_last(b2);
        let b3 = b2.drop_last();
        lemma_escaped_split(b2);
        let e3 = escaped(b3);
        assert(e2 == e3 + seq!['x']);
        assert(e3.last() == '\\');
        lemma_escaped_last(b3);
    }
}

/// Two names with the same escaped form are the same name.
proof fn lemma_escaped_injective(a: Seq<char>, b: Seq<char>)
    requires
        escaped(a) == escaped(b),
    ensures
        a == b,
    decreases a.len() + b.len(),
{
    if a.len() == 0 || b.len() == 0 {
        if a.len() > 0 {
            lemma_escaped_last(a);
        }
        if b.len() > 0 {
            lemma_escaped_last(b);
        }
        assert(a =~= b);
    } else {
        lemma_escaped_split(a);
        lemma_escaped_split(b);
        let (ca, cb) = (a.last(), b.last());
        let (ea, eb) = (escaped(a.drop_last()), escaped(b.drop_last()));
        let n = escaped(a).len();
        if ca == '/' || ca == '\\' {
            if cb == '/' || cb == '\\' {
                assert(escaped(a).last() == (if ca == '/' { 'f' } else { 'c' }));
                assert(escaped(b).last() == (if cb == '/' { 'f' } else { 'c' }));
                assert(ca == cb);
                assert(ea =~= escaped(a).subrange(0, n - 4));
                assert(eb =~= escaped(b).subrange(0, n - 4));
            } else {
                lemma_no_fake_escape(b, if ca == '/' { '2' } else { '5' }, cb);
            }
        } else if cb == '/' || cb == '\\' {
            lemma_escaped_last(a);
            lemma_no_fake_escape(a, if cb == '/' { '2' } else { '5' }, ca);
        } else {
            assert(escaped(a).last() == ca);
            assert(escaped(b).last() == cb);
            assert(ca == cb);
            assert(ea =~= escaped(a).subrange(0, n - 1));
            assert(eb =~= escaped(b).subrange(0, n - 1));
        }
        lemma_escaped_injective(a.drop_last(), b.drop_last());
        assert(a =~= a.drop_last().push(ca));
        assert(b =~= b.drop_last().push(cb));
    }
}

/// The escaped name is one path component (it holds no `/`), and
/// different names give different escaped names, so the directories of
/// different symlinks never meet.
pub proof fn law_escape_prior_dir(a: Seq<char>, b: Seq<char>)
    ensures
        !escaped(a).contains('/'),
        escaped(a) == escaped(b) ==> a == b,
{
    lemma_escaped_no_slash(a);
    if escaped(a) == escaped(b) {
        lemma_escaped_injective(a, b);
    }
}

proof fn lemma_escaped_no_slash(s: Seq<char>)
    ensures
        !escaped(s).contains('/'),
    decreases s.len(),
{
    if s.len() > 0 {
        lemma_escaped_no_slash(s.drop_last());
        let e = escaped(s);
        let e1 = escaped(s.drop_last());
        assert forall|k: int| 0 <= k < e.len() implies e[k] != '/' by {
            if k < e1.len() {
                assert(e[k] == e1[k]);
            }
        }
    }
}



/// The directory that records which devices claim the symlink `link`,
/// given in canonical form; `None` where `link` is not under `/dev/`.
pub open spec fn prior_dir_of(link: Seq<char>) -> Option<Seq<char>> {
    if is_prefix(seq!['/', 'd', 'e', 'v', '/'], link) {
        Some("/run/devmaster/links/"@ + escaped(link.skip(5)))
    } else {
        None
    }
}

/// The claim directory of a symlink whose path is already canonical.
pub fn prior_dir_path(cano_link: &str) -> (r: Option<String>)
    ensures
        r is None <==> prior_dir_of(cano_link@) is None,
        r matches Some(p) ==> prior_dir_of(cano_link@) == Some(p@),
{
    let v = chars_of(cano_link);
    let dev = vec!['/', 'd', 'e', 'v', '/'];
    assert(v@.subrange(0, v@.len() as int) =~= v@);
    if !has_prefix_at(&v, 0, &dev) {
        return None;
    }
    let rest = string_from_range(&v, 5, v.len());
    assert(rest@ =~= cano_link@.skip(5));
    let esc = escape_prior_dir(rest.as_str());
    let mut out = string_of("/run/devmaster/links/");
    let ev = chars_of(esc.as_str());
    string_extend(&mut out, &ev);
    Some(out)
}

/// Why a claim link could not be read.
#[derive(Debug, Clone, Copy, PartialEq, Eq, Structural)]
pub enum PriorLinkError {
    /// The target is not of the form `priority:devnode`.
    Invalid,
    /// The device node that the claim names does not exist.
    NoDevice,
    /// The priority is not an `i32`.
    ParseInt,
}

/// The decimal form of a signed integer, as `ToString` writes it.
pub open spec fn signed_decimal(n: int) -> Seq<char> {
    if n < 0 {
        seq!['-'] + decimal((-n) as nat)
    } else {
        decimal(n as nat)
    }
}

/// The target of the claim link that a device with `priority` and
/// device node `devname` writes: `priority:devname`.
pub fn prior_link_target(priority: i32, devname: &str) -> (r: String)
    ensures
        r@ == signed_decimal(priority as int) + seq![':'] + devname@,
{
    let mut s = String::new();
    if priority < 0 {
        string_push(&mut s, '-');
        let m: u32 = if priority == i32::MIN { 2147483648u32 } else { (-priority) as u32 };
        push_decimal(&mut s, m);
    } else {
        push_decimal(&mut s, priority as u32);
    }
    string_push(&mut s, ':');
    let dv = chars_of(devname);
    string_extend(&mut s, &dv);
    assert(s@ =~= signed_decimal(priority as int) + seq![':'] + devname@);
    s
}

/// Splits the target of a claim link into its priority and device node
/// fields: there must be exactly two fields, separated by `:`.
pub fn prior_link_fields(pointee: &str) -> (r: Result<(String, String), PriorLinkError>)
    ensures
        r is Ok <==> split_on(pointee@, ':').len() == 2,
        r matches Ok((p, d)) ==> p@ == split_on(pointee@, ':')[0] && d@ == split_on(pointee@, ':')[1],
        r matches Err(e) ==> e == PriorLinkError::Invalid,
{
    let toks = split_char(pointee, ':');
    proof {
        assert(toks@.map_values(|p: &str| p@).len() == toks@.len());
    }
    if toks.len() != 2 {
        return Err(PriorLinkError::Invalid);
    }
    let p = string_of(toks[0]);
    let d = string_of(toks[1]);
    assert(toks@.map_values(|t: &str| t@)[0] == toks@[0]@);
    assert(toks@.map_values(|t: &str| t@)[1] == toks@[1]@);
    Ok((p, d))
}

/// What reading a claim gives, once its device node was looked up.
pub open spec fn prior_priority_of(priority: Seq<char>, devnode_exists: bool) -> Result<int, PriorLinkError> {
    if !devnode_exists {
        Err(PriorLinkError::NoDevice)
    } else {
        match parse_int(priority, i32::MIN as int, i32::MAX as int, true) {
            Some(n) => Ok(n),
            None => Err(PriorLinkError::ParseInt),
        }
    }
}

/// The priority of a claim whose fields `prior_link_fields` gave: a claim
/// on a device node that no longer exists does not count.
pub fn prior_link_priority(priority: &str, devnode_exists: bool) -> (r: Result<i32, PriorLinkError>)
    ensures
        r matches Ok(n) ==> prior_priority_of(priority@, devnode_exists) == Ok::<int, PriorLinkError>(n as int),
        r matches Err(e) ==> prior_priority_of(priority@, devnode_exists) == Err::<int, PriorLinkError>(e),
{
    if !devnode_exists {
        return Err(PriorLinkError::NoDevice);
    }
    let v = chars_of(priority);
    assert(v@.subrange(0, v@.len() as int) =~= priority@);
    match parse_int_range(&v, 0, v.len(), i32::MIN as i128, i32::MAX as i128, true) {
        Some(n) => Ok(n as i32),
        None => Err(PriorLinkError::ParseInt),
    }
}

/// Entries of the claim directory whose names start with `.` (`.`, `..`
/// and the lock file) are no claims.
pub fn skips_prior_entry(name: &str) -> (b: bool)
    ensures
        b == (name@.len() > 0 && name@[0] == '.'),
{
    let v = chars_of(name);
    v.len() > 0 && v[0] == '.'
}

/// The priority of a read claim; one that could not be read counts as
/// the lowest priority.
pub open spec fn claim_priority(e: Option<(i32, String)>) -> int {
    match e {
        Some((n, _)) => n as int,
        None => i32::MIN as int,
    }
}

/// The device node that a read claim names.
pub open spec fn claim_devnode(e: Option<(i32, String)>) -> Seq<char> {
    match e {
        Some((_, d)) => d@,
        None => Seq::empty(),
    }
}

/// Claim `i` wins: it has the highest priority, above `i32::MIN`, and no
/// earlier claim has the same.
pub open spec fn winning_claim(es: Seq<Option<(i32, String)>>, i: int) -> bool {
    &&& 0 <= i < es.len()
    &&& claim_priority(es[i]) > i32::MIN
    &&& forall|j: int| 0 <= j < es.len() ==> claim_priority(#[trigger] es[j]) <= claim_priority(es[i])
    &&& forall|j: int| 0 <= j < i ==> claim_priority(#[trigger] es[j]) < claim_priority(es[i])
}

/// The device node that the symlink should point to, from the claims in
/// the order the directory was read: the first among those of highest
/// priority, where that priority is above `i32::MIN`.
pub fn prioritized_devnode(entries: &Vec<Option<(i32, String)>>) -> (r: Option<String>)
    ensures
        r is None <==> forall|j: int| 0 <= j < entries@.len() ==> claim_priority(#[trigger] entries@[j]) == i32::MIN,
        r matches Some(d) ==> exists|i: int| winning_claim(entries@, i) && d@ == claim_devnode(entries@[i]),
{
    let mut best: i32 = i32::MIN;
    let mut idx: Option<usize> = None;
    let mut i: usize = 0;
    while i < entries.len()
        invariant
            0 <= i <= entries.len(),
            idx is None ==> best == i32::MIN && forall|j: int| 0 <= j < i ==> claim_priority(#[trigger] entries@[j]) == i32::MIN,
            idx matches Some(k) ==> {
                &&& k < i
                &&& claim_priority(entries@[k as int]) == best as int
                &&& best > i32::MIN
                &&& forall|j: int| 0 <= j < i ==> claim_priority(#[trigger] entries@[j]) <= best
                &&& forall|j: int| 0 <= j < k ==> claim_priority(#[trigger] entries@[j]) < best
            },
        decreases entries.len() - i,
    {
        match &entries[i] {
            Some((n, _)) => {
                if *n > best {
                    best = *n;
                    idx = Some(i);
                }
            },
            None => {},
        }
        i += 1;
    }
    match idx {
        Some(k) => {
            match &entries[k] {
                Some((_, d)) => {
                    let r = d.clone();
                    assert(winning_claim(entries@, k as int));
                    Some(r)
                },
                None => None,
            }
        },
        None => None,
    }
}

proof fn lemma_digit_char(k: nat)
    requires
        k < 10,
    ensures
        ascii_digit(digit_char(k)),
        digit_char(k) as int - '0' as int == k,
{
}

proof fn lemma_decimal_digits(n: nat)
    ensures
        decimal(n).len() >= 1,
        all_digits(decimal(n)),
        digits_value(decimal(n)) == n,
    decreases n,
{
    let d = decimal(n);
    if n >= 10 {
        lemma_decimal_digits(n / 10);
        lemma_digit_char(n % 10);
        assert(d.drop_last() =~= decimal(n / 10));
        assert(d.last() == digit_char(n % 10));
        assert forall|i: int| 0 <= i < d.len() implies ascii_digit(#[trigger] d[i]) by {
            if i < d.len() - 1 {
                assert(d[i] == decimal(n / 10)[i]);
            }
        }
        assert(digits_value(d) == 10 * digits_value(d.drop_last()) + (d.last() as int - '0' as int));
        assert(10 * (n / 10) + n % 10 == n) by (nonlinear_arith);
    } else {
        assert(digits_value(d) == 10 * digits_value(d.drop_last()) + (d.last() as int - '0' as int));
        assert(digits_value(Seq::<char>::empty()) == 0);
        lemma_digit_char(n);
        assert(d.drop_last() =~= Seq::<char>::empty());
        assert(d.last() == digit_char(n));
        assert forall|i: int| 0 <= i < d.len() implies ascii_digit(#[trigger] d[i]) by {
            assert(d[i] == digit_char(n));
        }
    }
}

proof fn lemma_split_no_sep(s: Seq<char>, c: char)
    requires
        !s.contains(c),
    ensures
        split_on(s, c) == seq![s],
    decreases s.len(),
{
    if s.len() > 0 {
        assert(!s.drop_last().contains(c)) by {
            if s.drop_last().contains(c) {
                let k = choose|k: int| 0 <= k < s.drop_last().len() && s.drop_last()[k] == c;
                assert(s[k] == c);
            }
        }
        lemma_split_no_sep(s.drop_last(), c);
        assert(s.last() != c) by {
            assert(s[s.len() - 1] == s.last());
        }
        let r = split_on(s.drop_last(), c);
        assert(r.len() == 1);
        assert(r.last() == s.drop_last());
        assert(split_on(s, c) == r.update(r.len() - 1, r.last().push(s.last())));
        assert(s.drop_last().push(s.last()) =~= s);
        assert(r.update(0, s.drop_last().push(s.last())) =~= seq![s]);
    } else {
        assert(s =~= Seq::<char>::empty());
    }
}

proof fn lemma_split_two(a: Seq<char>, b: Seq<char>, c: char)
    requires
        !a.contains(c),
        !b.contains(c),
    ensures
        split_on(a + seq![c] + b, c) == seq![a, b],
    decreases b.len(),
{
    if b.len() == 0 {
        assert(b =~= Seq::<char>::empty());
        lemma_split_no_sep(a, c);
        assert(a + seq![c] + b =~= a.push(c));
        assert((a + seq![c] + b).drop_last() =~= a);
        assert(seq![a].push(Seq::<char>::empty()) =~= seq![a, b]);
    } else {
        let b0 = b.drop_last();
        assert(!b0.contains(c)) by {
            if b0.contains(c) {
                let k = choose|k: int| 0 <= k < b0.len() && b0[k] == c;
                assert(b[k] == c);
            }
        }
        lemma_split_two(a, b0, c);
        let s = a + seq![c] + b;
        assert(s.drop_last() =~= a + seq![c] + b0);
        assert(s[s.len() - 1] == b[b.len() - 1]);
        assert(s.last() == b.last());
        assert(s.last() != c) by {
            assert(b[b.len() - 1] == b.last());
        }
        let r = split_on(s.drop_last(), c);
        assert(r == seq![a, b0]);
        assert(split_on(s, c) == r.update(r.len() - 1, r.last().push(s.last())));
        assert(b0.push(b.last()) =~= b);
        assert(r.update(1, b0.push(b.last())) =~= seq![a, b]);
    }
}

/// What a device writes as its claim, read back, gives its priority and
/// device node again, for a device node name without `:`.
pub proof fn law_prior_link_round_trip(priority: i32, devname: Seq<char>)
    requires
        !devname.contains(':'),
    ensures
        split_on(signed_decimal(priority as int) + seq![':'] + devname, ':')
            == seq![signed_decimal(priority as int), devname],
        prior_priority_of(signed_decimal(priority as int), true) == Ok::<int, PriorLinkError>(priority as int),
{
    let n: int = priority as int;
    let m: nat = if n < 0 { (-n) as nat } else { n as nat };
    lemma_decimal_digits(m);
    let d = decimal(m);
    let s = signed_decimal(n);
    assert(!s.contains(':')) by {
        if s.contains(':') {
            let k = choose|k: int| 0 <= k < s.len() && s[k] == ':';
            if n < 0 {
                if k > 0 {
                    assert(s[k] == d[k - 1]);
                    assert(ascii_digit(d[k - 1]));
                }
            } else {
                assert(ascii_digit(d[k]));
            }
        }
    }
    lemma_split_two(s, devname, ':');
    if n < 0 {
        assert(s.drop_first() =~= d);
    } else {
        assert(ascii_digit(d[0]));
    }
}

} // verus!
