//! Which files of the rule directories are loaded, and in what order:
//! the files whose names end in `.rules`, ordered by file name whatever
//! their directory; files of the same name keep the order in which the
//! directories listed them.

use vstd::prelude::*;
use crate::text::chars_of;

verus! {

/// `a` comes before `b` in the order of their characters.
pub open spec fn lex_lt(a: Seq<char>, b: Seq<char>) -> bool
    decreases a.len(),
{
    if a.len() == 0 {
        b.len() > 0
    } else if b.len() == 0 {
        false
    } else if a[0] != b[0] {
        a[0] < b[0]
    } else {
        lex_lt(a.drop_first(), b.drop_first())
    }
}

proof fn lemma_lex_irrefl(a: Seq<char>)
    ensures
        !lex_lt(a, a),
    decreases a.len(),
{
    if a.len() > 0 {
        lemma_lex_irrefl(a.drop_first());
    }
}

proof fn lemma_lex_total(a: Seq<char>, b: Seq<char>)
    ensures
        a == b || lex_lt(a, b) || lex_lt(b, a),
        !(lex_lt(a, b) && lex_lt(b, a)),
    decreases a.len(),
{
    if a.len() > 0 && b.len() > 0 {
        if a[0] == b[0] {
            lemma_lex_total(a.drop_first(), b.drop_first());
            if a.drop_first() == b.drop_first() {
                assert(a =~= seq![a[0]] + a.drop_first());
                assert(b =~= seq![b[0]] + b.drop_first());
            }
        }
    } else if a.len() == 0 && b.len() == 0 {
        assert(a =~= b);
    }
}

proof fn lemma_lex_trans(a: Seq<char>, b: Seq<char>, c: Seq<char>)
    requires
        lex_lt(a, b),
        lex_lt(b, c),
    ensures
        lex_lt(a, c),
    decreases a.len(),
{
    if a.len() > 0 && b.len() > 0 && c.len() > 0 && a[0] == b[0] && b[0] == c[0] {
        lemma_lex_trans(a.drop_first(), b.drop_first(), c.drop_first());
    }
}

/// The text after the last `/` of a path.
pub open spec fn file_name_of(path: Seq<char>) -> Seq<char>
    decreases path.len(),
{
    if path.len() == 0 {
        path
    } else if path.last() == '/' {
        Seq::empty()
    } else {
        file_name_of(path.drop_last()).push(path.last())
    }
}

/// The file name ends in `.rules`.
pub open spec fn is_rules_file(path: Seq<char>) -> bool {
    let n = file_name_of(path);
    n.len() >= 6 && n.subrange(n.len() - 6, n.len() as int) == ".rules"@
}

/// The name of the path at position `i`.
pub open spec fn name_at(paths: Seq<Seq<char>>, i: int) -> Seq<char> {
    file_name_of(paths[i])
}

/// `order` lists the positions of the `.rules` files among `paths`, each
/// once, by file name, and files of the same name in their listed order.
pub open spec fn load_order(paths: Seq<Seq<char>>, order: Seq<usize>) -> bool {
    &&& forall|k: int| 0 <= k < order.len() ==> #[trigger] order[k] < paths.len() && is_rules_file(paths[order[k] as int])
    &&& forall|i: int| 0 <= i < paths.len() && is_rules_file(paths[i]) ==> order.contains(i as usize)
    &&& forall|k: int, m: int| 0 <= k < m < order.len() ==> !lex_lt(
        name_at(paths, #[trigger] order[m] as int),
        name_at(paths, #[trigger] order[k] as int),
    )
    &&& forall|k: int, m: int| 0 <= k < m < order.len() && name_at(paths, #[trigger] order[k] as int) == name_at(
        paths,
        #[trigger] order[m] as int,
    ) ==> order[k] < order[m]
}

/// The file name of `path`.
fn file_name(path: &Vec<char>) -> (r: Vec<char>)
    ensures
        r@ == file_name_of(path@),
{
    let mut start = path.len();
    assert(path@.subrange(0, start as int) =~= path@);
    assert(path@.subrange(start as int, path@.len() as int) =~= Seq::<char>::empty());
    while start > 0 && path[start - 1] != '/'
        invariant
            0 <= start <= path@.len(),
            file_name_of(path@) == file_name_of(path@.subrange(0, start as int)) + path@.subrange(start as int, path@.len() as int),
        decreases start,
    {
        let ghost p = path@.subrange(0, start as int);
        assert(p.drop_last() =~= path@.subrange(0, start - 1));
        assert(path@.subrange(start - 1, path@.len() as int) =~= seq![p.last()] + path@.subrange(start as int, path@.len() as int));
        assert(file_name_of(p) == file_name_of(p.drop_last()).push(p.last()));
        assert(file_name_of(p.drop_last()).push(p.last()) + path@.subrange(start as int, path@.len() as int)
            =~= file_name_of(p.drop_last()) + path@.subrange(start - 1, path@.len() as int));
        start -= 1;
    }
    proof {
        let p = path@.subrange(0, start as int);
        assert(file_name_of(p) =~= Seq::<char>::empty());
        assert(path@.subrange(0, path@.len() as int) =~= path@);
    }
    let mut out: Vec<char> = Vec::new();
    let mut i = start;
    while i < path.len()
        invariant
            start <= i <= path@.len(),
            out@ == path@.subrange(start as int, i as int),
        decreases path@.len() - i,
    {
        out.push(path[i]);
        i += 1;
        assert(out@ =~= path@.subrange(start as int, i as int));
    }
    assert(Seq::<char>::empty() + path@.subrange(start as int, path@.len() as int) =~= out@);
    out
}

/// `a` comes before `b`.
fn lex_less(a: &Vec<char>, b: &Vec<char>) -> (r: bool)
    ensures
        r == lex_lt(a@, b@),
{
    let mut i: usize = 0;
    assert(a@.skip(0) =~= a@);
    assert(b@.skip(0) =~= b@);
    while i < a.len() && i < b.len() && a[i] == b[i]
        invariant
            0 <= i <= a@.len(),
            i <= b@.len(),
            lex_lt(a@, b@) == lex_lt(a@.skip(i as int), b@.skip(i as int)),
        decreases a@.len() - i,
    {
        assert(a@.skip(i as int).drop_first() =~= a@.skip(i + 1));
        assert(b@.skip(i as int).drop_first() =~= b@.skip(i + 1));
        i += 1;
    }
    if i == a.len() {
        i < b.len()
    } else if i == b.len() {
        false
    } else {
        assert(a@.skip(i as int)[0] == a@[i as int]);
        assert(b@.skip(i as int)[0] == b@[i as int]);
        a[i] < b[i]
    }
}

/// The order of the first `i` paths is kept in `order`.
pub open spec fn order_upto(ps: Seq<Seq<char>>, order: Seq<usize>, i: int) -> bool {
    &&& forall|k: int| 0 <= k < order.len() ==> #[trigger] order[k] < i && is_rules_file(ps[order[k] as int])
    &&& forall|m: int| 0 <= m < i && is_rules_file(ps[m]) ==> order.contains(m as usize)
    &&& forall|k: int, m: int| 0 <= k < m < order.len() ==> !lex_lt(
        name_at(ps, #[trigger] order[m] as int),
        name_at(ps, #[trigger] order[k] as int),
    )
    &&& forall|k: int, m: int| 0 <= k < m < order.len() && name_at(ps, #[trigger] order[k] as int) == name_at(
        ps,
        #[trigger] order[m] as int,
    ) ==> order[k] < order[m]
}

/// Places the `.rules` file at position `i` after every file placed so
/// far whose name is not greater.
fn place(order: &mut Vec<usize>, names: &Vec<Vec<char>>, i: usize, Ghost(ps): Ghost<Seq<Seq<char>>>)
    requires
        i < names@.len() == ps.len(),
        forall|k: int| 0 <= k < ps.len() ==> (#[trigger] names@[k])@ == name_at(ps, k),
        is_rules_file(ps[i as int]),
        order_upto(ps, old(order)@, i as int),
    ensures
        order_upto(ps, final(order)@, i + 1),
{
    let n = &names[i];
    let mut p = order.len();
    while p > 0 && lex_less(n, &names[order[p - 1]])
        invariant
            0 <= p <= order@.len(),
            order_upto(ps, order@, i as int),
            forall|k: int| p <= k < order@.len() ==> lex_lt(name_at(ps, i as int), name_at(ps, #[trigger] order@[k] as int)),
            names@.len() == ps.len(),
            forall|k: int| 0 <= k < ps.len() ==> (#[trigger] names@[k])@ == name_at(ps, k),
            n == &names@[i as int],
            i < ps.len(),
        decreases p,
    {
        p -= 1;
    }
    let ghost before = order@;
    let ghost x = name_at(ps, i as int);
    proof {
        assert forall|k: int| 0 <= k < p implies !lex_lt(x, name_at(ps, #[trigger] before[k] as int)) by {
            let a = name_at(ps, before[k] as int);
            let b = name_at(ps, before[p - 1] as int);
            assert(!lex_lt(x, b));
            if k < p - 1 {
                assert(!lex_lt(b, a));
                if lex_lt(x, a) {
                    lemma_lex_total(a, b);
                    if a != b {
                        lemma_lex_trans(x, a, b);
                    }
                }
            }
        }
    }
    order.insert(p, i);
    proof {
        assert(order@ == before.insert(p as int, i));
        assert forall|k: int| 0 <= k < order@.len() implies #[trigger] order@[k] < i + 1 && is_rules_file(ps[order@[k] as int]) by {
            if k < p {
                assert(order@[k] == before[k]);
            } else if k > p {
                assert(order@[k] == before[k - 1]);
            }
        }
        assert forall|m: int| 0 <= m < i + 1 && is_rules_file(ps[m]) implies order@.contains(m as usize) by {
            if m < i {
                assert(before.contains(m as usize));
                let q = choose|q: int| 0 <= q < before.len() && before[q] == m as usize;
                if q < p {
                    assert(order@[q] == m as usize);
                } else {
                    assert(order@[q + 1] == m as usize);
                }
            } else {
                assert(order@[p as int] == i);
            }
        }
        assert forall|k: int, m: int| 0 <= k < m < order@.len() implies !lex_lt(
            name_at(ps, #[trigger] order@[m] as int),
            name_at(ps, #[trigger] order@[k] as int),
        ) by {
            if k < p && m < p {
                assert(order@[k] == before[k] && order@[m] == before[m]);
            } else if k < p && m == p {
                assert(order@[k] == before[k] && order@[m] == i);
                lemma_lex_total(x, name_at(ps, before[k] as int));
            } else if k < p {
                assert(order@[k] == before[k] && order@[m] == before[m - 1]);
            } else if k == p {
                assert(order@[k] == i && order@[m] == before[m - 1]);
                lemma_lex_total(x, name_at(ps, before[m - 1] as int));
            } else {
                assert(order@[k] == before[k - 1] && order@[m] == before[m - 1]);
            }
        }
        assert forall|k: int, m: int| 0 <= k < m < order@.len() && name_at(ps, #[trigger] order@[k] as int) == name_at(
            ps,
            #[trigger] order@[m] as int,
        ) implies order@[k] < order@[m] by {
            if k < p && m < p {
                assert(order@[k] == before[k] && order@[m] == before[m]);
            } else if k < p && m == p {
                assert(order@[k] == before[k] && order@[m] == i);
            } else if k < p {
                assert(order@[k] == before[k] && order@[m] == before[m - 1]);
            } else if k == p {
                assert(order@[k] == i && order@[m] == before[m - 1]);
                lemma_lex_irrefl(x);
            } else {
                assert(order@[k] == before[k - 1] && order@[m] == before[m - 1]);
            }
        }
    }
}

/// The positions of the files to load among `paths`, in load order.
pub fn rule_file_order(paths: &Vec<String>) -> (r: Vec<usize>)
    ensures
        load_order(paths@.map_values(|p: String| p@), r@),
{
    let ghost ps = paths@.map_values(|p: String| p@);
    let mut names: Vec<Vec<char>> = Vec::new();
    let mut j: usize = 0;
    while j < paths.len()
        invariant
            ps == paths@.map_values(|p: String| p@),
            0 <= j <= paths@.len(),
            names@.len() == j,
            forall|k: int| 0 <= k < j ==> (#[trigger] names@[k])@ == name_at(ps, k),
        decreases paths@.len() - j,
    {
        let pv = chars_of(paths[j].as_str());
        assert(pv@ == ps[j as int]);
        names.push(file_name(&pv));
        j += 1;
    }
    let suffix = chars_of(".rules");
    let mut order: Vec<usize> = Vec::new();
    let mut i: usize = 0;
    while i < paths.len()
        invariant
            ps == paths@.map_values(|p: String| p@),
            names@.len() == paths@.len(),
            forall|k: int| 0 <= k < paths@.len() ==> (#[trigger] names@[k])@ == name_at(ps, k),
            suffix@ == ".rules"@,
            0 <= i <= paths@.len(),
            order_upto(ps, order@, i as int),
        decreases paths@.len() - i,
    {
        let n = &names[i];
        let is_rules = n.len() >= 6 && {
            let start = n.len() - 6;
            crate::text::has_prefix_at(n, start, &suffix)
        };
        proof {
            if n@.len() >= 6 {
                let start = n@.len() - 6;
                assert(n@.subrange(start, n@.len() as int).subrange(0, 6) =~= n@.subrange(start, n@.len() as int));
                reveal_strlit(".rules");
            }
        }
        if is_rules {
            place(&mut order, &names, i, Ghost(ps));
        } else {
            proof {
                assert forall|m: int| 0 <= m < i + 1 && is_rules_file(ps[m]) implies order@.contains(m as usize) by {
                    if m == i {
                        assert(n@ == name_at(ps, m));
                    }
                }
            }
        }
        i += 1;
    }
    order
}

} // verus!
