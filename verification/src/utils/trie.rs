//! Prefix tree over characters, used to recognise formatter names.
//!
//! The nodes live in vectors indexed by node number; node 0 is the root.
//! Every node stands for the path of characters that leads to it, and the
//! abstract content of the tree is the set of inserted words.

use vstd::prelude::*;
use crate::rules::{formatter_of, FormatSubstitutionType};
use crate::text::{chars_of, is_prefix};

verus! {

/// Prefix tree; see the module documentation.
pub struct Trie {
    /// (parent, character, child) for every edge.
    edges: Vec<(usize, char, usize)>,
    /// whether a word ends at the node
    is_end: Vec<bool>,
    /// the formatter that the word ending at the node names
    value: Vec<Option<FormatSubstitutionType>>,
    /// depth of the node (the root's depth plus its path length)
    depth: Vec<usize>,
    /// the path of characters that leads to each node
    paths: Ghost<Seq<Seq<char>>>,
}

/// `p` is the empty path or a prefix of a word in `words`.
pub open spec fn prefix_in(words: Set<Seq<char>>, p: Seq<char>) -> bool {
    p.len() == 0 || exists|w: Seq<char>| #[trigger] words.contains(w) && is_prefix(p, w)
}

/// Length of the longest prefix of `s` that `prefix_in(words, _)` accepts,
/// found by extending one character at a time from length `k`.
pub open spec fn partial_len(words: Set<Seq<char>>, s: Seq<char>, k: nat) -> nat
    decreases s.len() - k,
{
    if k < s.len() && prefix_in(words, s.subrange(0, k as int + 1)) {
        partial_len(words, s, k + 1)
    } else {
        k
    }
}

pub proof fn lemma_partial_len_bound(words: Set<Seq<char>>, s: Seq<char>, k: nat)
    requires
        k <= s.len(),
    ensures
        k <= partial_len(words, s, k) <= s.len(),
    decreases s.len() - k,
{
    if k < s.len() && prefix_in(words, s.subrange(0, k as int + 1)) {
        lemma_partial_len_bound(words, s, k + 1);
    }
}

/// The value that a word stores: the formatter it names, if any.
pub open spec fn word_value(w: Seq<char>) -> Option<FormatSubstitutionType> {
    formatter_of(w)
}

impl Trie {
    /// Number of nodes.
    pub closed spec fn node_count(&self) -> nat {
        self.is_end@.len()
    }

    /// Path of node `i`.
    pub closed spec fn path(&self, i: int) -> Seq<char> {
        self.paths@[i]
    }

    /// Depth of the root.
    pub closed spec fn root_depth(&self) -> nat {
        self.depth@[0] as nat
    }

    /// The set of inserted words.
    pub closed spec fn words(&self) -> Set<Seq<char>> {
        Set::new(|w: Seq<char>| exists|i: int| 0 <= i < self.is_end@.len() && self.is_end@[i] && self.paths@[i] == w)
    }

    /// Every edge (i, c, j) leads from path p to path p + c.
    closed spec fn edges_ok(&self) -> bool {
        forall|k: int| 0 <= k < self.edges@.len() ==> {
            let e = #[trigger] self.edges@[k];
            &&& e.0 < self.paths@.len()
            &&& e.2 < self.paths@.len()
            &&& self.paths@[e.2 as int] == self.paths@[e.0 as int].push(e.1)
        }
    }

    /// Some edge leads to node `j`.
    closed spec fn has_incoming(&self, j: int) -> bool {
        exists|k: int| 0 <= k < self.edges@.len() && (#[trigger] self.edges@[k]).2 == j
    }

    /// Every node but the root is reached by some edge.
    closed spec fn reached(&self) -> bool {
        forall|j: int| 0 < j < self.paths@.len() ==> #[trigger] self.has_incoming(j)
    }

    /// Some node has the first `m` characters of node `i`'s path as its path.
    closed spec fn prefix_node(&self, i: int, m: int) -> bool {
        exists|j: int| 0 <= j < self.paths@.len() && self.paths@[j] == self.paths@[i].subrange(0, m)
    }

    /// Node `i` is the root, lies on `extra`, or lies on a word.
    closed spec fn below_word(&self, i: int, extra: Seq<char>) -> bool {
        ||| self.paths@[i].len() == 0
        ||| is_prefix(self.paths@[i], extra)
        ||| exists|j: int| 0 <= j < self.paths@.len() && self.is_end@[j] && is_prefix(self.paths@[i], self.paths@[j])
    }

    /// Structural well-formedness, with `extra` a word whose prefixes may
    /// also stand as nodes.
    closed spec fn wf_with(&self, extra: Seq<char>) -> bool {
        let n = self.paths@.len();
        &&& n >= 1
        &&& self.is_end@.len() == n
        &&& self.value@.len() == n
        &&& self.depth@.len() == n
        &&& self.paths@[0].len() == 0
        &&& forall|i: int| 0 <= i < n ==> (#[trigger] self.depth@[i]) == self.depth@[0] + self.paths@[i].len()
        &&& forall|i: int, j: int| 0 <= i < n && 0 <= j < n && #[trigger] self.paths@[i] == #[trigger] self.paths@[j] ==> i == j
        &&& self.edges_ok()
        &&& self.reached()
        &&& forall|i: int| 0 <= i < n ==> (#[trigger] self.value@[i]) == (if self.is_end@[i] { word_value(self.paths@[i]) } else { None })
        &&& forall|i: int, m: int| 0 <= i < n && 0 <= m <= self.paths@[i].len() ==> #[trigger] self.prefix_node(i, m)
        &&& forall|i: int| 0 <= i < n ==> #[trigger] self.below_word(i, extra)
    }

    /// Structural well-formedness.
    pub closed spec fn wf(&self) -> bool {
        self.wf_with(Seq::empty())
    }

    /// A node with path `p` exists exactly when `p` is the empty path or a
    /// prefix of an inserted word.
    proof fn lemma_node_iff_prefix(&self, extra: Seq<char>, p: Seq<char>)
        requires
            self.wf_with(extra),
            extra.len() == 0,
        ensures
            (exists|j: int| 0 <= j < self.paths@.len() && self.paths@[j] == p) <==> prefix_in(self.words(), p),
    {
        let n = self.paths@.len() as int;
        if exists|j: int| 0 <= j < n && self.paths@[j] == p {
            let j = choose|j: int| 0 <= j < n && self.paths@[j] == p;
            if p.len() != 0 {
                assert(self.paths@[j].len() != 0);
                if is_prefix(p, extra) {
                    assert(false);
                }
                assert(self.below_word(j, extra));
                let k = choose|k: int| 0 <= k < n && self.is_end@[k] && is_prefix(self.paths@[j], self.paths@[k]);
                assert(self.words().contains(self.paths@[k]));
            }
        }
        if prefix_in(self.words(), p) {
            if p.len() == 0 {
                assert(self.paths@[0] =~= p);
            } else {
                let w = choose|w: Seq<char>| #[trigger] self.words().contains(w) && is_prefix(p, w);
                let i = choose|i: int| 0 <= i < n && self.is_end@[i] && self.paths@[i] == w;
                assert(self.paths@[i].subrange(0, p.len() as int) == p);
                assert(self.prefix_node(i, p.len() as int));
                let j = choose|j: int| 0 <= j < n && self.paths@[j] == self.paths@[i].subrange(0, p.len() as int);
            }
        }
    }

    /// An empty tree whose root has the given depth.
    pub fn new(depth: usize) -> (t: Trie)
        ensures
            t.wf(),
            t.words() == Set::<Seq<char>>::empty(),
            t.root_depth() == depth,
            t.node_count() == 1,
            t.path(0) == Seq::<char>::empty(),
    {
        let mut is_end = Vec::new();
        is_end.push(false);
        let mut value = Vec::new();
        value.push(None);
        let mut d = Vec::new();
        d.push(depth);
        let ghost root_path: Seq<Seq<char>> = seq![Seq::<char>::empty()];
        let t = Trie {
            edges: Vec::new(),
            is_end,
            value,
            depth: d,
            paths: Ghost(root_path),
        };
        proof {
            assert forall|i: int, m: int| 0 <= i < 1 && 0 <= m <= t.paths@[i].len() implies
                #[trigger] t.prefix_node(i, m) by {
                assert(t.paths@[0] =~= t.paths@[i].subrange(0, m));
            }
            assert forall|i: int| 0 <= i < 1 implies #[trigger] t.below_word(i, Seq::empty()) by {}
            assert(t.words() =~= Set::<Seq<char>>::empty());
        }
        t
    }

    /// Finds the child of node `i` along character `c`.
    fn child(&self, i: usize, c: char) -> (r: Option<usize>)
        requires
            self.edges_ok(),
            self.reached(),
            self.paths@.len() >= 1,
            self.paths@[0].len() == 0,
            i < self.paths@.len(),
            forall|a: int, b: int| 0 <= a < self.paths@.len() && 0 <= b < self.paths@.len() && self.paths@[a] == self.paths@[b] ==> a == b,
        ensures
            r matches Some(j) ==> j < self.paths@.len() && self.paths@[j as int] == self.paths@[i as int].push(c),
            r is None ==> forall|j: int| 0 <= j < self.paths@.len() ==> self.paths@[j] != self.paths@[i as int].push(c),
    {
        let mut k: usize = 0;
        while k < self.edges.len()
            invariant
                0 <= k <= self.edges.len(),
                self.edges_ok(),
                i < self.paths@.len(),
                forall|m: int| 0 <= m < k ==> !((#[trigger] self.edges@[m]).0 == i && self.edges@[m].1 == c),
            decreases self.edges.len() - k,
        {
            let e = self.edges[k];
            if e.0 == i && e.1 == c {
                assert(self.edges@[k as int] == e);
                return Some(e.2);
            }
            k += 1;
        }
        proof {
            assert forall|j: int| 0 <= j < self.paths@.len() implies self.paths@[j] != self.paths@[i as int].push(c) by {
                if self.paths@[j] == self.paths@[i as int].push(c) {
                    assert(j != 0);
                    assert(self.has_incoming(j));
                    let m = choose|m: int| 0 <= m < self.edges@.len() && (#[trigger] self.edges@[m]).2 == j;
                    let e = self.edges@[m];
                    assert(self.paths@[j] == self.paths@[e.0 as int].push(e.1));
                    assert(self.paths@[e.0 as int] =~= self.paths@[j].drop_last());
                    assert(self.paths@[i as int] =~= self.paths@[j].drop_last());
                    assert(e.1 == self.paths@[j].last());
                }
            }
        }
        None
    }

    /// Depth of node `i`.
    pub fn node_depth(&self, i: usize) -> (d: usize)
        requires
            self.wf(),
            i < self.node_count(),
        ensures
            d == self.root_depth() + self.path(i as int).len(),
    {
        self.depth[i]
    }

    /// Whether a word ends at node `i`.
    pub fn node_is_end(&self, i: usize) -> (b: bool)
        requires
            self.wf(),
            i < self.node_count(),
        ensures
            b == self.words().contains(self.path(i as int)),
    {
        let b = self.is_end[i];
        proof {
            if self.words().contains(self.path(i as int)) {
                let j = choose|j: int| 0 <= j < self.is_end@.len() && self.is_end@[j] && self.paths@[j] == self.path(i as int);
            }
        }
        b
    }

    /// The formatter stored at node `i`.
    pub fn node_value(&self, i: usize) -> (v: Option<FormatSubstitutionType>)
        requires
            self.wf(),
            i < self.node_count(),
        ensures
            v == (if self.words().contains(self.path(i as int)) { word_value(self.path(i as int)) } else { None }),
    {
        proof {
            if self.words().contains(self.path(i as int)) {
                let j = choose|j: int| 0 <= j < self.is_end@.len() && self.is_end@[j] && self.paths@[j] == self.path(i as int);
            }
        }
        self.value[i]
    }

    /// Adds `word` to the tree.
    pub fn insert(&mut self, word: &str)
        requires
            old(self).wf(),
            old(self).root_depth() + word@.len() <= usize::MAX,
        ensures
            final(self).wf(),
            final(self).words() == old(self).words().insert(word@),
            final(self).root_depth() == old(self).root_depth(),
    {
        let w = chars_of(word);
        let ghost old_words = self.words();
        let ghost old_n = self.paths@.len();
        let mut cur: usize = 0;
        let mut k: usize = 0;
        assert(self.paths@[0] =~= w@.subrange(0, 0));
        assert forall|i: int| 0 <= i < self.paths@.len() implies #[trigger] self.below_word(i, w@) by {
            assert(self.below_word(i, Seq::empty()));
        }
        while k < w.len()
            invariant
                self.wf_with(w@),
                0 <= k <= w.len(),
                w@ == word@,
                cur < self.paths@.len(),
                self.paths@[cur as int] == w@.subrange(0, k as int),
                self.words() == old_words,
                self.depth@[0] == old(self).depth@[0],
                old(self).root_depth() + word@.len() <= usize::MAX,
            decreases w.len() - k,
        {
            let c = w[k];
            assert(w@.subrange(0, k as int).push(c) =~= w@.subrange(0, k + 1));
            match self.child(cur, c) {
                Some(j) => {
                    cur = j;
                }
                None => {
                    let n = self.is_end.len();
                    let ghost old_self = *self;
                    let d = self.depth[cur];
                    assert(d == self.depth@[0] + k);
                    self.edges.push((cur, c, n));
                    self.is_end.push(false);
                    self.value.push(None);
                    self.depth.push(d + 1);
                    let ghost np = self.paths@.push(w@.subrange(0, k + 1));
                    self.paths = Ghost(np);
                    proof {
                        let np = self.paths@;
                        assert(np[n as int] == w@.subrange(0, k + 1));
                        assert forall|i: int| 0 <= i < n + 1 implies (#[trigger] self.depth@[i]) == self.depth@[0] + self.paths@[i].len() by {
                            if i < n {
                                assert(self.depth@[i] == old_self.depth@[i]);
                            }
                        }
                        assert forall|a: int, b: int| 0 <= a < n + 1 && 0 <= b < n + 1 && np[a] == np[b] implies a == b by {
                            if a < n && b == n {
                                assert(old_self.paths@[a] == w@.subrange(0, k as int).push(c));
                            }
                            if b < n && a == n {
                                assert(old_self.paths@[b] == w@.subrange(0, k as int).push(c));
                            }
                        }
                        assert forall|m: int| 0 <= m < self.edges@.len() implies {
                            let e = #[trigger] self.edges@[m];
                            &&& e.0 < self.paths@.len()
                            &&& e.2 < self.paths@.len()
                            &&& self.paths@[e.2 as int] == self.paths@[e.0 as int].push(e.1)
                        } by {
                            if m < old_self.edges@.len() {
                                assert(self.edges@[m] == old_self.edges@[m]);
                                let e = old_self.edges@[m];
                                assert(old_self.edges_ok());
                                assert(e.0 < old_self.paths@.len());
                            }
                        }
                        assert forall|j: int| 0 < j < self.paths@.len() implies #[trigger] self.has_incoming(j) by {
                            if j < n {
                                assert(old_self.has_incoming(j));
                                let m = choose|m: int| 0 <= m < old_self.edges@.len() && (#[trigger] old_self.edges@[m]).2 == j;
                                assert(self.edges@[m] == old_self.edges@[m]);
                            } else {
                                assert(self.edges@[old_self.edges@.len() as int].2 == j);
                            }
                        }
                        assert forall|i: int| 0 <= i < n + 1 implies (#[trigger] self.value@[i]) == (if self.is_end@[i] { word_value(self.paths@[i]) } else { None }) by {
                            if i < n {
                                assert(self.value@[i] == old_self.value@[i]);
                                assert(self.is_end@[i] == old_self.is_end@[i]);
                            }
                        }
                        assert forall|i: int, m: int| 0 <= i < n + 1 && 0 <= m <= np[i].len() implies
                            #[trigger] self.prefix_node(i, m) by {
                            if i < n {
                                assert(old_self.prefix_node(i, m));
                                let j = choose|j: int| 0 <= j < n && old_self.paths@[j] == old_self.paths@[i].subrange(0, m);
                                assert(np[j] == np[i].subrange(0, m));
                            } else if m == k + 1 {
                                assert(np[n as int].subrange(0, m) =~= np[n as int]);
                            } else {
                                assert(np[n as int].subrange(0, m) =~= old_self.paths@[cur as int].subrange(0, m));
                                assert(old_self.prefix_node(cur as int, m));
                                let j = choose|j: int| 0 <= j < n && old_self.paths@[j] == old_self.paths@[cur as int].subrange(0, m);
                                assert(np[j] == np[i].subrange(0, m));
                            }
                        }
                        assert forall|i: int| 0 <= i < n + 1 implies #[trigger] self.below_word(i, w@) by {
                            if i < n {
                                assert(np[i] == old_self.paths@[i]);
                                assert(old_self.below_word(i, w@));
                                if exists|j: int| 0 <= j < n && old_self.is_end@[j] && is_prefix(old_self.paths@[i], old_self.paths@[j]) {
                                    let j = choose|j: int| 0 <= j < n && old_self.is_end@[j] && is_prefix(old_self.paths@[i], old_self.paths@[j]);
                                    assert(self.is_end@[j] && np[j] == old_self.paths@[j]);
                                }
                            } else {
                                assert(is_prefix(np[i], w@));
                            }
                        }
                        assert(self.words() =~= old_self.words()) by {
                            assert forall|x: Seq<char>| self.words().contains(x) implies old_self.words().contains(x) by {
                                let i = choose|i: int| 0 <= i < self.is_end@.len() && self.is_end@[i] && self.paths@[i] == x;
                                assert(i < n);
                                assert(old_self.is_end@[i] && old_self.paths@[i] == x);
                            }
                            assert forall|x: Seq<char>| old_self.words().contains(x) implies self.words().contains(x) by {
                                let i = choose|i: int| 0 <= i < old_self.is_end@.len() && old_self.is_end@[i] && old_self.paths@[i] == x;
                                assert(self.is_end@[i] && self.paths@[i] == x);
                            }
                        }
                    }
                    cur = n;
                }
            }
            k += 1;
        }
        assert(w@.subrange(0, w@.len() as int) =~= w@);
        let ghost before = *self;
        self.is_end.set(cur, true);
        self.value.set(cur, Self::word_formatter(&w));
        proof {
            let n = self.paths@.len() as int;
            let np = self.paths@;
            assert forall|i: int| 0 <= i < n implies (#[trigger] self.value@[i]) == (if self.is_end@[i] { word_value(self.paths@[i]) } else { None }) by {
                if i != cur {
                    assert(self.value@[i] == before.value@[i]);
                }
            }
            assert forall|i: int| 0 <= i < n implies #[trigger] self.below_word(i, Seq::<char>::empty()) by {
                assert(before.below_word(i, w@));
                if np[i].len() != 0 {
                    if is_prefix(np[i], w@) {
                        assert(self.is_end@[cur as int] && np[cur as int] == w@);
                    } else {
                        let j = choose|j: int| 0 <= j < n && before.is_end@[j] && is_prefix(np[i], np[j]);
                        assert(self.is_end@[j]);
                    }
                }
            }
            assert forall|i: int| 0 <= i < n implies (#[trigger] self.depth@[i]) == self.depth@[0] + self.paths@[i].len() by {}
            assert(self.edges_ok());
            assert forall|j: int| 0 < j < self.paths@.len() implies #[trigger] self.has_incoming(j) by {
                assert(before.has_incoming(j));
                let m = choose|m: int| 0 <= m < before.edges@.len() && (#[trigger] before.edges@[m]).2 == j;
                assert(self.edges@[m].2 == j);
            }
            assert(self.reached());
            assert forall|i: int, m: int| 0 <= i < n && 0 <= m <= self.paths@[i].len() implies #[trigger] self.prefix_node(i, m) by {
                assert(before.prefix_node(i, m));
            }
            assert(self.wf());
            assert(self.words() =~= old_words.insert(word@)) by {
                assert forall|x: Seq<char>| self.words().contains(x) implies old_words.insert(word@).contains(x) by {
                    let i = choose|i: int| 0 <= i < self.is_end@.len() && self.is_end@[i] && self.paths@[i] == x;
                    if i != cur {
                        assert(before.is_end@[i]);
                        assert(before.words().contains(x));
                    }
                }
                assert forall|x: Seq<char>| old_words.insert(word@).contains(x) implies self.words().contains(x) by {
                    if x == word@ {
                        assert(self.is_end@[cur as int] && self.paths@[cur as int] == x);
                    } else {
                        assert(before.words().contains(x));
                        let i = choose|i: int| 0 <= i < before.is_end@.len() && before.is_end@[i] && before.paths@[i] == x;
                        assert(self.is_end@[i]);
                    }
                }
            }
        }
    }

    /// The formatter named by a word.
    fn word_formatter(w: &Vec<char>) -> (v: Option<FormatSubstitutionType>)
        ensures
            v == word_value(w@),
    {
        match FormatSubstitutionType::from_chars(w) {
            Ok(t) => Some(t),
            Err(_) => None,
        }
    }

    /// A tree holding the given words, rooted at depth 0.
    pub fn from_vec(v: Vec<&str>) -> (t: Trie)
        requires
            forall|i: int| 0 <= i < v.len() ==> (#[trigger] v@[i])@.len() <= usize::MAX,
        ensures
            t.wf(),
            t.root_depth() == 0,
            t.words() == Set::new(|w: Seq<char>| exists|i: int| 0 <= i < v.len() && (#[trigger] v@[i])@ == w),
    {
        let mut t = Trie::new(0);
        let mut i: usize = 0;
        while i < v.len()
            invariant
                0 <= i <= v.len(),
                t.wf(),
                t.root_depth() == 0,
                forall|j: int| 0 <= j < v.len() ==> (#[trigger] v@[j])@.len() <= usize::MAX,
                t.words() == Set::new(|w: Seq<char>| exists|j: int| 0 <= j < i && (#[trigger] v@[j])@ == w),
            decreases v.len() - i,
        {
            let ghost before = t.words();
            t.insert(v[i]);
            proof {
                assert(t.words() =~= Set::new(|w: Seq<char>| exists|j: int| 0 <= j < i + 1 && (#[trigger] v@[j])@ == w)) by {
                    assert forall|w: Seq<char>| (exists|j: int| 0 <= j < i + 1 && (#[trigger] v@[j])@ == w) implies t.words().contains(w) by {
                        let j = choose|j: int| 0 <= j < i + 1 && (#[trigger] v@[j])@ == w;
                        if j < i {
                            assert(before.contains(w));
                        }
                    }
                }
            }
            i += 1;
        }
        t
    }

    /// Walks the path `s` from the root; the node it reaches, if every step
    /// exists.
    pub fn search_prefix(&self, prefix: &str) -> (r: Option<usize>)
        requires
            self.wf(),
        ensures
            r is Some <==> prefix_in(self.words(), prefix@),
            r matches Some(i) ==> i < self.node_count() && self.path(i as int) == prefix@,
    {
        let s = chars_of(prefix);
        let mut cur: usize = 0;
        let mut k: usize = 0;
        assert(self.paths@[0] =~= s@.subrange(0, 0));
        while k < s.len()
            invariant
                self.wf(),
                s@ == prefix@,
                0 <= k <= s.len(),
                cur < self.paths@.len(),
                self.paths@[cur as int] == s@.subrange(0, k as int),
            decreases s.len() - k,
        {
            let c = s[k];
            assert(s@.subrange(0, k as int).push(c) =~= s@.subrange(0, k + 1));
            match self.child(cur, c) {
                Some(j) => {
                    cur = j;
                }
                None => {
                    proof {
                        self.lemma_node_iff_prefix(Seq::empty(), s@);
                        if prefix_in(self.words(), s@) {
                            let j = choose|j: int| 0 <= j < self.paths@.len() && self.paths@[j] == s@;
                            assert(self.paths@[j].subrange(0, k + 1) =~= s@.subrange(0, k + 1));
                            assert(self.prefix_node(j, k + 1));
                            let m = choose|m: int| 0 <= m < self.paths@.len() && self.paths@[m] == self.paths@[j].subrange(0, k + 1);
                        }
                    }
                    return None;
                }
            }
            k += 1;
        }
        assert(s@.subrange(0, s@.len() as int) =~= s@);
        proof {
            self.lemma_node_iff_prefix(Seq::empty(), s@);
        }
        Some(cur)
    }

    /// Whether `word` was inserted.
    pub fn search(&self, word: &str) -> (b: bool)
        requires
            self.wf(),
        ensures
            b == self.words().contains(word@),
    {
        match self.search_prefix(word) {
            Some(i) => self.node_is_end(i),
            None => {
                proof {
                    if self.words().contains(word@) {
                        assert(word@.subrange(0, word@.len() as int) =~= word@);
                        assert(is_prefix(word@, word@));
                    }
                }
                false
            }
        }
    }

    /// Walks `whole` as far as the tree allows.  When the walk stops early
    /// at a node where no word ends, there is no match; otherwise the node
    /// reached is returned.
    pub fn search_prefix_partial(&self, whole: &Vec<char>, start: usize) -> (r: Option<usize>)
        requires
            self.wf(),
            start <= whole.len(),
        ensures
            ({
                let s = whole@.subrange(start as int, whole@.len() as int);
                let d = partial_len(self.words(), s, 0);
                &&& r is Some <==> (d == s.len() || self.words().contains(s.subrange(0, d as int)))
                &&& r matches Some(i) ==> i < self.node_count() && self.path(i as int) == s.subrange(0, d as int)
            }),
    {
        let ghost s = whole@.subrange(start as int, whole@.len() as int);
        let mut cur: usize = 0;
        let mut k: usize = 0;
        assert(self.paths@[0] =~= s.subrange(0, 0));
        while start + k < whole.len()
            invariant
                self.wf(),
                s == whole@.subrange(start as int, whole@.len() as int),
                start + k <= whole.len(),
                cur < self.paths@.len(),
                self.paths@[cur as int] == s.subrange(0, k as int),
                partial_len(self.words(), s, 0) == partial_len(self.words(), s, k as nat),
            decreases whole.len() - start - k,
        {
            let c = whole[start + k];
            assert(s.subrange(0, k as int).push(c) =~= s.subrange(0, k + 1));
            proof {
                self.lemma_node_iff_prefix(Seq::empty(), s.subrange(0, k + 1));
            }
            match self.child(cur, c) {
                Some(j) => {
                    cur = j;
                }
                None => {
                    let b = self.is_end[cur];
                    proof {
                        assert(partial_len(self.words(), s, k as nat) == k);
                        if self.words().contains(s.subrange(0, k as int)) {
                            let j = choose|j: int| 0 <= j < self.is_end@.len() && self.is_end@[j] && self.paths@[j] == s.subrange(0, k as int);
                        }
                    }
                    if b {
                        return Some(cur);
                    }
                    return None;
                }
            }
            k += 1;
        }
        assert(s.subrange(0, k as int) =~= s);
        Some(cur)
    }
}

} // verus!
