//! Decisions of the getty generator: which consoles are virtual
//! terminals, which container managers are known, and how getty units
//! and their links are named.

use vstd::prelude::*;
use crate::rules::eq_lit;
use crate::text::{
    chars_of, has_prefix_at, is_prefix, parse_int, parse_int_range, remove_all, remove_all_of, split_char,
    split_on, string_from_range, string_of, trim_bounds, trim_ws, decimal, push_decimal,
};

verus! {

/// The number of the virtual terminal that `s` names (`ttyN` or
/// `/dev/ttyN`), as an `i32`, if it names one at all.
pub open spec fn vc_number(s: Seq<char>) -> Option<int> {
    let t = if is_prefix("/dev/"@, s) { s.skip("/dev/"@.len() as int) } else { s };
    if !is_prefix("tty"@, t) {
        None
    } else {
        parse_int(t.skip("tty"@.len() as int), i32::MIN as int, i32::MAX as int, true)
    }
}

/// `s` names one of the virtual terminals 0 to 63.
pub open spec fn is_vc(s: Seq<char>) -> bool {
    match vc_number(s) {
        Some(i) => 0 <= i <= 63,
        None => false,
    }
}

/// Whether the console `s` is a virtual terminal (`tty0` to `tty63`,
/// optionally under `/dev/`).
pub fn tty_is_vc(s: &str) -> (r: bool)
    ensures
        r == is_vc(s@),
{
    let v = chars_of(s);
    assert(v@.subrange(0, v@.len() as int) =~= v@);
    let dev = chars_of("/dev/");
    let start = if has_prefix_at(&v, 0, &dev) { dev.len() } else { 0 };
    let ghost t = v@.subrange(start as int, v@.len() as int);
    assert(t == (if is_prefix("/dev/"@, s@) { s@.skip("/dev/"@.len() as int) } else { s@ }));
    let tty = chars_of("tty");
    if !has_prefix_at(&v, start, &tty) {
        return false;
    }
    assert(t.skip(tty@.len() as int) =~= v@.subrange(start + tty.len(), v@.len() as int));
    match parse_int_range(&v, start + tty.len(), v.len(), i32::MIN as i128, i32::MAX as i128, true) {
        Some(i) => 0 <= i && i <= 63,
        None => false,
    }
}

/// The container managers recognised by name.
pub open spec fn known_container(t: Seq<char>) -> bool {
    ||| t == "lxc"@
    ||| t == "lxc-libvirt"@
    ||| t == "systemd-nspawn"@
    ||| t == "docker"@
    ||| t == "podman"@
    ||| t == "rkt"@
    ||| t == "wsl"@
    ||| t == "proot"@
    ||| t == "pouch"@
}

/// Whether `container_type` names a known container manager.
pub fn container_from_string(container_type: &str) -> (r: bool)
    ensures
        r == known_container(container_type@),
{
    let v = chars_of(container_type);
    eq_lit(&v, "lxc") || eq_lit(&v, "lxc-libvirt") || eq_lit(&v, "systemd-nspawn") || eq_lit(&v, "docker")
        || eq_lit(&v, "podman") || eq_lit(&v, "rkt") || eq_lit(&v, "wsl") || eq_lit(&v, "proot")
        || eq_lit(&v, "pouch")
}

/// The words of `s`: its pieces between single spaces.
pub fn extract_words(s: &str) -> (r: Vec<&str>)
    ensures
        r@.map_values(|p: &str| p@) == split_on(s@, ' '),
{
    split_char(s, ' ')
}

/// The value of variable `field` in an environment block: the first
/// nonempty entry that starts with `field=`, with every `field=` removed.
pub open spec fn environ_entry(entries: Seq<Seq<char>>, key: Seq<char>) -> Option<Seq<char>>
    decreases entries.len(),
{
    if entries.len() == 0 {
        None
    } else if entries[0].len() > 0 && is_prefix(key, entries[0]) {
        Some(remove_all(entries[0], key))
    } else {
        environ_entry(entries.drop_first(), key)
    }
}

/// Looks up `field` in the NUL-separated environment block `content`.
pub fn environ_value(content: &str, field: &str) -> (r: Option<String>)
    ensures
        crate::rules::opt_view(r) == environ_entry(split_on(content@, '\0'), field@ + "="@),
{
    let entries = split_char(content, '\0');
    let ghost ev = entries@.map_values(|p: &str| p@);
    let mut key = string_of(field);
    crate::text::string_push(&mut key, '=');
    proof {
        reveal_strlit("=");
        assert(key@ =~= field@ + "="@);
    }
    let kv = chars_of(key.as_str());
    let mut i: usize = 0;
    assert(ev.skip(0) =~= ev);
    while i < entries.len()
        invariant
            0 <= i <= entries.len(),
            ev == entries@.map_values(|p: &str| p@),
            ev == split_on(content@, '\0'),
            kv@ == field@ + "="@,
            key@ == kv@,
            environ_entry(ev.skip(i as int), kv@) == environ_entry(split_on(content@, '\0'), field@ + "="@),
        decreases entries.len() - i,
    {
        let e = entries[i];
        let ev_i = chars_of(e);
        assert(ev.skip(i as int)[0] == e@);
        assert(ev.skip(i as int).drop_first() =~= ev.skip(i + 1));
        assert(ev_i@.subrange(0, ev_i@.len() as int) =~= ev_i@);
        if ev_i.len() > 0 && has_prefix_at(&ev_i, 0, &kv) {
            return Some(remove_all_of(e, key.as_str()));
        }
        i += 1;
    }
    None
}

/// The names of the getty unit template and of the instance for `tty`,
/// for a getty of kind `tty_type` (empty for the plain getty): no unit
/// for an empty terminal name.
pub open spec fn getty_names(tty_type: Seq<char>, tty: Seq<char>) -> Option<(Seq<char>, Seq<char>)> {
    if tty.len() == 0 {
        None
    } else {
        let prefix = if tty_type.len() == 0 { Seq::empty() } else { tty_type + "-"@ };
        Some((prefix + "getty@.service"@, prefix + "getty@"@ + tty + ".service"@))
    }
}

/// The template unit and the instance unit of a getty.
pub fn getty_unit_names(tty_type: &str, tty: &str) -> (r: Option<(String, String)>)
    ensures
        match r {
            Some((from, to)) => getty_names(tty_type@, tty@) == Some((from@, to@)),
            None => getty_names(tty_type@, tty@) is None,
        },
{
    if tty.is_empty() {
        return None;
    }
    let mut prefix = string_of(tty_type);
    if !tty_type.is_empty() {
        crate::text::string_push(&mut prefix, '-');
        proof {
            reveal_strlit("-");
        }
        assert(prefix@ =~= tty_type@ + "-"@);
    } else {
        assert(prefix@ =~= Seq::<char>::empty());
    }
    let from = concat(prefix.as_str(), "getty@.service");
    let to0 = concat(prefix.as_str(), "getty@");
    let to1 = concat(to0.as_str(), tty);
    let to = concat(to1.as_str(), ".service");
    Some((from, to))
}

/// `a` followed by `b`.
pub fn concat(a: &str, b: &str) -> (r: String)
    ensures
        r@ == a@ + b@,
{
    let mut s = string_of(a);
    let bv = chars_of(b);
    crate::text::string_extend(&mut s, &bv);
    s
}

/// Index of the last `c` in `s`, if any.
pub open spec fn last_index_of(s: Seq<char>, c: char) -> Option<int>
    decreases s.len(),
{
    if s.len() == 0 {
        None
    } else if s.last() == c {
        Some(s.len() - 1)
    } else {
        last_index_of(s.drop_last(), c)
    }
}

/// The directory to create before linking at `path`: the text before the
/// last `/`, unless there is none or it is the first character.
pub open spec fn parent_to_create(path: Seq<char>) -> Option<Seq<char>> {
    match last_index_of(path, '/') {
        Some(r) => if r == 0 { None } else { Some(path.take(r)) },
        None => None,
    }
}

/// The parent directory of a link path that has to exist.
pub fn link_parent(path: &str) -> (r: Option<String>)
    ensures
        crate::rules::opt_view(r) == parent_to_create(path@),
{
    let v = chars_of(path);
    let mut j = v.len();
    assert(v@.take(j as int) =~= v@);
    while j > 0
        invariant
            j <= v.len(),
            v@ == path@,
            last_index_of(path@, '/') == last_index_of(v@.take(j as int), '/'),
        decreases j,
    {
        assert(v@.take(j as int).drop_last() =~= v@.take(j - 1));
        if v[j - 1] == '/' {
            if j - 1 == 0 {
                return None;
            }
            assert(v@.subrange(0, j - 1) =~= path@.take(j - 1));
            return Some(string_from_range(&v, 0, j - 1));
        }
        j -= 1;
    }
    None
}

/// The template unit and the instance unit of the getty on the container
/// terminal `tty`.
pub fn container_getty_units(tty: &str) -> (r: (String, String))
    ensures
        r.0@ == "container-getty@.service"@,
        r.1@ == "container-getty@"@ + tty@ + ".service"@,
{
    let from = string_of("container-getty@.service");
    let to0 = concat("container-getty@", tty);
    let to = concat(to0.as_str(), ".service");
    (from, to)
}

/// A container terminal name still names a terminal once `/dev/` (for
/// names under it) and then `pts/` (for names under that) are removed.
pub open spec fn container_tty_wanted(word: Seq<char>) -> bool {
    let t1 = if is_prefix("/dev/"@, word) { remove_all(word, "/dev/"@) } else { word };
    let t2 = if is_prefix("pts/"@, t1) { remove_all(t1, "pts/"@) } else { t1 };
    word.len() > 0 && t2.len() > 0
}

/// Whether a getty is added for the container terminal `word`.
pub fn container_tty(word: &str) -> (r: bool)
    ensures
        r == container_tty_wanted(word@),
{
    if word.is_empty() {
        return false;
    }
    let v = chars_of(word);
    assert(v@.subrange(0, v@.len() as int) =~= v@);
    let dev = chars_of("/dev/");
    let t1 = if has_prefix_at(&v, 0, &dev) { remove_all_of(word, "/dev/") } else { string_of(word) };
    let v1 = chars_of(t1.as_str());
    assert(v1@.subrange(0, v1@.len() as int) =~= v1@);
    let pts = chars_of("pts/");
    let t2 = if has_prefix_at(&v1, 0, &pts) { remove_all_of(t1.as_str(), "pts/") } else { string_of(t1.as_str()) };
    !t2.as_str().is_empty()
}

/// The active kernel consoles that are not virtual terminals: the
/// trimmed, nonempty words of `line` for which `is_vc` fails.
pub open spec fn serial_candidates(words: Seq<Seq<char>>) -> Seq<Seq<char>>
    decreases words.len(),
{
    if words.len() == 0 {
        Seq::empty()
    } else {
        let rest = serial_candidates(words.drop_last());
        let w = trim_ws(words.last());
        if w.len() == 0 || is_vc(w) { rest } else { rest.push(w) }
    }
}

/// The consoles listed in `line` that may get a serial getty.
pub fn serial_consoles(line: &str) -> (r: Vec<String>)
    ensures
        r@.map_values(|s: String| s@) == serial_candidates(split_on(line@, ' ')),
{
    let words = extract_words(line);
    let ghost wv = words@.map_values(|p: &str| p@);
    let mut out: Vec<String> = Vec::new();
    let mut i: usize = 0;
    assert(wv.take(0) =~= Seq::<Seq<char>>::empty());
    assert(out@.map_values(|s: String| s@) =~= Seq::<Seq<char>>::empty());
    while i < words.len()
        invariant
            0 <= i <= words.len(),
            wv == words@.map_values(|p: &str| p@),
            out@.map_values(|s: String| s@) == serial_candidates(wv.take(i as int)),
        decreases words.len() - i,
    {
        assert(wv.take(i + 1).drop_last() =~= wv.take(i as int));
        assert(wv.take(i + 1).last() == words@[i as int]@);
        let wc = chars_of(words[i]);
        assert(wc@.subrange(0, wc@.len() as int) =~= wc@);
        let (a, b) = trim_bounds(&wc, 0, wc.len());
        let w = string_from_range(&wc, a, b);
        if a < b && !tty_is_vc(w.as_str()) {
            let ghost before = out@.map_values(|s: String| s@);
            out.push(w);
            assert(out@.map_values(|s: String| s@) =~= before.push(wc@.subrange(a as int, b as int)));
        }
        i += 1;
    }
    assert(wv.take(i as int) =~= wv);
    out
}

/// `p` occurs in `s`.
pub open spec fn contains_text(s: Seq<char>, p: Seq<char>) -> bool {
    exists|k: int| 0 <= k <= s.len() && #[trigger] is_prefix(p, s.skip(k))
}

/// Whether `p` occurs in `v`.
fn has_text(v: &Vec<char>, p: &str) -> (r: bool)
    ensures
        r == contains_text(v@, p@),
{
    let pv = chars_of(p);
    let mut k: usize = 0;
    while k < v.len()
        invariant
            0 <= k <= v@.len(),
            pv@ == p@,
            forall|j: int| 0 <= j < k ==> !#[trigger] is_prefix(p@, v@.skip(j)),
        decreases v@.len() - k,
    {
        assert(v@.subrange(k as int, v@.len() as int) =~= v@.skip(k as int));
        if has_prefix_at(v, k, &pv) {
            return true;
        }
        k += 1;
    }
    assert(v@.subrange(k as int, v@.len() as int) =~= v@.skip(k as int));
    let last = has_prefix_at(v, k, &pv);
    proof {
        if !last {
            assert forall|j: int| 0 <= j <= v@.len() implies !#[trigger] is_prefix(p@, v@.skip(j)) by {}
        }
    }
    last
}

/// What the generator knows of its surroundings when it looks for a
/// container: whether `/proc/vz` and `/proc/bc` exist, the first line of
/// the kernel's release (empty where it cannot be read), its own tracer's
/// pid as the status file gives it and, where that pid is positive, the
/// tracer's command name (empty where it cannot be read), the first line
/// of `/run/host/container-manager` (empty where missing), whether it
/// runs as pid 1, the `container` environment variable, and whether one
/// of the files that container managers leave behind exists.
#[derive(Debug, Clone)]
pub struct ContainerFacts {
    pub proc_vz: bool,
    pub proc_bc: bool,
    pub os_release: String,
    pub tracer_pid: String,
    pub tracer_comm: String,
    pub container_manager: String,
    pub is_pid1: bool,
    pub container_env: Option<String>,
    pub container_files: bool,
}

/// A container manager's name names a container: `oci` where a
/// container file exists, and the known managers.
pub open spec fn translates(name: Seq<char>, container_files: bool) -> bool {
    (name == "oci"@ && container_files) || known_container(name)
}

/// Whether the container manager `name` marks a container.
pub fn translate_name(name: &str, container_files: bool) -> (r: bool)
    ensures
        r == translates(name@, container_files),
{
    let v = chars_of(name);
    (eq_lit(&v, "oci") && container_files) || container_from_string(name)
}

/// The generator runs in a container: OpenVZ (`/proc/vz` without
/// `/proc/bc`); WSL (its release names `Microsoft` or `WSL`); proot (the
/// tracer is a `proot` process); a manager named under `/run/host`; and
/// then, as pid 1, the `container` variable (or, without it, the container
/// files), and otherwise the container files.
pub open spec fn in_container(f: ContainerFacts) -> bool {
    let tracer = parse_int(f.tracer_pid@, i32::MIN as int, i32::MAX as int, true);
    if f.proc_vz && !f.proc_bc {
        true
    } else if contains_text(f.os_release@, "Microsoft"@) || contains_text(f.os_release@, "WSL"@) {
        true
    } else if f.tracer_pid@ != "0"@ && (tracer matches Some(p) && p > 0) && is_prefix("proot"@, f.tracer_comm@) {
        true
    } else if translates(f.container_manager@, f.container_files) {
        true
    } else if f.is_pid1 {
        match f.container_env {
            Some(e) => translates(e@, f.container_files),
            None => f.container_files,
        }
    } else {
        f.container_files
    }
}

/// Whether the generator runs in a container (see [`in_container`]).
pub fn detect_container(f: &ContainerFacts) -> (r: bool)
    ensures
        r == in_container(*f),
{
    if f.proc_vz && !f.proc_bc {
        return true;
    }
    let rel = chars_of(f.os_release.as_str());
    if has_text(&rel, "Microsoft") || has_text(&rel, "WSL") {
        return true;
    }
    let tp = chars_of(f.tracer_pid.as_str());
    if !eq_lit(&tp, "0") {
        assert(tp@.subrange(0, tp@.len() as int) =~= tp@);
        let pid = parse_int_range(&tp, 0, tp.len(), i32::MIN as i128, i32::MAX as i128, true);
        if let Some(p) = pid {
            if p > 0 {
                let comm = chars_of(f.tracer_comm.as_str());
                let proot = chars_of("proot");
                assert(comm@.subrange(0, comm@.len() as int) =~= comm@);
                if has_prefix_at(&comm, 0, &proot) {
                    return true;
                }
            }
        }
    }
    if translate_name(f.container_manager.as_str(), f.container_files) {
        return true;
    }
    if f.is_pid1 {
        return match &f.container_env {
            Some(e) => translate_name(e.as_str(), f.container_files),
            None => f.container_files,
        };
    }
    f.container_files
}

/// The getty units of the virtual terminals `tty1` to `tty6`.
pub open spec fn vt_getty_names() -> Seq<(Seq<char>, Seq<char>)> {
    Seq::new(6, |i: int| getty_names(Seq::empty(), "tty"@ + decimal((i + 1) as nat))->Some_0)
}

/// The template and instance units of the gettys on `tty1` to `tty6`.
pub fn add_vt_getty() -> (r: Vec<(String, String)>)
    ensures
        r@.map_values(|p: (String, String)| (p.0@, p.1@)) == vt_getty_names(),
{
    let mut out: Vec<(String, String)> = Vec::new();
    let mut i: u32 = 1;
    while i < 7
        invariant
            1 <= i <= 7,
            out@.map_values(|p: (String, String)| (p.0@, p.1@)) == vt_getty_names().take(i - 1),
        decreases 7 - i,
    {
        let mut tty = string_of("tty");
        push_decimal(&mut tty, i);
        proof {
            reveal_strlit("tty");
            reveal_strlit("");
            assert(decimal(i as nat).len() > 0) by {
                reveal_with_fuel(decimal, 2);
            }
        }
        let names = getty_unit_names("", tty.as_str());
        let (from, to) = match names {
            Some(p) => p,
            None => {
                assert(false);
                return out;
            },
        };
        let ghost before = out@.map_values(|p: (String, String)| (p.0@, p.1@));
        out.push((from, to));
        proof {
            assert(""@ =~= Seq::<char>::empty());
            assert(out@.map_values(|p: (String, String)| (p.0@, p.1@)) =~= before.push((from@, to@)));
            assert(vt_getty_names().take(i as int) =~= vt_getty_names().take(i - 1).push(vt_getty_names()[i - 1]));
        }
        i += 1;
    }
    assert(vt_getty_names().take(6) =~= vt_getty_names());
    out
}


/// Law: the serial consoles of a console line are exactly its words,
/// trimmed, that are not empty and not virtual terminals, in the order of
/// the line; the last word counts like any other.
pub proof fn law_serial_candidates(words: Seq<Seq<char>>)
    ensures
        forall|i: int| 0 <= i < words.len() && trim_ws(#[trigger] words[i]).len() > 0 && !is_vc(trim_ws(words[i]))
            ==> serial_candidates(words).contains(trim_ws(words[i])),
        forall|k: int| 0 <= k < serial_candidates(words).len() ==> exists|i: int| 0 <= i < words.len()
            && #[trigger] serial_candidates(words)[k] == trim_ws(words[i]) && trim_ws(words[i]).len() > 0
            && !is_vc(trim_ws(words[i])),
        serial_candidates(words).len() <= words.len(),
    decreases words.len(),
{
    if words.len() > 0 {
        let q = words.drop_last();
        law_serial_candidates(q);
        let rest = serial_candidates(q);
        let w = trim_ws(words.last());
        let r = serial_candidates(words);
        assert forall|i: int| 0 <= i < words.len() && trim_ws(#[trigger] words[i]).len() > 0 && !is_vc(trim_ws(words[i]))
            implies r.contains(trim_ws(words[i])) by {
            if i < words.len() - 1 {
                assert(q[i] == words[i]);
                assert(rest.contains(trim_ws(q[i])));
                let k = choose|k: int| 0 <= k < rest.len() && rest[k] == trim_ws(q[i]);
                if !(w.len() == 0 || is_vc(w)) {
                    assert(r[k] == rest[k]);
                }
            } else {
                assert(words[i] == words.last());
                assert(r[r.len() - 1] == w);
            }
        }
        assert forall|k: int| 0 <= k < r.len() implies exists|i: int| 0 <= i < words.len()
            && #[trigger] r[k] == trim_ws(words[i]) && trim_ws(words[i]).len() > 0 && !is_vc(trim_ws(words[i])) by {
            if k < rest.len() {
                assert(r[k] == rest[k]);
                let i = choose|i: int| 0 <= i < q.len() && #[trigger] rest[k] == trim_ws(q[i]) && trim_ws(q[i]).len() > 0
                    && !is_vc(trim_ws(q[i]));
                assert(q[i] == words[i]);
            } else {
                assert(r[k] == w);
                assert(words[words.len() - 1] == words.last());
            }
        }
    }
}

} // verus!
