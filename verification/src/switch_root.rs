//! Decisions of switching to a new root file system: the standard
//! directories and links made in the new root, the paths probed for them,
//! and when a failure stops the work.

use vstd::prelude::*;
use crate::getty::concat;
use crate::text::string_of;

verus! {

/// Permission bits `rwxrwxrwx`.
pub const MODE777: u32 = 0o777;

/// Permission bits of the usual directories: the owner's, the group's
/// read bit and all of the others' bits (`rwxr--rwx`).
pub const MODE755: u32 = 0o747;

/// Permission bits `rwxr-x---`.
pub const MODE750: u32 = 0o750;

/// The machine architecture, which decides the entry of the 64-bit
/// library directory.
#[derive(Debug, Clone, Copy, PartialEq, Eq, Structural)]
pub enum Arch {
    X86_64,
    Aarch64,
    Riscv64,
    Other,
}

/// One directory of the new root: its name, the mode it is made with,
/// the directories a link for it may point to (none: it is a plain
/// directory), a file that a link target must hold (empty: any target
/// will do), and whether failing to make it is ignored.
#[derive(Debug, Clone)]
pub struct BaseFilesystem {
    pub dir: String,
    pub mode: u32,
    pub target: Vec<String>,
    pub exists: String,
    pub ignore_failure: bool,
}

/// The view of an entry.
pub open spec fn base_view(b: BaseFilesystem) -> (Seq<char>, u32, Seq<Seq<char>>, Seq<char>, bool) {
    (b.dir@, b.mode, b.target@.map_values(|t: String| t@), b.exists@, b.ignore_failure)
}

/// The entry of the 64-bit library directory for `arch`.
pub open spec fn lib64_entry(arch: Arch) -> (Seq<char>, u32, Seq<Seq<char>>, Seq<char>, bool) {
    match arch {
        Arch::X86_64 => ("lib64"@, MODE755, seq!["usr/sbin/x86_64-linux-gnu"@, "usr/lib64"@], "ld-linux-x86-64.so.2"@, false),
        Arch::Aarch64 => ("lib64"@, MODE777, seq!["usr/sbin/x86_64-linux-gnu"@, "usr/lib64"@], "ld-linux-aarch64.so.1"@, false),
        Arch::Riscv64 => ("lib64"@, MODE777, seq!["usr/sbin/riscv64-linux-gnu"@, "usr/lib64/lp64d"@], "ld-linux-riscv64-lp64d.so.1"@, false),
        Arch::Other => ("lib64"@, MODE777, seq!["usr/sbin/x86_64-linux-gnu"@, "usr/lib64"@], "ld-linux-aarch64.so.1"@, false),
    }
}

/// The directories of a new root, in the order they are made.
pub open spec fn base_table(arch: Arch) -> Seq<(Seq<char>, u32, Seq<Seq<char>>, Seq<char>, bool)> {
    seq![
        ("root"@, MODE750, Seq::empty(), ""@, false),
        ("usr"@, MODE755, Seq::empty(), ""@, false),
        ("var"@, MODE755, Seq::empty(), ""@, false),
        ("etc"@, MODE755, Seq::empty(), ""@, false),
        ("proc"@, MODE755, Seq::empty(), ""@, true),
        ("sys"@, MODE755, Seq::empty(), ""@, true),
        ("dev"@, MODE755, Seq::empty(), ""@, true),
        ("bin"@, MODE777, seq!["usr/bin"@], ""@, false),
        ("lib"@, MODE777, seq!["usr/lib"@], ""@, true),
        ("sbin"@, MODE777, seq!["usr/sbin"@], ""@, false),
        lib64_entry(arch),
    ]
}

fn entry(dir: &str, mode: u32, target: Vec<String>, exists: &str, ignore_failure: bool) -> (r: BaseFilesystem)
    ensures
        base_view(r) == (dir@, mode, target@.map_values(|t: String| t@), exists@, ignore_failure),
{
    BaseFilesystem { dir: string_of(dir), mode, target, exists: string_of(exists), ignore_failure }
}

fn targets1(a: &str) -> (r: Vec<String>)
    ensures
        r@.map_values(|t: String| t@) == seq![a@],
{
    let mut v: Vec<String> = Vec::new();
    v.push(string_of(a));
    assert(v@.map_values(|t: String| t@) =~= seq![a@]);
    v
}

fn targets2(a: &str, b: &str) -> (r: Vec<String>)
    ensures
        r@.map_values(|t: String| t@) == seq![a@, b@],
{
    let mut v: Vec<String> = Vec::new();
    v.push(string_of(a));
    v.push(string_of(b));
    assert(v@.map_values(|t: String| t@) =~= seq![a@, b@]);
    v
}

fn no_targets() -> (r: Vec<String>)
    ensures
        r@.map_values(|t: String| t@) == Seq::<Seq<char>>::empty(),
{
    let v: Vec<String> = Vec::new();
    assert(v@.map_values(|t: String| t@) =~= Seq::<Seq<char>>::empty());
    v
}

/// The directories of a new root for `arch` (see [`base_table`]).
pub fn base_filesystem_table(arch: Arch) -> (r: Vec<BaseFilesystem>)
    ensures
        r@.map_values(|b: BaseFilesystem| base_view(b)) == base_table(arch),
{
    let mut t: Vec<BaseFilesystem> = Vec::new();
    t.push(entry("root", MODE750, no_targets(), "", false));
    t.push(entry("usr", MODE755, no_targets(), "", false));
    t.push(entry("var", MODE755, no_targets(), "", false));
    t.push(entry("etc", MODE755, no_targets(), "", false));
    t.push(entry("proc", MODE755, no_targets(), "", true));
    t.push(entry("sys", MODE755, no_targets(), "", true));
    t.push(entry("dev", MODE755, no_targets(), "", true));
    t.push(entry("bin", MODE777, targets1("usr/bin"), "", false));
    t.push(entry("lib", MODE777, targets1("usr/lib"), "", true));
    t.push(entry("sbin", MODE777, targets1("usr/sbin"), "", false));
    let last = match arch {
        Arch::X86_64 => entry("lib64", MODE755, targets2("usr/sbin/x86_64-linux-gnu", "usr/lib64"), "ld-linux-x86-64.so.2", false),
        Arch::Aarch64 => entry("lib64", MODE777, targets2("usr/sbin/x86_64-linux-gnu", "usr/lib64"), "ld-linux-aarch64.so.1", false),
        Arch::Riscv64 => entry("lib64", MODE777, targets2("usr/sbin/riscv64-linux-gnu", "usr/lib64/lp64d"), "ld-linux-riscv64-lp64d.so.1", false),
        Arch::Other => entry("lib64", MODE777, targets2("usr/sbin/x86_64-linux-gnu", "usr/lib64"), "ld-linux-aarch64.so.1", false),
    };
    t.push(last);
    assert(t@.map_values(|b: BaseFilesystem| base_view(b)) =~= base_table(arch));
    t
}

/// A uid names an owner: neither of the two "no id" values (`-1` and
/// the 16-bit `-1`).
pub open spec fn valid_uid(uid: u32) -> bool {
    uid != 0xFFFF_FFFF && uid != 0xFFFF
}

/// Whether `uid` names a user.
pub fn is_valid_uid(uid: u32) -> (r: bool)
    ensures
        r == valid_uid(uid),
{
    uid != 0xFFFF_FFFF && uid != 0xFFFF
}

/// Whether `gid` names a group (the same values are excluded).
pub fn is_valid_gid(gid: u32) -> (r: bool)
    ensures
        r == valid_uid(gid),
{
    is_valid_uid(gid)
}

/// The path probed to see whether the directory `dir` of the new root is
/// there: the root and the name joined as they stand, without a `/`
/// between them.
pub fn base_dir_probe(new_root: &str, dir: &str) -> (r: String)
    ensures
        r@ == new_root@ + dir@,
{
    concat(new_root, dir)
}

/// The path probed for the link target `target` in the new root.
pub fn target_probe(new_root: &str, target: &str) -> (r: String)
    ensures
        r@ == new_root@ + "/"@ + target@,
{
    let a = concat(new_root, "/");
    concat(a.as_str(), target)
}

/// What is done about one directory of the new root.
#[derive(Debug, Clone, Copy, PartialEq, Eq, Structural)]
pub enum BaseAction {
    /// it is there already, or no link target qualifies
    Skip,
    /// link it to its target with this position
    Link(usize),
    /// make it as a directory
    MakeDir,
}

/// Target `i` qualifies: it is there, and holds the required file where
/// one is required.
pub open spec fn target_ok(needs_file: bool, present: Seq<bool>, holds: Seq<bool>, i: int) -> bool {
    present[i] && (!needs_file || holds[i])
}

/// The action for an entry with `n_targets` link targets, given whether
/// its path is there, whether each target is there and whether each
/// holds the required file.
pub open spec fn base_action_of(n_targets: nat, needs_file: bool, dir_present: bool, present: Seq<bool>, holds: Seq<bool>) -> BaseAction {
    if dir_present {
        BaseAction::Skip
    } else if n_targets == 0 {
        BaseAction::MakeDir
    } else {
        match first_ok(needs_file, present, holds, 0, n_targets as int) {
            Some(i) => BaseAction::Link(i as usize),
            None => BaseAction::Skip,
        }
    }
}

/// The first target from position `k` below `n` that qualifies.
pub open spec fn first_ok(needs_file: bool, present: Seq<bool>, holds: Seq<bool>, k: int, n: int) -> Option<int>
    decreases n - k,
{
    if k < 0 || k >= n {
        None
    } else if target_ok(needs_file, present, holds, k) {
        Some(k)
    } else {
        first_ok(needs_file, present, holds, k + 1, n)
    }
}

/// Decides what to do about `entry`: nothing where its path is there;
/// a directory where it has no link targets; else a link to the first
/// target that qualifies, or nothing where none does.
pub fn base_entry_action(entry: &BaseFilesystem, dir_present: bool, present: &Vec<bool>, holds: &Vec<bool>) -> (r: BaseAction)
    requires
        present@.len() == entry.target@.len(),
        holds@.len() == entry.target@.len(),
    ensures
        r == base_action_of(entry.target@.len(), entry.exists@.len() > 0, dir_present, present@, holds@),
{
    let ghost n = entry.target@.len();
    let ghost needs = entry.exists@.len() > 0;
    if dir_present {
        return BaseAction::Skip;
    }
    if entry.target.len() == 0 {
        return BaseAction::MakeDir;
    }
    let needs_file = !entry.exists.as_str().is_empty();
    let mut i: usize = 0;
    while i < entry.target.len()
        invariant
            0 <= i <= entry.target@.len(),
            present@.len() == entry.target@.len(),
            holds@.len() == entry.target@.len(),
            needs_file == needs,
            needs == (entry.exists@.len() > 0),
            n == entry.target@.len(),
            n > 0,
            !dir_present,
            first_ok(needs, present@, holds@, 0, n as int) == first_ok(needs, present@, holds@, i as int, n as int),
        decreases entry.target@.len() - i,
    {
        if present[i] && (!needs_file || holds[i]) {
            return BaseAction::Link(i);
        }
        i += 1;
    }
    BaseAction::Skip
}

/// After making a directory or link failed: the work goes on where the
/// entry already exists, the file system is read-only, or the entry's
/// failures are ignored; otherwise it stops.
pub fn continue_after_failure(exists_or_read_only: bool, ignore_failure: bool) -> (r: bool)
    ensures
        r == (exists_or_read_only || ignore_failure),
{
    exists_or_read_only || ignore_failure
}

/// Whether a made entry is handed to `uid` and `gid`: where either names
/// an owner.
pub fn should_chown(uid: u32, gid: u32) -> (r: bool)
    ensures
        r == (valid_uid(uid) || valid_uid(gid)),
{
    is_valid_uid(uid) || is_valid_gid(gid)
}

/// Whether switching from `old_root` to `new_root` is attempted at all:
/// not onto the same root.
pub fn switch_wanted(old_root: &str, new_root: &str) -> (r: bool)
    ensures
        r == (old_root@ != new_root@),
{
    !crate::text::str_eq(old_root, new_root)
}

/// The mount points that are moved into the new root.
pub open spec fn moved_mounts() -> Seq<Seq<char>> {
    seq!["/dev"@, "/proc"@, "/sys"@, "/run"@]
}

/// The source and target of moving the mount `mount` from `old_root` to
/// `new_root`: each root followed by the mount point as it stands.
pub fn mount_move_paths(mount: &str, old_root: &str, new_root: &str) -> (r: (String, String))
    ensures
        r.0@ == old_root@ + mount@,
        r.1@ == new_root@ + mount@,
{
    (concat(old_root, mount), concat(new_root, mount))
}

/// The mount points that are moved into the new root, in order.
pub fn moved_mount_points() -> (r: Vec<String>)
    ensures
        r@.map_values(|s: String| s@) == moved_mounts(),
{
    let mut v: Vec<String> = Vec::new();
    v.push(string_of("/dev"));
    v.push(string_of("/proc"));
    v.push(string_of("/sys"));
    v.push(string_of("/run"));
    assert(v@.map_values(|s: String| s@) =~= moved_mounts());
    v
}

} // verus!
