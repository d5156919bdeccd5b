use sysmaster_exts::switch_root::{
    base_dir_probe, base_entry_action, base_filesystem_table, continue_after_failure, is_valid_gid, is_valid_uid,
    mount_move_paths, moved_mount_points, should_chown, switch_wanted, target_probe, Arch, BaseAction, MODE750,
    MODE755, MODE777,
};

#[test]
fn base_table_entries() {
    let t = base_filesystem_table(Arch::X86_64);
    let dirs: Vec<&str> = t.iter().map(|b| b.dir.as_str()).collect();
    assert_eq!(dirs, vec!["root", "usr", "var", "etc", "proc", "sys", "dev", "bin", "lib", "sbin", "lib64"]);
    assert_eq!(t[0].mode, MODE750);
    assert_eq!(t[1].mode, 0o747);
    assert_eq!(MODE755, 0o747);
    assert_eq!(t[7].mode, MODE777);
    assert_eq!(t[7].target, vec!["usr/bin".to_string()]);
    assert!(t[8].ignore_failure);
    assert_eq!(t[10].exists, "ld-linux-x86-64.so.2");
    assert_eq!(t[10].mode, MODE755);
    let r = base_filesystem_table(Arch::Riscv64);
    assert_eq!(r[10].target, vec!["usr/sbin/riscv64-linux-gnu".to_string(), "usr/lib64/lp64d".to_string()]);
    assert_eq!(r[10].mode, MODE777);
}

#[test]
fn base_entry_actions() {
    let t = base_filesystem_table(Arch::Aarch64);
    // a plain directory
    assert_eq!(base_entry_action(&t[2], false, &vec![], &vec![]), BaseAction::MakeDir);
    assert_eq!(base_entry_action(&t[2], true, &vec![], &vec![]), BaseAction::Skip);
    // a link with one target
    assert_eq!(base_entry_action(&t[7], false, &vec![true], &vec![false]), BaseAction::Link(0));
    assert_eq!(base_entry_action(&t[7], false, &vec![false], &vec![false]), BaseAction::Skip);
    // a link whose target must hold the loader
    assert_eq!(base_entry_action(&t[10], false, &vec![true, true], &vec![false, true]), BaseAction::Link(1));
    assert_eq!(base_entry_action(&t[10], false, &vec![true, false], &vec![true, true]), BaseAction::Link(0));
    assert_eq!(base_entry_action(&t[10], false, &vec![true, true], &vec![false, false]), BaseAction::Skip);
}

#[test]
fn switch_root_paths_and_ids() {
    assert_eq!(base_dir_probe("/tmp/new_root", "usr"), "/tmp/new_rootusr");
    assert_eq!(target_probe("/tmp/new_root", "usr/bin"), "/tmp/new_root/usr/bin");
    assert_eq!(mount_move_paths("/dev", "/", "/sysroot"), ("//dev".to_string(), "/sysroot/dev".to_string()));
    assert_eq!(moved_mount_points(), vec!["/dev", "/proc", "/sys", "/run"]);
    assert!(!switch_wanted("/", "/"));
    assert!(switch_wanted("/", "/sysroot"));
    assert!(!is_valid_uid(0xFFFF_FFFF));
    assert!(!is_valid_uid(0xFFFF));
    assert!(is_valid_uid(0));
    assert!(!is_valid_gid(0xFFFF));
    assert!(!should_chown(0xFFFF_FFFF, 0xFFFF_FFFF));
    assert!(should_chown(0xFFFF_FFFF, 0));
    assert!(continue_after_failure(true, false));
    assert!(continue_after_failure(false, true));
    assert!(!continue_after_failure(false, false));
}
