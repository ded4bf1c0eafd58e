use oflh::linux::{
    ancestor_step, user_or_unknown,
    cpu_total, deleted_candidate, descriptor_entry, descriptor_usages, fd_access, keeps_process, link_usage, locks,
    map_usage, mapping, other_namespace, parse_stat, permission, revalidate, scan_warnings, status_uid,
};
use oflh::model::{Access, Error, Identity, LockEvidence, Relation};
use oflh::path::Target;

#[test]
fn held_locks_only() {
    assert_eq!(
        locks(
            "lock: 1: -> POSIX ADVISORY WRITE 42 00:13:12 0 EOF\nlock: 2: LEASE ACTIVE READ 42 00:13:12 0 EOF\nlock: 3: OFDLCK ADVISORY READ -1 00:13:12 4 8\n"
        ),
        ["OFDLCK ADVISORY READ bytes 4–8"]
    );
}

#[test]
fn spaces_in_maps() {
    let (process, _, _, ino) =
        mapping(b"100-200 rw-p 0000 00:13 12  /a file\\012name\n").unwrap();
    assert_eq!(process, b"/a file\nname".to_vec());
    assert_eq!(ino, 12);
}

#[test]
fn maps_access_device_and_anonymous_lines() {
    let (path, access, dev, ino) =
        mapping(b"7f00-7f10 r-xp 00000000 fd:01 131 /usr/lib/libc.so.6\n").unwrap();
    assert_eq!(path, b"/usr/lib/libc.so.6".to_vec());
    assert_eq!(access, Access::Execute);
    assert_eq!(dev, (0xfd << 8) | 1);
    assert_eq!(ino, 131);
    assert_eq!(mapping(b"7f00-7f10 r--p 0 00:00 0 \n").map(|m| m.1), None);
    assert_eq!(mapping(b"7f00-7f10 r--p 0 00:00 0 [heap]\n").map(|m| m.1), None);
    assert_eq!(mapping(b"7f00-7f10 r--s 0 08:02 9 /data").map(|m| m.1), Some(Access::Read));
    assert_eq!(mapping(b"7f00-7f10 -w-s 0 08:02 9 /data").map(|m| m.1), Some(Access::Write));
    assert_eq!(mapping(b"7f00-7f10 ---p 0 08:02 9 /data").map(|m| m.1), Some(Access::Mapped));
    assert!(mapping(b"7f00-7f10 r--p 0 0802 9 /data").is_none());
}

#[test]
fn stat_records_with_spaces_and_parentheses_in_names() {
    let record = b"1234 (my (odd) name) S 77 1234 1234 0 -1 4194304 100 0 0 0 15 27 0 0 20 0 1 0 98765 1000000 42 18446744073709551615";
    let stat = parse_stat(1234, record, 4096).unwrap();
    assert_eq!(stat.identity.pid, 1234);
    assert_eq!(stat.identity.started, 98765);
    assert_eq!(stat.name, "my (odd) name");
    assert_eq!(stat.parent, 77);
    assert_eq!(stat.ticks, 42);
    assert_eq!(stat.rss, Some(42 * 4096));
    assert_eq!(parse_stat(1234, record, -1).unwrap().rss, None);
    assert!(parse_stat(1, b"1 (x) S 1 2 3", 4096).is_none());
    assert!(parse_stat(1, b"1 )x( S", 4096).is_none());
}

#[test]
fn machine_cpu_total_sums_eight_counters() {
    assert_eq!(cpu_total("cpu  1 2 3 4 5 6 7 8 9 10\ncpu0 1 1 1\n"), 36);
    assert_eq!(cpu_total("cpu 1 2\n"), 3);
    assert_eq!(cpu_total("intr 1 2\n"), 0);
    assert_eq!(cpu_total("cpu 1 x 3\n"), 0);
    assert_eq!(cpu_total("cpu 18446744073709551615 1\n"), 0);
    assert_eq!(cpu_total(""), 0);
}

#[test]
fn descriptor_flags_give_access_modes() {
    let o_path = 0o10000000;
    assert_eq!(fd_access("pos:\t0\nflags:\t0100000\nmnt_id:\t1\n", o_path), Access::Read);
    assert_eq!(fd_access("pos:\t0\nflags:\t0100001\n", o_path), Access::Write);
    assert_eq!(fd_access("flags:\t02\n", o_path), Access::ReadWrite);
    assert_eq!(fd_access("flags:\t010000000\n", o_path), Access::Reference);
    assert_eq!(fd_access("flags:\t03\n", o_path), Access::Unknown);
    assert_eq!(fd_access("pos:\t0\n", o_path), Access::Unknown);
    assert_eq!(fd_access("flags:\t9\n", o_path), Access::Unknown);
}

#[test]
fn deleted_marker_and_permission_flags() {
    assert_eq!(deleted_candidate(b"/tmp/x (deleted)"), Some(b"/tmp/x".to_vec()));
    assert_eq!(deleted_candidate(b"/tmp/x"), None);
    let mut restricted = false;
    permission(false, &mut restricted);
    assert!(!restricted);
    permission(true, &mut restricted);
    assert!(restricted);
    permission(false, &mut restricted);
    assert!(restricted);
}

#[test]
fn descriptor_records_the_open_file_then_each_lock() {
    let held = vec!["POSIX ADVISORY WRITE bytes 0–EOF".to_string(), "FLOCK ADVISORY READ bytes 0–EOF".to_string()];
    let usages = descriptor_usages(&b"/data/db".to_vec(), Access::ReadWrite, true, &held);
    assert_eq!(usages.len(), 3);
    assert_eq!(usages[0].relation, Relation::Open);
    assert!(usages[0].lock.is_none());
    for (usage, lock) in usages[1..].iter().zip(held.iter()) {
        assert_eq!(usage.path, b"/data/db".to_vec());
        assert_eq!(usage.relation, Relation::Locked);
        assert_eq!(usage.access, Access::ReadWrite);
        assert!(usage.deleted);
        match &usage.lock {
            Some(LockEvidence::Kernel(text)) => assert_eq!(text, lock),
            other => panic!("unexpected lock {other:?}"),
        }
    }
    assert_eq!(descriptor_usages(&b"/x".to_vec(), Access::Read, false, &Vec::new()).len(), 1);
}

#[test]
fn scan_warnings_count_hidden_processes() {
    assert!(scan_warnings(0, 0).is_empty());
    assert_eq!(
        scan_warnings(3, 0),
        ["Limited visibility for 3 processes (permissions). Elevated access may reveal more."]
    );
    assert_eq!(
        scan_warnings(12, 1),
        [
            "Limited visibility for 12 processes (permissions). Elevated access may reveal more.",
            "Skipped 1 processes in other mount namespaces; run oflh inside their container."
        ]
    );
}

#[test]
fn status_reports_effective_user() {
    assert_eq!(status_uid("Name:\tsh\nUid:\t1000\t1001\t1000\t1000\nGid:\t5\n"), Some(1001));
    assert_eq!(status_uid("Uid:\t0\n"), None);
    assert_eq!(status_uid("Name:\tsh\n"), None);
    assert_eq!(status_uid("Uid:\t1 x\n"), None);
}

#[test]
fn scan_decisions_follow_the_target() {
    let dir = Target { path: b"/srv".to_vec(), directory: true, identity: None };
    let file = Target { path: b"/srv/db".to_vec(), directory: false, identity: Some((3, 4)) };
    let cwd = link_usage(&dir, b"/srv/app".to_vec(), false, None, Relation::Cwd, Access::Directory).unwrap();
    assert_eq!((cwd.relation, cwd.access, cwd.deleted), (Relation::Cwd, Access::Directory, false));
    assert!(link_usage(&dir, b"/home".to_vec(), false, None, Relation::Cwd, Access::Directory).is_none());
    assert!(link_usage(&file, b"/elsewhere".to_vec(), true, Some((3, 4)), Relation::Executable, Access::Execute).is_some());
    let info = "flags:\t02\nlock: 1: POSIX ADVISORY WRITE 42 00:13:12 0 EOF\n";
    let usages = descriptor_entry(&dir, &b"/srv/db".to_vec(), false, None, info, 0o10000000);
    assert_eq!(usages.len(), 2);
    assert_eq!(usages[0].access, Access::ReadWrite);
    assert_eq!(usages[1].relation, Relation::Locked);
    assert!(descriptor_entry(&dir, &b"socket:[12]".to_vec(), false, None, info, 0o10000000).is_empty());
    assert!(descriptor_entry(&dir, &b"/tmp/x".to_vec(), false, None, info, 0o10000000).is_empty());
    let mapped = map_usage(&file, b"/lib/renamed".to_vec(), false, Access::Execute, 3, 4).unwrap();
    assert_eq!(mapped.relation, Relation::Mapped);
    assert!(map_usage(&file, b"/srv/db".to_vec(), false, Access::Read, 3, 5).is_none());
}

#[test]
fn processes_are_kept_and_signalled_only_as_observed() {
    let born = Identity { pid: 7, started: 100, started_sub: 0 };
    let reborn = Identity { started: 101, ..born };
    assert!(keeps_process(2, born, Some(born)));
    assert!(!keeps_process(0, born, Some(born)));
    assert!(!keeps_process(2, born, Some(reborn)));
    assert!(!keeps_process(2, born, None));
    assert!(revalidate(born, Ok(born)).is_ok());
    assert!(matches!(revalidate(born, Ok(reborn)), Err(Error::Changed)));
    assert!(matches!(revalidate(born, Err(Error::Protected)), Err(Error::Protected)));
}

#[test]
fn namespaces_differ_only_when_both_are_known() {
    let a = Some(b"mnt:[4026531841]".to_vec());
    let b = Some(b"mnt:[4026532000]".to_vec());
    assert!(other_namespace(&a, &b));
    assert!(!other_namespace(&a, &a.clone()));
    assert!(!other_namespace(&None, &b));
    assert!(!other_namespace(&a, &None));
}

#[test]
fn ancestry_steps_and_unknown_users() {
    let stat = parse_stat(9, b"9 (init) S 1 9 9 0 -1 0 0 0 0 0 1 1 0 0 20 0 1 0 50 100 2 0", 4096);
    let (ancestor, next) = ancestor_step(9, stat);
    assert_eq!((ancestor.identity.pid, ancestor.identity.started, ancestor.name.as_str(), next), (9, 50, "init", Some(1)));
    let (gone, stop) = ancestor_step(12, None);
    assert_eq!((gone.identity.pid, gone.identity.started, gone.name.as_str(), stop), (12, 0, "unavailable", None));
    assert_eq!(user_or_unknown(Some("alice".into())), "alice");
    assert_eq!(user_or_unknown(None), "unknown");
}
