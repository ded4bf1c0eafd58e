use oflh::model::{safe, AccessKind, Error, Identity, LockEvidence, Process, Snapshot, Usage};
use oflh::ports::{IpAddress, Port, Protocol};

#[test]
fn terminal_text_is_made_safe() {
    assert_eq!(safe("bad\x1b]52;payload\x07"), "bad\u{fffd}]52;payload\u{fffd}");
    assert_eq!(safe("Über tab\tline\n"), "Über tab\u{fffd}line\u{fffd}");
    assert_eq!(safe(""), "");
}

#[test]
fn only_observed_non_system_identities_are_actionable() {
    let id = |pid, started| Identity { pid, started, started_sub: 0 };
    assert!(id(424242, 10).validate().is_ok());
    assert!(matches!(id(1, 10).validate(), Err(Error::Protected)));
    assert!(matches!(id(0, 10).validate(), Err(Error::Protected)));
    assert!(matches!(id(99, 0).validate(), Err(Error::Protected)));
}

#[test]
fn lock_evidence_text() {
    assert_eq!(LockEvidence::SharingConflict(AccessKind::Write).text(), "sharing conflict: write denied");
    assert_eq!(LockEvidence::SharingConflict(AccessKind::Read).text(), "sharing conflict: read denied");
    assert_eq!(LockEvidence::SharingConflict(AccessKind::Delete).text(), "sharing conflict: delete denied");
    assert_eq!(LockEvidence::Kernel("POSIX ADVISORY WRITE".to_string()).text(), "POSIX ADVISORY WRITE");
}

#[test]
fn normalize_joins_file_and_port_records() {
    let id = Identity { pid: 42, started: 7, started_sub: 0 };
    let mut files = Process::default();
    files.identity = id;
    files.name = "server".into();
    files.usages = vec![Usage { path: b"/srv/app".to_vec(), ..Usage::default() }];
    let mut other = Process::default();
    other.identity = Identity { pid: 43, started: 1, started_sub: 0 };
    let mut ports = Process::default();
    ports.identity = id;
    ports.name = "server (ports)".into();
    ports.ports = vec![Port { protocol: Protocol::Tcp, address: IpAddress::V4(0), number: 8080 }];
    let mut snapshot = Snapshot { processes: vec![files, other, ports], warnings: vec!["w".into()] };
    snapshot.normalize();
    assert_eq!(snapshot.processes.len(), 2);
    let joined = &snapshot.processes[0];
    assert_eq!(joined.identity, id);
    assert_eq!(joined.name, "server");
    assert_eq!(joined.usages.len(), 1, "file references survive joining port records");
    assert_eq!(joined.ports.len(), 1);
    assert_eq!(snapshot.processes[1].identity.pid, 43);
    assert_eq!(snapshot.warnings, ["w"]);
}
