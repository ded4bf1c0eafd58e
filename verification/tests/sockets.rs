use oflh::model::{Error, Identity, Process};
use oflh::ports::{IpAddress, Port, Protocol};
use oflh::sockets::{
    local_binding, port_snapshot, verified_owner, ProtocolSocketInfo, TcpSocketInfo, TcpState, UdpSocketInfo,
};
use std::collections::HashMap;


fn v4(text: &str) -> IpAddress {
    match text { "127.0.0.1" => IpAddress::V4(0x7f00_0001), _ => IpAddress::V4(0) }
}

#[test]
fn changed_or_unavailable_birth_never_gets_socket_ownership() {
    let identity = Identity {
        pid: 424242,
        started: 10,
        started_sub: 0,
    };
    let before = HashMap::from([(
        identity.pid,
        Process {
            identity,
            ..Process::default()
        },
    )]);
    assert!(verified_owner(&before, identity.pid, |_| Ok(identity)).is_some());
    assert!(verified_owner(&before, identity.pid, |_| Ok(Identity {
        started: 11,
        ..identity
    }))
    .is_none());
    assert!(verified_owner(&before, identity.pid, |_| Err(Error::Changed)).is_none());
    assert!(verified_owner(&before, 999, |_| Ok(identity)).is_none());
}

#[test]
fn only_listeners_and_bound_udp_are_ports() {
    let mut tcp = TcpSocketInfo {
        local_addr: v4("127.0.0.1"),
        local_port: 3000,
        remote_addr: v4("127.0.0.1"),
        remote_port: 50000,
        state: TcpState::Established,
    };
    assert!(local_binding(ProtocolSocketInfo::Tcp(tcp.clone())).is_none());
    tcp.state = TcpState::Listen;
    assert_eq!(
        local_binding(ProtocolSocketInfo::Tcp(tcp)).unwrap().number,
        3000
    );
    assert!(local_binding(ProtocolSocketInfo::Udp(UdpSocketInfo {
        local_addr: v4("0.0.0.0"),
        local_port: 0,
    }))
    .is_none());
}

#[test]
fn owner_ancestry_follows_captured_parents_without_cycles() {
    let child = Identity { pid: 30, started: 3, started_sub: 0 };
    let parent = Identity { pid: 20, started: 2, started_sub: 0 };
    let grandparent = Identity { pid: 10, started: 1, started_sub: 0 };
    let before = HashMap::from([
        (30, Process { identity: child, parent: 20, name: "child".into(), ..Process::default() }),
        (20, Process { identity: parent, parent: 10, name: "parent".into(), ..Process::default() }),
        (10, Process { identity: grandparent, parent: 30, name: "root".into(), ..Process::default() }),
    ]);
    let owner = verified_owner(&before, 30, |_| Ok(child)).unwrap();
    let names: Vec<_> = owner.ancestors.iter().map(|a| a.name.as_str()).collect();
    assert_eq!(names, ["parent", "root"]);
    assert_eq!(owner.ancestors[1].identity, grandparent);
}

#[test]
fn unconfirmed_bindings_gather_under_an_unavailable_owner() {
    let port = |n: u16| Port { protocol: Protocol::Tcp, address: IpAddress::V4(0), number: n };
    let mut owner = Process::default();
    owner.identity = Identity { pid: 7, started: 1, started_sub: 0 };
    let snapshot = port_snapshot(
        vec![(Some(owner), vec![port(80)]), (None, vec![port(81), port(82)])],
        vec![port(79)],
        vec!["partial".to_string()],
    );
    assert_eq!(snapshot.processes.len(), 2);
    assert_eq!(snapshot.processes[0].ports, vec![port(80)]);
    let unowned = &snapshot.processes[1];
    assert_eq!((unowned.name.as_str(), unowned.user.as_str(), unowned.identity.pid), ("owner unavailable", "unknown", 0));
    assert_eq!(unowned.ports, vec![port(79), port(81), port(82)]);
    assert_eq!(snapshot.warnings.len(), 3);
    assert_eq!(snapshot.warnings[0], "partial");
    assert!(snapshot.warnings[1].starts_with("Some port owners are unavailable"));
    let plain = port_snapshot(vec![], vec![], vec![]);
    assert!(plain.processes.is_empty());
    assert_eq!(plain.warnings.len(), 1);
}
