//! Attributing local bindings to processes. Never attach an old PID's binding to a new
//! process lifetime: owners are revalidated by birth identity after socket enumeration.
use vstd::prelude::*;
use std::collections::HashMap;
use crate::model::{Ancestor, AncestorView, Error, Identity, Process, ProcessView};
use crate::ports::{IpAddress, Port, Protocol};

verus! {

broadcast use vstd::std_specs::hash::group_hash_axioms;

/// State of a TCP socket.
#[derive(Clone, Copy, Debug, PartialEq, Eq, Structural)]
pub enum TcpState {
    Closed,
    Listen,
    SynSent,
    SynReceived,
    Established,
    FinWait1,
    FinWait2,
    CloseWait,
    Closing,
    LastAck,
    TimeWait,
    DeleteTcb,
    Unknown,
}

/// A TCP socket as the socket table reports it.
#[derive(Clone, Copy, Debug, PartialEq, Eq, Structural)]
pub struct TcpSocketInfo {
    pub local_addr: IpAddress,
    pub local_port: u16,
    pub remote_addr: IpAddress,
    pub remote_port: u16,
    pub state: TcpState,
}

/// A UDP socket as the socket table reports it.
#[derive(Clone, Copy, Debug, PartialEq, Eq, Structural)]
pub struct UdpSocketInfo {
    pub local_addr: IpAddress,
    pub local_port: u16,
}

/// Protocol-specific socket information.
#[derive(Clone, Copy, Debug, PartialEq, Eq, Structural)]
pub enum ProtocolSocketInfo {
    Tcp(TcpSocketInfo),
    Udp(UdpSocketInfo),
}

/// The local binding a socket stands for: TCP listeners and bound UDP sockets on a non-zero
/// port; nothing for other sockets.
pub open spec fn binding_of(socket: ProtocolSocketInfo) -> Option<Port> {
    match socket {
        ProtocolSocketInfo::Tcp(tcp) => if tcp.state == TcpState::Listen && tcp.local_port != 0 {
            Some(Port { protocol: Protocol::Tcp, address: tcp.local_addr, number: tcp.local_port })
        } else {
            None
        },
        ProtocolSocketInfo::Udp(udp) => if udp.local_port != 0 {
            Some(Port { protocol: Protocol::Udp, address: udp.local_addr, number: udp.local_port })
        } else {
            None
        },
    }
}

/// The binding of a socket, if it is a listener or a bound UDP socket.
pub fn local_binding(socket: ProtocolSocketInfo) -> (r: Option<Port>)
    ensures
        r == binding_of(socket),
{
    match socket {
        ProtocolSocketInfo::Tcp(tcp) => {
            if tcp.state == TcpState::Listen && tcp.local_port != 0 {
                Some(Port { protocol: Protocol::Tcp, address: tcp.local_addr, number: tcp.local_port })
            } else {
                None
            }
        },
        ProtocolSocketInfo::Udp(udp) => {
            if udp.local_port != 0 {
                Some(Port { protocol: Protocol::Udp, address: udp.local_addr, number: udp.local_port })
            } else {
                None
            }
        },
    }
}

/// Some recorded ancestor has PID `pid`.
pub open spec fn has_ancestor_pid(ancestors: Seq<AncestorView>, pid: u32) -> bool {
    exists|i: int| 0 <= i < ancestors.len() && (#[trigger] ancestors[i]).identity.pid == pid
}

/// Whether the ancestry walk continues to `parent` from a process with PID `pid` that has
/// recorded `ancestors`: at most eight ancestors, never PID 0, never back to the process
/// itself or to a recorded ancestor (PID cycles).
pub open spec fn follows(ancestors: Seq<AncestorView>, parent: u32, pid: u32) -> bool {
    parent > 0 && parent != pid && ancestors.len() < 8 && !has_ancestor_pid(ancestors, parent)
}

/// Whether the ancestry walk continues to `parent`.
pub fn should_follow(ancestors: &Vec<Ancestor>, parent: u32, pid: u32) -> (r: bool)
    ensures
        r == follows(ancestors@.map_values(|a: Ancestor| a@), parent, pid),
{
    let ghost v = ancestors@.map_values(|a: Ancestor| a@);
    if parent == 0 || parent == pid || ancestors.len() >= 8 {
        return false;
    }
    let mut i: usize = 0;
    while i < ancestors.len()
        invariant
            i <= ancestors@.len(),
            v == ancestors@.map_values(|a: Ancestor| a@),
            forall|k: int| 0 <= k < i ==> (#[trigger] v[k]).identity.pid != parent,
        decreases ancestors@.len() - i,
    {
        if ancestors[i].identity.pid == parent {
            assert(v[i as int].identity.pid == parent);
            return false;
        }
        i = i + 1;
    }
    true
}

/// The ancestors recorded after walking up from `parent` through the captured processes,
/// starting from those already recorded.
pub open spec fn ancestor_chain(
    before: Map<u32, Process>,
    pid: u32,
    parent: u32,
    acc: Seq<AncestorView>,
) -> Seq<AncestorView>
    decreases 8 - acc.len(),
{
    if follows(acc, parent, pid) && before.contains_key(parent) {
        let a = before[parent]@;
        ancestor_chain(before, pid, a.parent, acc.push(AncestorView { identity: a.identity, name: a.name }))
    } else {
        acc
    }
}

/// A captured process confirmed to still be the same lifetime, with its ancestry completed
/// from the captured processes.
pub open spec fn confirmed(before: Map<u32, Process>, pid: u32) -> ProcessView {
    let p = before[pid]@;
    ProcessView { ancestors: ancestor_chain(before, pid, p.parent, p.ancestors), ..p }
}

/// Return the captured process for `pid` only if its current identity, as `identity`
/// reports it, is the captured birth identity.
pub fn verified_owner(
    before: &HashMap<u32, Process>,
    pid: u32,
    identity: impl FnOnce(u32) -> Result<Identity, Error>,
) -> (r: Option<Process>)
    requires
        call_requires(identity, (pid,)),
    ensures
        !before@.contains_key(pid) ==> r is None,
        before@.contains_key(pid) ==> exists|current: Result<Identity, Error>|
            #[trigger] call_ensures(identity, (pid,), current) && (r is Some <==> (current is Ok && current->Ok_0
                == before@[pid].identity)),
        r matches Some(p) ==> p@ == confirmed(before@, pid),
{
    let captured = match before.get(&pid) {
        Some(captured) => captured,
        None => {
            return None;
        },
    };
    let current = identity(pid);
    let same = match &current {
        Ok(id) => *id == captured.identity,
        Err(_) => false,
    };
    if !same {
        assert(call_ensures(identity, (pid,), current));
        return None;
    }
    let mut process = captured.clone();
    let mut parent = process.parent;
    let ghost base = captured@;
    while should_follow(&process.ancestors, parent, pid)
        invariant
            before@.contains_key(pid),
            base == before@[pid]@,
            process@ == (ProcessView { ancestors: process@.ancestors, ..base }),
            ancestor_chain(before@, pid, base.parent, base.ancestors) == ancestor_chain(
                before@,
                pid,
                parent,
                process@.ancestors,
            ),
        ensures
            process@ == (ProcessView { ancestors: process@.ancestors, ..base }),
            ancestor_chain(before@, pid, base.parent, base.ancestors) == process@.ancestors,
        decreases 8 - process@.ancestors.len(),
    {
        let ancestor = match before.get(&parent) {
            Some(ancestor) => ancestor,
            None => {
                assert(ancestor_chain(before@, pid, parent, process@.ancestors) == process@.ancestors);
                break;
            },
        };
        let ghost before_push = process@.ancestors;
        process.ancestors.push(Ancestor { identity: ancestor.identity, name: ancestor.name.clone() });
        assert(process@.ancestors =~= before_push.push(
            AncestorView { identity: before@[parent]@.identity, name: before@[parent]@.name },
        ));
        parent = ancestor.parent;
    }
    assert(call_ensures(identity, (pid,), current));
    Some(process)
}

/// The stand-in for bindings whose owner could not be confirmed: no identity, so it can
/// never be a termination target.
pub open spec fn unowned_view(ports: Seq<Port>) -> ProcessView {
    ProcessView {
        identity: Identity { pid: 0, started: 0, started_sub: 0 },
        name: "owner unavailable"@,
        user: "unknown"@,
        parent: 0,
        executable: Seq::empty(),
        cwd: Seq::empty(),
        usages: Seq::empty(),
        ancestors: Seq::empty(),
        ports,
        memory: None,
        cpu: None,
    }
}

/// The owners of the first `n` groups of bindings, each confirmed owner with its bindings.
pub open spec fn owned_views(groups: Seq<(Option<ProcessView>, Seq<Port>)>) -> Seq<ProcessView>
    decreases groups.len(),
{
    if groups.len() == 0 {
        Seq::empty()
    } else {
        owned_views(groups.drop_last()) + match groups.last().0 {
            Some(p) => seq![ProcessView { ports: groups.last().1, ..p }],
            None => Seq::empty(),
        }
    }
}

/// The bindings of the groups whose owner could not be confirmed, in order.
pub open spec fn unowned_ports(groups: Seq<(Option<ProcessView>, Seq<Port>)>) -> Seq<Port>
    decreases groups.len(),
{
    if groups.len() == 0 {
        Seq::empty()
    } else {
        unowned_ports(groups.drop_last()) + match groups.last().0 {
            Some(_) => Seq::empty(),
            None => groups.last().1,
        }
    }
}

/// The warning for bindings shown without an owner.
pub open spec fn unowned_warning() -> Seq<char> {
    "Some port owners are unavailable or changed during scanning; their ports are shown without an actionable PID."@
}

/// What every port scan notes about its bindings.
pub open spec fn ports_note() -> Seq<char> {
    "Ports are local TCP listeners and bound UDP sockets, not proof of remote reachability. Permissions and network namespaces limit visibility; container port forwarding is not enumerated."@
}

/// The processes of a port scan: each confirmed owner with its bindings, then, when some
/// bindings have no confirmed owner (no process reported, or its identity changed), one
/// stand-in that holds them all.
pub open spec fn port_processes_view(groups: Seq<(Option<ProcessView>, Seq<Port>)>, unattributed: Seq<Port>) -> Seq<ProcessView> {
    let rest = unattributed + unowned_ports(groups);
    owned_views(groups) + if rest.len() > 0 { seq![unowned_view(rest)] } else { Seq::empty() }
}

/// The warnings of a port scan: those of the enumeration, then the warning about bindings
/// without an owner when there are any, then the note on what bindings mean.
pub open spec fn port_warnings_view(groups: Seq<(Option<ProcessView>, Seq<Port>)>, unattributed: Seq<Port>, warnings: Seq<Seq<char>>) -> Seq<Seq<char>> {
    let rest = unattributed + unowned_ports(groups);
    warnings + (if rest.len() > 0 { seq![unowned_warning()] } else { Seq::empty() }) + seq![ports_note()]
}

/// The views of owner groups.
pub open spec fn groups_view(groups: Seq<(Option<Process>, Vec<Port>)>) -> Seq<(Option<ProcessView>, Seq<Port>)> {
    groups.map_values(|g: (Option<Process>, Vec<Port>)| (match g.0 { Some(p) => Some(p@), None => None }, g.1@))
}

/// Assemble a port scan from the bindings grouped by reported owner, each group with the
/// owner `verified_owner` confirmed (if any), the bindings no process was reported for, and
/// the enumeration's warnings.
pub fn port_snapshot(groups: Vec<(Option<Process>, Vec<Port>)>, unattributed: Vec<Port>, warnings: Vec<String>) -> (r: crate::model::Snapshot)
    ensures
        r@.processes == port_processes_view(groups_view(groups@), unattributed@),
        r@.warnings == port_warnings_view(groups_view(groups@), unattributed@, warnings@.map_values(|w: String| w@)),
{
    let ghost gv = groups_view(groups@);
    let mut processes: Vec<Process> = Vec::new();
    let mut rest: Vec<Port> = unattributed;
    let ghost base = rest@;
    let mut groups = groups;
    let ghost all = groups@;
    let ghost mut i: int = 0;
    assert(all.skip(0) =~= all);
    while groups.len() > 0
        invariant
            0 <= i <= all.len(),
            groups@ == all.skip(i as int),
            i + groups@.len() == all.len(),
            gv == groups_view(all),
            processes@.map_values(|p: Process| p@) == owned_views(gv.take(i as int)),
            rest@ == base + unowned_ports(gv.take(i as int)),
        decreases groups@.len(),
    {
        assert(i < all.len() && gv.len() == all.len());
        let ghost g = gv[i as int];
        assert(gv.take(i as int + 1).drop_last() =~= gv.take(i as int));
        assert(gv.take(i as int + 1).last() == g);
        assert(groups@[0] == all[i as int]);
        let (owner, ports) = groups.remove(0);
        assert(groups@ =~= all.skip(i as int + 1));
        assert(g == (match owner { Some(p) => Some(p@), None => None::<ProcessView> }, ports@));
        match owner {
            Some(mut p) => {
                let ghost before = processes@.map_values(|p: Process| p@);
                let ghost pv = p@;
                p.ports = ports;
                processes.push(p);
                assert(processes@.map_values(|p: Process| p@) =~= before.push(ProcessView { ports: g.1, ..pv }));
                assert(base + unowned_ports(gv.take(i as int + 1)) =~= base + unowned_ports(gv.take(i as int)));
            },
            None => {
                let ghost before = rest@;
                let mut k: usize = 0;
                while k < ports.len()
                    invariant
                        k <= ports@.len(),
                        rest@ == before + ports@.take(k as int),
                    decreases ports@.len() - k,
                {
                    rest.push(ports[k]);
                    assert(ports@.take(k as int + 1) =~= ports@.take(k as int).push(ports@[k as int]));
                    k = k + 1;
                }
                assert(ports@.take(ports@.len() as int) =~= ports@);
                assert(base + unowned_ports(gv.take(i as int + 1)) =~= before + ports@);
                assert(owned_views(gv.take(i as int + 1)) =~= owned_views(gv.take(i as int)));
            },
        }
        proof {
            i = i + 1;
        }
    }
    assert(gv.take(all.len() as int) =~= gv);
    let mut warnings = warnings;
    let ghost wv = warnings@.map_values(|w: String| w@);
    if rest.len() > 0 {
        warnings.push(String::from_str("Some port owners are unavailable or changed during scanning; their ports are shown without an actionable PID."));
        let mut owner = Process::default();
        owner.name = String::from_str("owner unavailable");
        owner.user = String::from_str("unknown");
        let ghost before = processes@.map_values(|p: Process| p@);
        let ghost rv = rest@;
        owner.ports = rest;
        assert(owner@.executable =~= Seq::<u8>::empty());
        assert(owner@.cwd =~= Seq::<u8>::empty());
        assert(owner@.usages =~= Seq::<crate::model::UsageView>::empty());
        assert(owner@.ancestors =~= Seq::<AncestorView>::empty());
        assert(owner@ == unowned_view(rv));
        processes.push(owner);
        assert(processes@.map_values(|p: Process| p@) =~= before.push(unowned_view(rv)));
    }
    let ghost noted = warnings@.map_values(|w: String| w@);
    warnings.push(String::from_str("Ports are local TCP listeners and bound UDP sockets, not proof of remote reachability. Permissions and network namespaces limit visibility; container port forwarding is not enumerated."));
    assert(warnings@.map_values(|w: String| w@) =~= noted.push(ports_note()));
    let r = crate::model::Snapshot { processes, warnings };
    assert(r@.processes =~= port_processes_view(gv, unattributed@));
    assert(r@.warnings =~= port_warnings_view(gv, unattributed@, wv));
    r
}

} // verus!
