//! Observations of processes, their file usages and local bindings, as one scan records them.
use vstd::prelude::*;
use crate::text::{char_control, is_control};
use crate::ports::Port;

verus! {

/// Birth identity of a process: its PID and the start time the OS reports for it.
/// A PID alone can be reused; the pair names one process lifetime.
#[derive(Clone, Copy, Debug, PartialEq, Eq, Hash, Structural)]
pub struct Identity {
    /// Process identifier.
    pub pid: u32,
    /// Start time in platform units.
    pub started: u64,
    /// Sub-second part of the start time where the platform has one.
    pub started_sub: u64,
}

impl Default for Identity {
    fn default() -> (r: Self)
        ensures
            r.pid == 0 && r.started == 0 && r.started_sub == 0,
    {
        Identity { pid: 0, started: 0, started_sub: 0 }
    }
}

/// An identity may be a termination target: it names a real process (not PID 0 or 1) whose
/// start time was observed.
pub open spec fn actionable(id: Identity) -> bool {
    id.pid > 1 && id.started != 0
}

impl Identity {
    /// Refuse identities that are protected or were never fully observed.
    pub fn validate(&self) -> (r: Result<(), Error>)
        ensures
            r is Ok <==> actionable(*self),
            r is Err ==> r == Err::<(), Error>(Error::Protected),
    {
        if self.pid > 1 && self.started != 0 {
            Ok(())
        } else {
            Err(Error::Protected)
        }
    }
}

/// How a process refers to a path.
#[derive(Clone, Copy, Debug, PartialEq, Eq, Hash, Structural)]
pub enum Relation {
    /// Current working directory.
    Cwd,
    /// The process executable.
    Executable,
    /// An open file descriptor or handle.
    Open,
    /// Lock or sharing-conflict evidence.
    Locked,
    /// A mapped file or loaded module.
    Mapped,
    /// A resource user reported by the Windows Restart Manager.
    RestartManager,
}

impl Default for Relation {
    fn default() -> (r: Self)
        ensures
            r == Relation::Open,
    {
        Relation::Open
    }
}

/// Display and search label of a relation.
pub open spec fn relation_label(r: Relation) -> Seq<char> {
    match r {
        Relation::Cwd => "cwd"@,
        Relation::Executable => "executable"@,
        Relation::Open => "open"@,
        Relation::Locked => "locked"@,
        Relation::Mapped => "mapped"@,
        Relation::RestartManager => "restart manager"@,
    }
}

impl Relation {
    /// Stable display and search label.
    pub fn label(self) -> (r: &'static str)
        ensures
            r@ == relation_label(self),
    {
        match self {
            Relation::Cwd => "cwd",
            Relation::Executable => "executable",
            Relation::Open => "open",
            Relation::Locked => "locked",
            Relation::Mapped => "mapped",
            Relation::RestartManager => "restart manager",
        }
    }
}

/// Access mode with which a path is used.
#[derive(Clone, Copy, Debug, PartialEq, Eq, Hash, Structural)]
pub enum Access {
    Read,
    Write,
    ReadWrite,
    Execute,
    Mapped,
    Directory,
    Reference,
    Unknown,
}

impl Default for Access {
    fn default() -> (r: Self)
        ensures
            r == Access::Unknown,
    {
        Access::Unknown
    }
}

/// Display and search label of an access mode.
pub open spec fn access_label(a: Access) -> Seq<char> {
    match a {
        Access::Read => "read"@,
        Access::Write => "write"@,
        Access::ReadWrite => "read/write"@,
        Access::Execute => "execute"@,
        Access::Mapped => "mapped"@,
        Access::Directory => "directory"@,
        Access::Reference => "reference"@,
        Access::Unknown => "unknown"@,
    }
}

impl Access {
    /// Stable display and search label.
    pub fn label(self) -> (r: &'static str)
        ensures
            r@ == access_label(self),
    {
        match self {
            Access::Read => "read",
            Access::Write => "write",
            Access::ReadWrite => "read/write",
            Access::Execute => "execute",
            Access::Mapped => "mapped",
            Access::Directory => "directory",
            Access::Reference => "reference",
            Access::Unknown => "unknown",
        }
    }
}

/// Kind of access refused by a sharing conflict.
#[derive(Clone, Copy, Debug, PartialEq, Eq, Hash, Structural)]
pub enum AccessKind {
    Read,
    Write,
    Delete,
}

/// Evidence that a file is locked.
#[derive(Debug)]
pub enum LockEvidence {
    /// A lock the kernel reports, described in words.
    Kernel(String),
    /// A probe for this kind of access failed with a sharing violation.
    SharingConflict(AccessKind),
}

/// The abstract content of lock evidence.
pub enum LockView {
    Kernel(Seq<char>),
    SharingConflict(AccessKind),
}

impl View for LockEvidence {
    type V = LockView;

    open spec fn view(&self) -> LockView {
        match self {
            LockEvidence::Kernel(s) => LockView::Kernel(s@),
            LockEvidence::SharingConflict(k) => LockView::SharingConflict(*k),
        }
    }
}

/// Text of lock evidence.
pub open spec fn lock_text_view(l: LockView) -> Seq<char> {
    match l {
        LockView::Kernel(s) => s,
        LockView::SharingConflict(AccessKind::Read) => "sharing conflict: read denied"@,
        LockView::SharingConflict(AccessKind::Write) => "sharing conflict: write denied"@,
        LockView::SharingConflict(AccessKind::Delete) => "sharing conflict: delete denied"@,
    }
}

impl Clone for LockEvidence {
    fn clone(&self) -> (r: Self)
        ensures
            r@ == self@,
    {
        match self {
            LockEvidence::Kernel(s) => LockEvidence::Kernel(s.clone()),
            LockEvidence::SharingConflict(k) => LockEvidence::SharingConflict(*k),
        }
    }
}

impl LockEvidence {
    /// Describe the evidence in words.
    pub fn text(&self) -> (r: String)
        ensures
            r@ == lock_text_view(self@),
    {
        match self {
            LockEvidence::Kernel(s) => s.clone(),
            LockEvidence::SharingConflict(AccessKind::Read) => String::from_str("sharing conflict: read denied"),
            LockEvidence::SharingConflict(AccessKind::Write) => String::from_str("sharing conflict: write denied"),
            LockEvidence::SharingConflict(AccessKind::Delete) => String::from_str("sharing conflict: delete denied"),
        }
    }
}

/// One way in which a process uses a path.
#[derive(Debug)]
pub struct Usage {
    /// The path as native bytes.
    pub path: Vec<u8>,
    pub relation: Relation,
    pub access: Access,
    /// The path was deleted while still in use.
    pub deleted: bool,
    pub lock: Option<LockEvidence>,
}

/// The abstract content of a usage.
pub struct UsageView {
    pub path: Seq<u8>,
    pub relation: Relation,
    pub access: Access,
    pub deleted: bool,
    pub lock: Option<LockView>,
}

impl View for Usage {
    type V = UsageView;

    open spec fn view(&self) -> UsageView {
        UsageView {
            path: self.path@,
            relation: self.relation,
            access: self.access,
            deleted: self.deleted,
            lock: match self.lock {
                Some(l) => Some(l@),
                None => None,
            },
        }
    }
}

impl Default for Usage {
    fn default() -> (r: Self)
        ensures
            r@.path.len() == 0,
            r.relation == Relation::Open,
            r.access == Access::Unknown,
            !r.deleted,
            r.lock is None,
    {
        Usage { path: Vec::new(), relation: Relation::Open, access: Access::Unknown, deleted: false, lock: None }
    }
}

/// A copy of a byte vector.
pub fn copy_bytes(v: &Vec<u8>) -> (r: Vec<u8>)
    ensures
        r@ == v@,
{
    let mut out: Vec<u8> = Vec::new();
    let mut i: usize = 0;
    while i < v.len()
        invariant
            i <= v@.len(),
            out@ == v@.take(i as int),
        decreases v@.len() - i,
    {
        out.push(v[i]);
        assert(v@.take(i as int + 1) =~= v@.take(i as int).push(v@[i as int]));
        i = i + 1;
    }
    assert(v@.take(v@.len() as int) =~= v@);
    out
}

impl Clone for Usage {
    fn clone(&self) -> (r: Self)
        ensures
            r@ == self@,
    {
        let lock = match &self.lock {
            Some(l) => Some(l.clone()),
            None => None,
        };
        Usage { path: copy_bytes(&self.path), relation: self.relation, access: self.access, deleted: self.deleted, lock }
    }
}

impl Usage {
    /// Whether two usages record the same observation.
    pub fn same_as(&self, other: &Usage) -> (r: bool)
        ensures
            r == (self@ == other@),
    {
        if self.relation != other.relation || self.access != other.access || self.deleted != other.deleted {
            return false;
        }
        if self.path.len() != other.path.len() || !crate::text::bytes_occur_at(&self.path, &other.path, 0) {
            proof {
                if self.path@ == other.path@ {
                    assert(self.path@.subrange(0, other.path@.len() as int) =~= other.path@);
                }
            }
            return false;
        }
        assert(self.path@.subrange(0, other.path@.len() as int) =~= self.path@);
        assert(self.path@ == other.path@);
        let same_lock = match &self.lock {
            None => other.lock.is_none(),
            Some(LockEvidence::SharingConflict(a)) => match &other.lock {
                Some(LockEvidence::SharingConflict(b)) => *a == *b,
                _ => false,
            },
            Some(LockEvidence::Kernel(a)) => match &other.lock {
                Some(LockEvidence::Kernel(b)) => {
                    let e = a.eq(b);
                    assert(e == (a@ == b@));
                    assert(self@.lock == Some(LockView::Kernel(a@)));
                    assert(other@.lock == Some(LockView::Kernel(b@)));
                    e
                },
                _ => false,
            },
        };
        assert(same_lock == (self@.lock == other@.lock));
        same_lock
    }
}

/// An ancestor of a process, captured with its identity.
#[derive(Debug)]
pub struct Ancestor {
    pub identity: Identity,
    pub name: String,
}

/// The abstract content of an ancestor.
pub struct AncestorView {
    pub identity: Identity,
    pub name: Seq<char>,
}

impl View for Ancestor {
    type V = AncestorView;

    open spec fn view(&self) -> AncestorView {
        AncestorView { identity: self.identity, name: self.name@ }
    }
}

impl Clone for Ancestor {
    fn clone(&self) -> (r: Self)
        ensures
            r@ == self@,
    {
        Ancestor { identity: self.identity, name: self.name.clone() }
    }
}

/// A process and what it uses, as one scan observed it.
#[derive(Debug)]
pub struct Process {
    pub identity: Identity,
    pub name: String,
    pub user: String,
    /// Parent PID (0 when unknown).
    pub parent: u32,
    pub executable: Vec<u8>,
    pub cwd: Vec<u8>,
    pub usages: Vec<Usage>,
    /// Ancestors, nearest first.
    pub ancestors: Vec<Ancestor>,
    pub ports: Vec<Port>,
    /// Resident memory in bytes.
    pub memory: Option<u64>,
    /// Share of machine CPU time as the bit pattern of a non-negative `f64` percentage;
    /// the patterns order as the percentages do.
    pub cpu: Option<u64>,
}

/// The abstract content of a process.
pub struct ProcessView {
    pub identity: Identity,
    pub name: Seq<char>,
    pub user: Seq<char>,
    pub parent: u32,
    pub executable: Seq<u8>,
    pub cwd: Seq<u8>,
    pub usages: Seq<UsageView>,
    pub ancestors: Seq<AncestorView>,
    pub ports: Seq<Port>,
    pub memory: Option<u64>,
    pub cpu: Option<u64>,
}

impl View for Process {
    type V = ProcessView;

    open spec fn view(&self) -> ProcessView {
        ProcessView {
            identity: self.identity,
            name: self.name@,
            user: self.user@,
            parent: self.parent,
            executable: self.executable@,
            cwd: self.cwd@,
            usages: self.usages@.map_values(|u: Usage| u@),
            ancestors: self.ancestors@.map_values(|a: Ancestor| a@),
            ports: self.ports@,
            memory: self.memory,
            cpu: self.cpu,
        }
    }
}

impl Default for Process {
    fn default() -> (r: Self)
        ensures
            r.identity == (Identity { pid: 0, started: 0, started_sub: 0 }),
            r@.name.len() == 0,
            r@.user.len() == 0,
            r.parent == 0,
            r@.executable.len() == 0,
            r@.cwd.len() == 0,
            r@.usages.len() == 0,
            r@.ancestors.len() == 0,
            r@.ports.len() == 0,
            r.memory is None,
            r.cpu is None,
    {
        Process {
            identity: Identity { pid: 0, started: 0, started_sub: 0 },
            name: String::new(),
            user: String::new(),
            parent: 0,
            executable: Vec::new(),
            cwd: Vec::new(),
            usages: Vec::new(),
            ancestors: Vec::new(),
            ports: Vec::new(),
            memory: None,
            cpu: None,
        }
    }
}

impl Clone for Process {
    fn clone(&self) -> (r: Self)
        ensures
            r@ == self@,
    {
        let mut usages: Vec<Usage> = Vec::new();
        let mut i: usize = 0;
        while i < self.usages.len()
            invariant
                i <= self.usages@.len(),
                usages@.map_values(|u: Usage| u@) == self.usages@.take(i as int).map_values(|u: Usage| u@),
            decreases self.usages@.len() - i,
        {
            let ghost before = usages@.map_values(|u: Usage| u@);
            usages.push(self.usages[i].clone());
            assert(usages@.map_values(|u: Usage| u@) =~= before.push(self.usages@[i as int]@));
            assert(self.usages@.take(i as int + 1).map_values(|u: Usage| u@) =~= self.usages@.take(i as int).map_values(|u: Usage| u@).push(self.usages@[i as int]@));
            i = i + 1;
        }
        assert(self.usages@.take(self.usages@.len() as int) =~= self.usages@);
        let mut ancestors: Vec<Ancestor> = Vec::new();
        let mut k: usize = 0;
        while k < self.ancestors.len()
            invariant
                k <= self.ancestors@.len(),
                ancestors@.map_values(|a: Ancestor| a@) == self.ancestors@.take(k as int).map_values(|a: Ancestor| a@),
            decreases self.ancestors@.len() - k,
        {
            let ghost before = ancestors@.map_values(|a: Ancestor| a@);
            ancestors.push(self.ancestors[k].clone());
            assert(ancestors@.map_values(|a: Ancestor| a@) =~= before.push(self.ancestors@[k as int]@));
            assert(self.ancestors@.take(k as int + 1).map_values(|a: Ancestor| a@) =~= self.ancestors@.take(k as int).map_values(|a: Ancestor| a@).push(self.ancestors@[k as int]@));
            k = k + 1;
        }
        assert(self.ancestors@.take(self.ancestors@.len() as int) =~= self.ancestors@);
        let mut ports: Vec<Port> = Vec::new();
        let mut m: usize = 0;
        while m < self.ports.len()
            invariant
                m <= self.ports@.len(),
                ports@ == self.ports@.take(m as int),
            decreases self.ports@.len() - m,
        {
            ports.push(self.ports[m]);
            assert(self.ports@.take(m as int + 1) =~= self.ports@.take(m as int).push(self.ports@[m as int]));
            m = m + 1;
        }
        assert(self.ports@.take(self.ports@.len() as int) =~= self.ports@);
        let r = Process {
            identity: self.identity,
            name: self.name.clone(),
            user: self.user.clone(),
            parent: self.parent,
            executable: copy_bytes(&self.executable),
            cwd: copy_bytes(&self.cwd),
            usages,
            ancestors,
            ports,
            memory: self.memory,
            cpu: self.cpu,
        };
        assert(r@.usages =~= self@.usages);
        assert(r@.ancestors =~= self@.ancestors);
        r
    }
}

/// Resource measurements of one process.
#[derive(Clone, Copy, Debug, PartialEq, Eq)]
pub struct Metrics {
    /// CPU share, as in [`Process::cpu`].
    pub cpu: Option<u64>,
    /// Resident memory in bytes.
    pub memory: Option<u64>,
}

/// The processes one scan observed and what limited the observation.
#[derive(Debug)]
pub struct Snapshot {
    pub processes: Vec<Process>,
    pub warnings: Vec<String>,
}

/// The abstract content of a snapshot.
pub struct SnapshotView {
    pub processes: Seq<ProcessView>,
    pub warnings: Seq<Seq<char>>,
}

impl View for Snapshot {
    type V = SnapshotView;

    open spec fn view(&self) -> SnapshotView {
        SnapshotView {
            processes: self.processes@.map_values(|p: Process| p@),
            warnings: self.warnings@.map_values(|w: String| w@),
        }
    }
}

impl Clone for Snapshot {
    fn clone(&self) -> (r: Self)
        ensures
            r@ == self@,
    {
        let mut processes: Vec<Process> = Vec::new();
        let mut i: usize = 0;
        while i < self.processes.len()
            invariant
                i <= self.processes@.len(),
                processes@.map_values(|p: Process| p@) == self.processes@.take(i as int).map_values(|p: Process| p@),
            decreases self.processes@.len() - i,
        {
            let ghost before = processes@.map_values(|p: Process| p@);
            processes.push(self.processes[i].clone());
            assert(processes@.map_values(|p: Process| p@) =~= before.push(self.processes@[i as int]@));
            assert(self.processes@.take(i as int + 1).map_values(|p: Process| p@) =~= self.processes@.take(i as int).map_values(|p: Process| p@).push(self.processes@[i as int]@));
            i = i + 1;
        }
        assert(self.processes@.take(self.processes@.len() as int) =~= self.processes@);
        let mut warnings: Vec<String> = Vec::new();
        let mut k: usize = 0;
        while k < self.warnings.len()
            invariant
                k <= self.warnings@.len(),
                warnings@.map_values(|w: String| w@) == self.warnings@.take(k as int).map_values(|w: String| w@),
            decreases self.warnings@.len() - k,
        {
            let ghost before = warnings@.map_values(|w: String| w@);
            warnings.push(self.warnings[k].clone());
            assert(warnings@.map_values(|w: String| w@) =~= before.push(self.warnings@[k as int]@));
            assert(self.warnings@.take(k as int + 1).map_values(|w: String| w@) =~= self.warnings@.take(k as int).map_values(|w: String| w@).push(self.warnings@[k as int]@));
            k = k + 1;
        }
        assert(self.warnings@.take(self.warnings@.len() as int) =~= self.warnings@);
        let r = Snapshot { processes, warnings };
        assert(r@.processes =~= self@.processes);
        assert(r@.warnings =~= self@.warnings);
        r
    }
}

impl Default for Snapshot {
    fn default() -> (r: Self)
        ensures
            r.processes@.len() == 0,
            r.warnings@.len() == 0,
    {
        Snapshot { processes: Vec::new(), warnings: Vec::new() }
    }
}

/// Why an operation could not be completed.
#[derive(Debug)]
pub enum Error {
    /// A native call failed.
    Io {
        /// What was being done.
        operation: String,
        /// The platform's description of the failure.
        detail: String,
        /// The failure was a permission refusal.
        denied: bool,
    },
    /// The process changed identity (PID reuse) or exited.
    Changed,
    /// The target is protected or its identity was never observed.
    Protected,
    /// The work was cancelled.
    Cancelled,
    /// The platform does not offer the information.
    Unavailable(String),
}

/// The description of an error.
pub open spec fn error_text(e: Error) -> Seq<char> {
    match e {
        Error::Io { operation, detail, .. } => operation@ + ": "@ + detail@,
        Error::Changed => "the process changed or exited"@,
        Error::Protected => "the process is protected or its identity is unknown"@,
        Error::Cancelled => "cancelled"@,
        Error::Unavailable(what) => what@,
    }
}

impl Error {
    /// Describe the error in words.
    pub fn text(&self) -> (r: String)
        ensures
            r@ == error_text(*self),
    {
        match self {
            Error::Io { operation, detail, .. } => {
                let mut out = crate::text::chars_of(operation.as_str());
                let sep = crate::text::chars_of(": ");
                let tail = crate::text::chars_of(detail.as_str());
                let ghost a = out@;
                let mut i: usize = 0;
                while i < sep.len()
                    invariant
                        i <= sep@.len(),
                        out@ == a + sep@.take(i as int),
                    decreases sep@.len() - i,
                {
                    out.push(sep[i]);
                    assert(sep@.take(i as int + 1) =~= sep@.take(i as int).push(sep@[i as int]));
                    i = i + 1;
                }
                assert(sep@.take(sep@.len() as int) =~= sep@);
                let ghost b = out@;
                let mut k: usize = 0;
                while k < tail.len()
                    invariant
                        k <= tail@.len(),
                        out@ == b + tail@.take(k as int),
                    decreases tail@.len() - k,
                {
                    out.push(tail[k]);
                    assert(tail@.take(k as int + 1) =~= tail@.take(k as int).push(tail@[k as int]));
                    k = k + 1;
                }
                assert(tail@.take(tail@.len() as int) =~= tail@);
                crate::text::to_string(&out)
            },
            Error::Changed => String::from_str("the process changed or exited"),
            Error::Protected => String::from_str("the process is protected or its identity is unknown"),
            Error::Cancelled => String::from_str("cancelled"),
            Error::Unavailable(what) => what.clone(),
        }
    }
}

/// A terminal-safe character: control characters become U+FFFD.
pub open spec fn safe_char(c: char) -> char {
    if char_control(c) { '�' } else { c }
}

/// Replace control characters, so that observed names cannot drive the terminal.
pub fn safe(text: &str) -> (r: String)
    ensures
        r@ == text@.map_values(|c: char| safe_char(c)),
{
    let chars = crate::text::chars_of(text);
    let mut out: Vec<char> = Vec::new();
    let mut i: usize = 0;
    while i < chars.len()
        invariant
            i <= chars@.len(),
            chars@ == text@,
            out@ == chars@.take(i as int).map_values(|c: char| safe_char(c)),
        decreases chars@.len() - i,
    {
        let c = chars[i];
        out.push(if is_control(c) { '�' } else { c });
        assert(chars@.take(i as int + 1).map_values(|c: char| safe_char(c)) =~= chars@.take(i as int).map_values(
            |c: char| safe_char(c),
        ).push(safe_char(c)));
        i = i + 1;
    }
    assert(chars@.take(chars@.len() as int) =~= chars@);
    crate::text::to_string(&out)
}

// ----- joining the records of one process -----

/// A record of a process joined with a later record of the same process: the usages and the
/// bindings of both, in order; the rest as the first record observed it.
pub open spec fn joined(a: ProcessView, b: ProcessView) -> ProcessView {
    ProcessView { usages: a.usages + b.usages, ports: a.ports + b.ports, ..a }
}

/// Records with one more record taken in: joined to the record of the same birth identity
/// when there is one, else added at the end.
pub open spec fn merge_into(acc: Seq<ProcessView>, p: ProcessView) -> Seq<ProcessView> {
    match crate::state::position_of(acc, p.identity) {
        Some(k) => acc.update(k, joined(acc[k], p)),
        None => acc.push(p),
    }
}

/// One record per birth identity, in the order identities first occur, each with the usages
/// and bindings of every record of that identity.
pub open spec fn normalized(ps: Seq<ProcessView>) -> Seq<ProcessView>
    decreases ps.len(),
{
    if ps.len() == 0 {
        Seq::empty()
    } else {
        merge_into(normalized(ps.drop_last()), ps.last())
    }
}

/// The joined records hold a record with the identity of `p` that keeps every usage and
/// binding of `p`.
pub open spec fn kept(n: Seq<ProcessView>, p: ProcessView) -> bool {
    exists|k: int| #![trigger n[k]] 0 <= k < n.len() && n[k].identity == p.identity
        && (forall|m: int| 0 <= m < p.usages.len() ==> n[k].usages.contains(#[trigger] p.usages[m]))
        && (forall|m: int| 0 <= m < p.ports.len() ==> n[k].ports.contains(#[trigger] p.ports[m]))
}

impl Snapshot {
    /// Join the records of each process, by birth identity, into one.
    pub fn normalize(&mut self)
        ensures
            final(self)@.processes == normalized(old(self)@.processes),
            final(self)@.warnings == old(self)@.warnings,
    {
        let mut rest: Vec<Process> = Vec::new();
        std::mem::swap(&mut rest, &mut self.processes);
        let ghost all = crate::ranking::processes_view(rest@);
        let mut out: Vec<Process> = Vec::new();
        let ghost mut i: int = 0;
        assert(all.skip(0) =~= all);
        assert(all.take(0) =~= Seq::<ProcessView>::empty());
        assert(crate::ranking::processes_view(out@) =~= Seq::<ProcessView>::empty());
        while rest.len() > 0
            invariant
                0 <= i <= all.len(),
                i + rest@.len() == all.len(),
                crate::ranking::processes_view(rest@) == all.skip(i),
                crate::ranking::processes_view(out@) == normalized(all.take(i)),
            decreases rest@.len(),
        {
            let ghost rv = crate::ranking::processes_view(rest@);
            assert(rv[0] == all[i]);
            let ghost old_rest = rest@;
            let mut p = rest.remove(0);
            assert(rest@ =~= old_rest.subrange(1, old_rest.len() as int));
            assert(crate::ranking::processes_view(rest@) =~= rv.subrange(1, rv.len() as int));
            assert(rv.subrange(1, rv.len() as int) =~= all.skip(i + 1));
            assert(all.take(i + 1).drop_last() =~= all.take(i));
            assert(all.take(i + 1).last() == all[i]);
            let ghost pv = p@;
            let ghost acc = crate::ranking::processes_view(out@);
            match crate::tui::position(&out, p.identity) {
                Some(k) => {
                    let mut m = out.remove(k);
                    let ghost mv = m@;
                    assert(mv == acc[k as int]);
                    assert(crate::ranking::processes_view(out@) =~= acc.take(k as int) + acc.skip(k + 1));
                    let ghost mu = m.usages@;
                    let ghost pu = p.usages@;
                    m.usages.append(&mut p.usages);
                    m.ports.append(&mut p.ports);
                    assert(m.usages@.map_values(|u: Usage| u@) =~= mu.map_values(|u: Usage| u@) + pu.map_values(|u: Usage| u@));
                    assert(m@ == joined(mv, pv));
                    let ghost before = crate::ranking::processes_view(out@);
                    out.insert(k, m);
                    assert(crate::ranking::processes_view(out@) =~= acc.update(k as int, joined(acc[k as int], pv)));
                },
                None => {
                    out.push(p);
                    assert(crate::ranking::processes_view(out@) =~= acc.push(pv));
                },
            }
            proof {
                i = i + 1;
            }
        }
        assert(all.take(all.len() as int) =~= all);
        self.processes = out;
    }
}

proof fn lemma_merge_into(acc: Seq<ProcessView>, p: ProcessView)
    requires
        forall|a: int, b: int| 0 <= a < b < acc.len() ==> (#[trigger] acc[a]).identity != (#[trigger] acc[b]).identity,
    ensures
        forall|a: int, b: int| 0 <= a < b < merge_into(acc, p).len() ==> (#[trigger] merge_into(acc, p)[a]).identity
            != (#[trigger] merge_into(acc, p)[b]).identity,
        forall|q: ProcessView| kept(acc, q) ==> kept(merge_into(acc, p), q),
        kept(merge_into(acc, p), p),
        forall|k: int| 0 <= k < merge_into(acc, p).len() ==> (k < acc.len() && (#[trigger] merge_into(acc, p)[k]).identity == acc[k].identity)
            || merge_into(acc, p)[k].identity == p.identity,
{
    let pred = |x: ProcessView| x.identity == p.identity;
    crate::state::lemma_first_where_found(acc, pred);
    crate::state::lemma_first_where_none(acc, pred);
    let n = merge_into(acc, p);
    match crate::state::position_of(acc, p.identity) {
        Some(k) => {
            assert(pred(acc[k]));
            assert forall|q: ProcessView| kept(acc, q) implies kept(n, q) by {
                let j = choose|j: int| #![trigger acc[j]] 0 <= j < acc.len() && acc[j].identity == q.identity
                    && (forall|m: int| 0 <= m < q.usages.len() ==> acc[j].usages.contains(#[trigger] q.usages[m]))
                    && (forall|m: int| 0 <= m < q.ports.len() ==> acc[j].ports.contains(#[trigger] q.ports[m]));
                if j == k {
                    assert forall|m: int| 0 <= m < q.usages.len() implies n[j].usages.contains(#[trigger] q.usages[m]) by {
                        let x = choose|x: int| 0 <= x < acc[j].usages.len() && acc[j].usages[x] == q.usages[m];
                        assert(n[j].usages[x] == q.usages[m]);
                    }
                    assert forall|m: int| 0 <= m < q.ports.len() implies n[j].ports.contains(#[trigger] q.ports[m]) by {
                        let x = choose|x: int| 0 <= x < acc[j].ports.len() && acc[j].ports[x] == q.ports[m];
                        assert(n[j].ports[x] == q.ports[m]);
                    }
                } else {
                    assert(n[j] == acc[j]);
                }
                assert(n[j].identity == q.identity);
            }
            assert forall|m: int| 0 <= m < p.usages.len() implies n[k].usages.contains(#[trigger] p.usages[m]) by {
                assert(n[k].usages[acc[k].usages.len() + m] == p.usages[m]);
            }
            assert forall|m: int| 0 <= m < p.ports.len() implies n[k].ports.contains(#[trigger] p.ports[m]) by {
                assert(n[k].ports[acc[k].ports.len() + m] == p.ports[m]);
            }
            assert(n[k].identity == p.identity);
        },
        None => {
            assert forall|q: ProcessView| kept(acc, q) implies kept(n, q) by {
                let j = choose|j: int| #![trigger acc[j]] 0 <= j < acc.len() && acc[j].identity == q.identity
                    && (forall|m: int| 0 <= m < q.usages.len() ==> acc[j].usages.contains(#[trigger] q.usages[m]))
                    && (forall|m: int| 0 <= m < q.ports.len() ==> acc[j].ports.contains(#[trigger] q.ports[m]));
                assert(n[j] == acc[j]);
            }
            let last = acc.len() as int;
            assert(n[last] == p);
            assert forall|m: int| 0 <= m < p.usages.len() implies n[last].usages.contains(#[trigger] p.usages[m]) by {
                assert(n[last].usages[m] == p.usages[m]);
            }
            assert forall|m: int| 0 <= m < p.ports.len() implies n[last].ports.contains(#[trigger] p.ports[m]) by {
                assert(n[last].ports[m] == p.ports[m]);
            }
            assert forall|a: int, b: int| 0 <= a < b < n.len() implies (#[trigger] n[a]).identity != (#[trigger] n[b]).identity by {
                if b == last {
                    assert(!pred(acc[a]));
                }
            }
        },
    }
}

/// Joining the records of processes loses nothing and leaves each birth identity once:
/// the joined records have distinct identities, each the identity of some record, and for
/// each record a joined record of its identity keeps all its usages and bindings.
pub proof fn law_normalize_joins_each_identity_once(ps: Seq<ProcessView>)
    ensures
        forall|a: int, b: int| 0 <= a < b < normalized(ps).len() ==> (#[trigger] normalized(ps)[a]).identity
            != (#[trigger] normalized(ps)[b]).identity,
        forall|i: int| 0 <= i < ps.len() ==> kept(normalized(ps), #[trigger] ps[i]),
        forall|k: int| 0 <= k < normalized(ps).len() ==> exists|i: int| 0 <= i < ps.len() && (#[trigger] ps[i]).identity
            == (#[trigger] normalized(ps)[k]).identity,
    decreases ps.len(),
{
    if ps.len() > 0 {
        let front = ps.drop_last();
        law_normalize_joins_each_identity_once(front);
        let acc = normalized(front);
        lemma_merge_into(acc, ps.last());
        let n = normalized(ps);
        assert forall|i: int| 0 <= i < ps.len() implies kept(n, #[trigger] ps[i]) by {
            if i < ps.len() - 1 {
                assert(front[i] == ps[i]);
                assert(kept(acc, front[i]));
            }
        }
        assert forall|k: int| 0 <= k < n.len() implies exists|i: int| 0 <= i < ps.len() && (#[trigger] ps[i]).identity
            == (#[trigger] n[k]).identity by {
            if k < acc.len() && n[k].identity == acc[k].identity {
                let i = choose|i: int| 0 <= i < front.len() && (#[trigger] front[i]).identity == acc[k].identity;
                assert(ps[i] == front[i]);
            } else {
                assert(ps[ps.len() - 1].identity == n[k].identity);
            }
        }
    }
}

} // verus!
