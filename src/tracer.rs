//! The decision core of the multi-process syscall tracer.
//!
//! The tracer keeps one entry per traced process. Each wait status that the
//! caller observes is handed to [`Tracer::handle_wait_status`], which updates
//! the entries and returns the ptrace requests to perform, in order.

use vstd::prelude::*;

use crate::syscall::StringRegister;

verus! {

pub const SIGKILL: i32 = 9;

pub const SIGTRAP: i32 = 5;

pub const SIGTERM: i32 = 15;

pub const SIGSTOP: i32 = 19;

/// Where a traced process stands in its syscall cycle.
#[derive(Clone, Copy, Debug, PartialEq, Eq, Structural)]
pub enum ChildProcessState {
    Created,
    Running,
    EnteringSyscall,
    ExitingSyscall,
    PtraceEvent,
}

/// The kind of a ptrace event stop.
#[derive(Clone, Copy, Debug, PartialEq, Eq, Structural)]
pub enum PtraceEventKind {
    Fork,
    Vfork,
    Clone,
    Exec,
    Exit,
    Other,
}

/// What a non-blocking wait on one traced process reported.
#[derive(Clone, Copy, Debug, PartialEq, Eq, Structural)]
pub enum WaitEvent {
    Exited { pid: i32, status: i32 },
    PtraceEvent { pid: i32, signal: i32, event: PtraceEventKind },
    PtraceSyscall { pid: i32 },
    Signaled { pid: i32, signal: i32 },
    Stopped { pid: i32, signal: i32 },
    Nothing,
}

/// A ptrace request that the caller performs.
#[allow(inconsistent_fields)]
#[derive(Clone, Copy, Debug, PartialEq, Eq, Structural)]
pub enum TraceAction {
    /// Resume until the next syscall stop, delivering `signal` if any.
    Resume { pid: i32, signal: Option<i32> },
    /// Stop tracing the process, delivering `signal` if any.
    Detach { pid: i32, signal: Option<i32> },
    /// Ask for the pid of the new process and report it with
    /// [`Tracer::child_spawned`].
    FetchNewChild { pid: i32, signal: i32 },
    /// Apply the tracing options to the process.
    SetOptions { pid: i32 },
    /// Read the syscall that the process is entering and publish it.
    CaptureSyscall { pid: i32 },
}

/// The abstract state of one traced process.
pub struct ChildView {
    pub pid: i32,
    pub state: ChildProcessState,
    pub last_signal: Option<i32>,
    pub parent: Option<i32>,
    pub cache: Seq<(StringRegister, Seq<char>)>,
}

/// One traced process and the path strings read from it during the current
/// stop.
pub struct ChildProcess {
    pid: i32,
    state: ChildProcessState,
    last_signal: Option<i32>,
    parent: Option<i32>,
    register_cache: Vec<(StringRegister, String)>,
}

/// The first string cached for `reg`.
pub open spec fn cache_lookup(cache: Seq<(StringRegister, Seq<char>)>, reg: StringRegister) -> Option<
    Seq<char>,
>
    decreases cache.len(),
{
    if cache.len() == 0 {
        None
    } else if cache[0].0 == reg {
        Some(cache[0].1)
    } else {
        cache_lookup(cache.drop_first(), reg)
    }
}

pub open spec fn cache_view(c: Seq<(StringRegister, String)>) -> Seq<(StringRegister, Seq<char>)> {
    c.map_values(|e: (StringRegister, String)| (e.0, e.1@))
}

impl View for ChildProcess {
    type V = ChildView;

    closed spec fn view(&self) -> ChildView {
        ChildView {
            pid: self.pid,
            state: self.state,
            last_signal: self.last_signal,
            parent: self.parent,
            cache: cache_view(self.register_cache@),
        }
    }
}

impl ChildProcess {
    fn new(pid: i32, parent: Option<i32>) -> (r: Self)
        ensures
            r@ == (ChildView {
                pid,
                state: ChildProcessState::Created,
                last_signal: None,
                parent,
                cache: Seq::empty(),
            }),
    {
        let r = ChildProcess {
            pid,
            state: ChildProcessState::Created,
            last_signal: None,
            parent,
            register_cache: Vec::new(),
        };
        assert(cache_view(r.register_cache@) =~= Seq::empty());
        r
    }

    pub fn pid(&self) -> (r: i32)
        ensures
            r == self@.pid,
    {
        self.pid
    }

    pub fn state(&self) -> (r: ChildProcessState)
        ensures
            r == self@.state,
    {
        self.state
    }

    pub fn parent(&self) -> (r: Option<i32>)
        ensures
            r == self@.parent,
    {
        self.parent
    }

    pub fn last_signal(&self) -> (r: Option<i32>)
        ensures
            r == self@.last_signal,
    {
        self.last_signal
    }

    /// The string read from `reg` during this stop, if any.
    pub fn cached_string(&self, reg: StringRegister) -> (r: Option<String>)
        ensures
            match r {
                Some(s) => cache_lookup(self@.cache, reg) == Some(s@),
                None => cache_lookup(self@.cache, reg) is None,
            },
    {
        let ghost c = cache_view(self.register_cache@);
        let n = self.register_cache.len();
        assert(c.subrange(0, n as int) =~= c);
        let mut i: usize = 0;
        while i < n
            invariant
                n == c.len(),
                c == cache_view(self.register_cache@),
                c == self@.cache,
                i <= n,
                cache_lookup(c, reg) == cache_lookup(c.subrange(i as int, n as int), reg),
            decreases n - i,
        {
            assert(c.subrange(i as int, n as int).drop_first() =~= c.subrange(i as int + 1, n as int));
            if self.register_cache[i].0 == reg {
                return Some(self.register_cache[i].1.clone());
            }
            i = i + 1;
        }
        None
    }

    /// Forgets every string read during the previous stop.
    pub fn clear_register_cache(&mut self)
        ensures
            final(self)@ == (ChildView { cache: Seq::empty(), ..old(self)@ }),
    {
        self.register_cache = Vec::new();
        assert(cache_view(self.register_cache@) =~= Seq::empty());
    }
}

/// The processes under trace, ordered by pid.
pub struct Tracer {
    children: Vec<ChildProcess>,
}

pub open spec fn children_view(c: Seq<ChildProcess>) -> Seq<ChildView> {
    c.map_values(|p: ChildProcess| p@)
}

/// Strictly increasing pids: each process appears once.
pub open spec fn ordered_by_pid(s: Seq<ChildView>) -> bool {
    forall|i: int, j: int| 0 <= i < j < s.len() ==> s[i].pid < s[j].pid
}

/// `i` is the position of the process `pid`.
pub open spec fn slot_of(s: Seq<ChildView>, pid: i32, i: int) -> bool {
    0 <= i < s.len() && s[i].pid == pid
}

pub open spec fn is_known(s: Seq<ChildView>, pid: i32) -> bool {
    exists|i: int| slot_of(s, pid, i)
}

/// The successor of a state at a syscall stop: entering, exiting, running.
pub open spec fn syscall_stop_successor(s: ChildProcessState) -> Option<ChildProcessState> {
    match s {
        ChildProcessState::Running => Some(ChildProcessState::EnteringSyscall),
        ChildProcessState::EnteringSyscall => Some(ChildProcessState::ExitingSyscall),
        ChildProcessState::ExitingSyscall => Some(ChildProcessState::Running),
        _ => None,
    }
}

/// Detaching each of `pids` with SIGTERM, in order.
pub open spec fn terminate_all(pids: Seq<ChildView>) -> Seq<TraceAction> {
    pids.map_values(|c: ChildView| TraceAction::Detach { pid: c.pid, signal: Some(SIGTERM) })
}

/// The entry at `i` after a stop: the new state and signal, an empty cache.
pub open spec fn after_stop(
    c: ChildView,
    state: ChildProcessState,
    last_signal: Option<i32>,
) -> ChildView {
    ChildView { state, last_signal, cache: Seq::empty(), ..c }
}

/// Removing the process at `i`: detach it, and if it was the root, detach
/// every other process with SIGTERM and forget them all.
pub open spec fn removal(
    old: Seq<ChildView>,
    i: int,
    new: Seq<ChildView>,
    actions: Seq<TraceAction>,
) -> bool {
    let first = TraceAction::Detach { pid: old[i].pid, signal: None };
    if old[i].parent is None {
        &&& new == Seq::<ChildView>::empty()
        &&& actions == seq![first] + terminate_all(old.remove(i))
    } else {
        &&& new == old.remove(i)
        &&& actions == seq![first]
    }
}

/// What a wait status does to a known process at position `i`.
pub open spec fn transition(
    old: Seq<ChildView>,
    i: int,
    ev: WaitEvent,
    new: Seq<ChildView>,
    actions: Seq<TraceAction>,
) -> bool {
    let c = old[i];
    let pid = c.pid;
    let keep = |state: ChildProcessState, sig: Option<i32>, acts: Seq<TraceAction>|
        new == old.update(i, after_stop(c, state, sig)) && actions == acts;
    match ev {
        WaitEvent::Exited { .. } => removal(old, i, new, actions),
        WaitEvent::PtraceEvent { signal, event, .. } => match event {
            PtraceEventKind::Fork | PtraceEventKind::Vfork | PtraceEventKind::Clone => keep(
                c.state,
                Some(signal),
                seq![TraceAction::FetchNewChild { pid, signal }],
            ),
            PtraceEventKind::Exec => keep(
                c.state,
                Some(signal),
                seq![TraceAction::Resume { pid, signal: Some(signal) }],
            ),
            PtraceEventKind::Exit => removal(old, i, new, actions),
            PtraceEventKind::Other => keep(c.state, Some(signal), seq![]),
        },
        WaitEvent::PtraceSyscall { .. } => match syscall_stop_successor(c.state) {
            Some(next) => keep(
                next,
                None,
                if c.state == ChildProcessState::Running {
                    seq![
                        TraceAction::CaptureSyscall { pid },
                        TraceAction::Resume { pid, signal: None },
                    ]
                } else {
                    seq![TraceAction::Resume { pid, signal: None }]
                },
            ),
            None => keep(c.state, None, seq![]),
        },
        WaitEvent::Signaled { signal, .. } => if signal == SIGTRAP {
            if c.state == ChildProcessState::Created {
                keep(
                    ChildProcessState::Running,
                    Some(signal),
                    seq![TraceAction::SetOptions { pid }, TraceAction::Resume { pid, signal: None }],
                )
            } else if c.state == ChildProcessState::Running {
                keep(
                    ChildProcessState::PtraceEvent,
                    Some(signal),
                    seq![TraceAction::Resume { pid, signal: None }],
                )
            } else {
                keep(c.state, Some(signal), seq![])
            }
        } else if signal == SIGTERM || signal == SIGKILL {
            removal(old, i, new, actions)
        } else {
            keep(c.state, Some(signal), seq![TraceAction::Resume { pid, signal: Some(signal) }])
        },
        WaitEvent::Stopped { signal, .. } => if signal == SIGTRAP || signal == SIGSTOP {
            if c.state == ChildProcessState::Created {
                keep(
                    ChildProcessState::Running,
                    None,
                    seq![TraceAction::Resume { pid, signal: None }],
                )
            } else if c.state == ChildProcessState::Running {
                keep(c.state, None, seq![TraceAction::Resume { pid, signal: None }])
            } else {
                keep(c.state, None, seq![])
            }
        } else {
            removal(old, i, new, actions)
        },
        WaitEvent::Nothing => keep(c.state, c.last_signal, seq![]),
    }
}

/// The pid that a wait status speaks of.
pub open spec fn event_pid(ev: WaitEvent) -> Option<i32> {
    match ev {
        WaitEvent::Exited { pid, .. } => Some(pid),
        WaitEvent::PtraceEvent { pid, .. } => Some(pid),
        WaitEvent::PtraceSyscall { pid } => Some(pid),
        WaitEvent::Signaled { pid, .. } => Some(pid),
        WaitEvent::Stopped { pid, .. } => Some(pid),
        WaitEvent::Nothing => None,
    }
}

impl View for Tracer {
    type V = Seq<ChildView>;

    closed spec fn view(&self) -> Seq<ChildView> {
        children_view(self.children@)
    }
}

/// The process at position `i` as it would be built with the given fields
/// and an empty cache.
fn rebuilt(c: &ChildProcess, state: ChildProcessState, last_signal: Option<i32>) -> (r:
    ChildProcess)
    ensures
        r@ == after_stop(c@, state, last_signal),
{
    let r = ChildProcess {
        pid: c.pid,
        state,
        last_signal,
        parent: c.parent,
        register_cache: Vec::new(),
    };
    assert(cache_view(r.register_cache@) =~= Seq::empty());
    r
}

fn one(a: TraceAction) -> (r: Vec<TraceAction>)
    ensures
        r@ == seq![a],
{
    let mut r = Vec::new();
    r.push(a);
    assert(r@ =~= seq![a]);
    r
}

fn two(a: TraceAction, b: TraceAction) -> (r: Vec<TraceAction>)
    ensures
        r@ == seq![a, b],
{
    let mut r = Vec::new();
    r.push(a);
    r.push(b);
    assert(r@ =~= seq![a, b]);
    r
}

impl Tracer {
    /// Every process appears once and they are ordered by pid.
    pub open spec fn wf(&self) -> bool {
        ordered_by_pid(self@)
    }

    /// A tracer whose only process is the root `pid`, already running.
    pub fn new(pid: i32) -> (r: Self)
        ensures
            r.wf(),
            r@ == seq![
                ChildView {
                    pid,
                    state: ChildProcessState::Running,
                    last_signal: None,
                    parent: None,
                    cache: Seq::empty(),
                },
            ],
    {
        let root = ChildProcess::new(pid, None);
        let root = rebuilt(&root, ChildProcessState::Running, None);
        let mut children = Vec::new();
        children.push(root);
        let r = Tracer { children };
        assert(r@ =~= seq![r@[0]]);
        r
    }

    /// Whether no process is traced any more.
    pub fn is_empty(&self) -> (r: bool)
        ensures
            r == (self@.len() == 0),
    {
        self.children.len() == 0
    }

    /// The traced pids in ascending order: the order in which they are
    /// visited.
    pub fn pids(&self) -> (r: Vec<i32>)
        ensures
            r@ == self@.map_values(|c: ChildView| c.pid),
    {
        let mut r: Vec<i32> = Vec::new();
        let mut k: usize = 0;
        while k < self.children.len()
            invariant
                k <= self.children@.len(),
                r@ == self@.subrange(0, k as int).map_values(|c: ChildView| c.pid),
            decreases self.children.len() - k,
        {
            r.push(self.children[k].pid);
            k = k + 1;
            assert(r@ =~= self@.subrange(0, k as int).map_values(|c: ChildView| c.pid));
        }
        assert(self@.subrange(0, k as int) =~= self@);
        r
    }

    fn find(&self, pid: i32) -> (r: Option<usize>)
        ensures
            match r {
                Some(i) => slot_of(self@, pid, i as int),
                None => !is_known(self@, pid),
            },
    {
        let mut k: usize = 0;
        while k < self.children.len()
            invariant
                k <= self.children@.len(),
                forall|j: int| 0 <= j < k ==> self@[j].pid != pid,
            decreases self.children.len() - k,
        {
            if self.children[k].pid == pid {
                return Some(k);
            }
            k = k + 1;
        }
        None
    }

    /// The process `pid`, if it is traced.
    pub fn get_child(&self, pid: i32) -> (r: Option<&ChildProcess>)
        ensures
            match r {
                Some(c) => exists|i: int| slot_of(self@, pid, i) && c@ == self@[i],
                None => !is_known(self@, pid),
            },
    {
        match self.find(pid) {
            Some(i) => Some(&self.children[i]),
            None => None,
        }
    }

    /// Replaces the process at `i` after a stop.
    fn restate(&mut self, i: usize, state: ChildProcessState, last_signal: Option<i32>)
        requires
            old(self).wf(),
            i < old(self)@.len(),
        ensures
            final(self).wf(),
            final(self)@ == old(self)@.update(i as int, after_stop(old(self)@[i as int], state, last_signal)),
    {
        let c = rebuilt(&self.children[i], state, last_signal);
        self.children.set(i, c);
        assert(self@ =~= old(self)@.update(i as int, after_stop(old(self)@[i as int], state, last_signal)));
    }

    /// Drops the process at `i`; when it is the root, every other process is
    /// detached with SIGTERM and forgotten too.
    fn remove_child(&mut self, i: usize) -> (actions: Vec<TraceAction>)
        requires
            old(self).wf(),
            i < old(self)@.len(),
        ensures
            final(self).wf(),
            removal(old(self)@, i as int, final(self)@, actions@),
    {
        let ghost before = self@;
        let child = self.children.remove(i);
        assert(self@ =~= before.remove(i as int));
        let mut actions: Vec<TraceAction> = Vec::new();
        actions.push(TraceAction::Detach { pid: child.pid, signal: None });
        if child.parent.is_none() {
            let ghost first = actions@;
            let mut k: usize = 0;
            while k < self.children.len()
                invariant
                    k <= self.children@.len(),
                    actions@ == first + terminate_all(self@.subrange(0, k as int)),
                decreases self.children.len() - k,
            {
                actions.push(TraceAction::Detach { pid: self.children[k].pid, signal: Some(SIGTERM) });
                k = k + 1;
                assert(terminate_all(self@.subrange(0, k as int)) =~= terminate_all(
                    self@.subrange(0, k as int - 1),
                ).push(TraceAction::Detach { pid: self@[k as int - 1].pid, signal: Some(SIGTERM) }));
            }
            assert(self@.subrange(0, k as int) =~= self@);
            self.children = Vec::new();
            assert(self@ =~= Seq::<ChildView>::empty());
        }
        actions
    }

    /// Handles one wait status and returns the ptrace requests to perform, in
    /// order. A status of a process that is not traced changes nothing; an
    /// exit of one is still answered by a detach.
    pub fn handle_wait_status(&mut self, ev: WaitEvent) -> (actions: Vec<TraceAction>)
        requires
            old(self).wf(),
        ensures
            final(self).wf(),
            match event_pid(ev) {
                None => final(self)@ == old(self)@ && actions@ == Seq::<TraceAction>::empty(),
                Some(pid) => if is_known(old(self)@, pid) {
                    forall|i: int|
                        slot_of(old(self)@, pid, i) ==> transition(
                            old(self)@,
                            i,
                            ev,
                            final(self)@,
                            actions@,
                        )
                } else {
                    &&& final(self)@ == old(self)@
                    &&& actions@ == if ev is Exited {
                        seq![TraceAction::Detach { pid, signal: None }]
                    } else {
                        Seq::<TraceAction>::empty()
                    }
                },
            },
    {
        let pid = match ev {
            WaitEvent::Exited { pid, .. } => pid,
            WaitEvent::PtraceEvent { pid, .. } => pid,
            WaitEvent::PtraceSyscall { pid } => pid,
            WaitEvent::Signaled { pid, .. } => pid,
            WaitEvent::Stopped { pid, .. } => pid,
            WaitEvent::Nothing => {
                return Vec::new();
            },
        };
        let i = match self.find(pid) {
            Some(i) => i,
            None => {
                let mut actions: Vec<TraceAction> = Vec::new();
                if let WaitEvent::Exited { .. } = ev {
                    actions = one(TraceAction::Detach { pid, signal: None });
                }
                return actions;
            },
        };
        let state = self.children[i].state;
        let mut actions: Vec<TraceAction> = Vec::new();
        match ev {
            WaitEvent::Exited { .. } => {
                actions = self.remove_child(i);
            },
            WaitEvent::PtraceEvent { signal, event, .. } => {
                match event {
                    PtraceEventKind::Fork | PtraceEventKind::Vfork | PtraceEventKind::Clone => {
                        self.restate(i, state, Some(signal));
                        actions = one(TraceAction::FetchNewChild { pid, signal });
                    },
                    PtraceEventKind::Exec => {
                        self.restate(i, state, Some(signal));
                        actions = one(TraceAction::Resume { pid, signal: Some(signal) });
                    },
                    PtraceEventKind::Exit => {
                        actions = self.remove_child(i);
                    },
                    PtraceEventKind::Other => {
                        self.restate(i, state, Some(signal));
                    },
                }
            },
            WaitEvent::PtraceSyscall { .. } => {
                match state {
                    ChildProcessState::Running => {
                        self.restate(i, ChildProcessState::EnteringSyscall, None);
                        actions = two(
                            TraceAction::CaptureSyscall { pid },
                            TraceAction::Resume { pid, signal: None },
                        );
                    },
                    ChildProcessState::EnteringSyscall => {
                        self.restate(i, ChildProcessState::ExitingSyscall, None);
                        actions = one(TraceAction::Resume { pid, signal: None });
                    },
                    ChildProcessState::ExitingSyscall => {
                        self.restate(i, ChildProcessState::Running, None);
                        actions = one(TraceAction::Resume { pid, signal: None });
                    },
                    _ => {
                        self.restate(i, state, None);
                    },
                }
            },
            WaitEvent::Signaled { signal, .. } => {
                if signal == SIGTRAP {
                    match state {
                        ChildProcessState::Created => {
                            self.restate(i, ChildProcessState::Running, Some(signal));
                            actions = two(
                                TraceAction::SetOptions { pid },
                                TraceAction::Resume { pid, signal: None },
                            );
                        },
                        ChildProcessState::Running => {
                            self.restate(i, ChildProcessState::PtraceEvent, Some(signal));
                            actions = one(TraceAction::Resume { pid, signal: None });
                        },
                        _ => {
                            self.restate(i, state, Some(signal));
                        },
                    }
                } else if signal == SIGTERM || signal == SIGKILL {
                    actions = self.remove_child(i);
                } else {
                    self.restate(i, state, Some(signal));
                    actions = one(TraceAction::Resume { pid, signal: Some(signal) });
                }
            },
            WaitEvent::Stopped { signal, .. } => {
                if signal == SIGTRAP || signal == SIGSTOP {
                    match state {
                        ChildProcessState::Created => {
                            self.restate(i, ChildProcessState::Running, None);
                            actions = one(TraceAction::Resume { pid, signal: None });
                        },
                        ChildProcessState::Running => {
                            self.restate(i, state, None);
                            actions = one(TraceAction::Resume { pid, signal: None });
                        },
                        _ => {
                            self.restate(i, state, None);
                        },
                    }
                } else {
                    actions = self.remove_child(i);
                }
            },
            WaitEvent::Nothing => {},
        }
        assert(forall|j: int| slot_of(old(self)@, pid, j) ==> j == i);
        actions
    }

    /// Records the process `child` that `parent` has just spawned, as a new
    /// entry in state `Created`, and resumes `parent` with `signal`. An entry
    /// already under that pid is replaced.
    pub fn child_spawned(&mut self, parent: i32, child: i32, signal: i32) -> (actions: Vec<
        TraceAction,
    >)
        requires
            old(self).wf(),
        ensures
            final(self).wf(),
            actions@ == seq![TraceAction::Resume { pid: parent, signal: Some(signal) }],
            exists|k: int|
                slot_of(final(self)@, child, k) && final(self)@[k] == (ChildView {
                    pid: child,
                    state: ChildProcessState::Created,
                    last_signal: None,
                    parent: Some(parent),
                    cache: Seq::empty(),
                }),
            forall|q: i32| q != child ==> (is_known(final(self)@, q) <==> is_known(old(self)@, q)),
            forall|i: int, j: int|
                0 <= i < old(self)@.len() && 0 <= j < final(self)@.len() && old(self)@[i].pid
                    == final(self)@[j].pid && old(self)@[i].pid != child ==> old(self)@[i]
                    == final(self)@[j],
    {
        let ghost before = self@;
        let entry = ChildProcess::new(child, Some(parent));
        let mut k: usize = 0;
        while k < self.children.len() && self.children[k].pid < child
            invariant
                k <= self.children@.len(),
                self@ == before,
                forall|j: int| 0 <= j < k ==> self@[j].pid < child,
            decreases self.children.len() - k,
        {
            k = k + 1;
        }
        let ghost e = entry@;
        if k < self.children.len() && self.children[k].pid == child {
            self.children.set(k, entry);
            assert(self@ =~= before.update(k as int, e));
            assert(forall|i: int| 0 <= i < self@.len() ==> self@[i].pid == before[i].pid);
            assert forall|q: i32| q != child implies (is_known(self@, q) <==> is_known(
                before,
                q,
            )) by {
                if is_known(before, q) {
                    let i = choose|i: int| slot_of(before, q, i);
                    assert(slot_of(self@, q, i));
                }
                if is_known(self@, q) {
                    let i = choose|i: int| slot_of(self@, q, i);
                    assert(slot_of(before, q, i));
                }
            }
            assert(slot_of(self@, child, k as int));
        } else {
            self.children.insert(k, entry);
            assert(self@ =~= before.insert(k as int, e));
            assert(k < before.len() ==> before[k as int].pid > child);
            assert(forall|j: int| k <= j < before.len() ==> before[j].pid > child) by {
                assert forall|j: int| k <= j < before.len() implies before[j].pid > child by {
                    if j > k {
                        assert(before[k as int].pid < before[j].pid);
                    }
                }
            }
            assert forall|i: int, j: int| 0 <= i < j < self@.len() implies self@[i].pid
                < self@[j].pid by {
                if j < k {
                } else if i > k {
                    assert(before[i - 1].pid < before[j - 1].pid);
                } else if i == k {
                    assert(before[j - 1].pid >= child);
                } else {
                    if j > k {
                        assert(before[j - 1].pid >= child);
                    }
                }
            }
            assert forall|q: i32| q != child implies (is_known(self@, q) <==> is_known(
                before,
                q,
            )) by {
                if is_known(before, q) {
                    let i = choose|i: int| slot_of(before, q, i);
                    if i < k {
                        assert(slot_of(self@, q, i));
                    } else {
                        assert(slot_of(self@, q, i + 1));
                    }
                }
                if is_known(self@, q) {
                    let i = choose|i: int| slot_of(self@, q, i);
                    if i < k {
                        assert(slot_of(before, q, i));
                    } else {
                        assert(i != k);
                        assert(slot_of(before, q, i - 1));
                    }
                }
            }
            assert forall|i: int, j: int|
                0 <= i < before.len() && 0 <= j < self@.len() && before[i].pid == self@[j].pid
                    && before[i].pid != child implies before[i] == self@[j] by {
                if j < k {
                    assert(i == j) by {
                        if i < j { assert(before[i].pid < before[j].pid); }
                        if j < i { assert(before[j].pid < before[i].pid); }
                    }
                } else {
                    assert(j != k);
                    assert(i == j - 1) by {
                        if i < j - 1 { assert(before[i].pid < before[j - 1].pid); }
                        if j - 1 < i { assert(before[j - 1].pid < before[i].pid); }
                    }
                }
            }
            assert(slot_of(self@, child, k as int));
        }
        one(TraceAction::Resume { pid: parent, signal: Some(signal) })
    }

    /// Remembers that `s` was read from `reg` of process `pid` during this
    /// stop; later lookups of `reg` find it unless an earlier string is
    /// cached there.
    pub fn remember_string(&mut self, pid: i32, reg: StringRegister, s: String)
        requires
            old(self).wf(),
        ensures
            final(self).wf(),
            !is_known(old(self)@, pid) ==> final(self)@ == old(self)@,
            forall|i: int|
                slot_of(old(self)@, pid, i) ==> final(self)@ == old(self)@.update(
                    i,
                    ChildView { cache: old(self)@[i].cache.push((reg, s@)), ..old(self)@[i] },
                ),
    {
        let i = match self.find(pid) {
            Some(i) => i,
            None => {
                return;
            },
        };
        let ghost sv = s@;
        let ghost before = self@;
        let mut c = self.children.remove(i);
        let ghost old_cache = cache_view(c.register_cache@);
        c.register_cache.push((reg, s));
        assert(cache_view(c.register_cache@) =~= old_cache.push((reg, sv)));
        self.children.insert(i, c);
        assert(self@ =~= before.update(
            i as int,
            ChildView { cache: before[i as int].cache.push((reg, sv)), ..before[i as int] },
        ));
        assert(forall|j: int| slot_of(before, pid, j) ==> j == i);
    }
}

} // verus!
