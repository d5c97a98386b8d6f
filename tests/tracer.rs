use boxxy::syscall::StringRegister;
use boxxy::tracer::{
    ChildProcessState, PtraceEventKind, TraceAction, Tracer, WaitEvent, SIGKILL, SIGSTOP, SIGTERM, SIGTRAP,
};

fn state(t: &Tracer, pid: i32) -> ChildProcessState {
    t.get_child(pid).unwrap().state()
}

#[test]
fn root_starts_running() {
    let t = Tracer::new(100);
    assert_eq!(t.pids(), vec![100]);
    assert_eq!(state(&t, 100), ChildProcessState::Running);
    assert_eq!(t.get_child(100).unwrap().parent(), None);
    assert!(!t.is_empty());
}

#[test]
fn syscall_stops_cycle_through_states() {
    let mut t = Tracer::new(100);
    let a = t.handle_wait_status(WaitEvent::PtraceSyscall { pid: 100 });
    assert_eq!(a, vec![TraceAction::CaptureSyscall { pid: 100 }, TraceAction::Resume { pid: 100, signal: None }]);
    assert_eq!(state(&t, 100), ChildProcessState::EnteringSyscall);
    let a = t.handle_wait_status(WaitEvent::PtraceSyscall { pid: 100 });
    assert_eq!(a, vec![TraceAction::Resume { pid: 100, signal: None }]);
    assert_eq!(state(&t, 100), ChildProcessState::ExitingSyscall);
    t.handle_wait_status(WaitEvent::PtraceSyscall { pid: 100 });
    assert_eq!(state(&t, 100), ChildProcessState::Running);
}

#[test]
fn clone_adds_a_child_in_pid_order() {
    let mut t = Tracer::new(100);
    let a = t.handle_wait_status(WaitEvent::PtraceEvent { pid: 100, signal: SIGTRAP, event: PtraceEventKind::Clone });
    assert_eq!(a, vec![TraceAction::FetchNewChild { pid: 100, signal: SIGTRAP }]);
    assert_eq!(t.get_child(100).unwrap().last_signal(), Some(SIGTRAP));
    let a = t.child_spawned(100, 50, SIGTRAP);
    assert_eq!(a, vec![TraceAction::Resume { pid: 100, signal: Some(SIGTRAP) }]);
    assert_eq!(t.pids(), vec![50, 100]);
    assert_eq!(state(&t, 50), ChildProcessState::Created);
    assert_eq!(t.get_child(50).unwrap().parent(), Some(100));

    let a = t.handle_wait_status(WaitEvent::Stopped { pid: 50, signal: SIGSTOP });
    assert_eq!(a, vec![TraceAction::Resume { pid: 50, signal: None }]);
    assert_eq!(state(&t, 50), ChildProcessState::Running);
}

#[test]
fn sigtrap_on_created_child_sets_options() {
    let mut t = Tracer::new(1);
    t.child_spawned(1, 2, SIGTRAP);
    let a = t.handle_wait_status(WaitEvent::Signaled { pid: 2, signal: SIGTRAP });
    assert_eq!(a, vec![TraceAction::SetOptions { pid: 2 }, TraceAction::Resume { pid: 2, signal: None }]);
    assert_eq!(state(&t, 2), ChildProcessState::Running);
    let a = t.handle_wait_status(WaitEvent::Signaled { pid: 2, signal: 10 });
    assert_eq!(a, vec![TraceAction::Resume { pid: 2, signal: Some(10) }]);
}

#[test]
fn child_exit_drops_only_the_child() {
    let mut t = Tracer::new(1);
    t.child_spawned(1, 2, SIGTRAP);
    let a = t.handle_wait_status(WaitEvent::PtraceEvent { pid: 2, signal: SIGTRAP, event: PtraceEventKind::Exit });
    assert_eq!(a, vec![TraceAction::Detach { pid: 2, signal: None }]);
    assert_eq!(t.pids(), vec![1]);
    let a = t.handle_wait_status(WaitEvent::Signaled { pid: 1, signal: SIGKILL });
    assert_eq!(a, vec![TraceAction::Detach { pid: 1, signal: None }]);
    assert!(t.is_empty());
}

#[test]
fn root_exit_stops_everything() {
    let mut t = Tracer::new(10);
    t.child_spawned(10, 30, SIGTRAP);
    t.child_spawned(10, 20, SIGTRAP);
    let a = t.handle_wait_status(WaitEvent::PtraceEvent { pid: 10, signal: SIGTRAP, event: PtraceEventKind::Exit });
    assert_eq!(
        a,
        vec![
            TraceAction::Detach { pid: 10, signal: None },
            TraceAction::Detach { pid: 20, signal: Some(SIGTERM) },
            TraceAction::Detach { pid: 30, signal: Some(SIGTERM) },
        ]
    );
    assert!(t.is_empty());
}

#[test]
fn unknown_pid_changes_nothing() {
    let mut t = Tracer::new(10);
    assert_eq!(t.handle_wait_status(WaitEvent::Exited { pid: 99, status: 0 }), vec![TraceAction::Detach { pid: 99, signal: None }]);
    assert!(t.handle_wait_status(WaitEvent::PtraceSyscall { pid: 99 }).is_empty());
    assert!(t.handle_wait_status(WaitEvent::Nothing).is_empty());
    assert_eq!(t.pids(), vec![10]);
}

#[test]
fn register_cache_is_cleared_at_each_stop() {
    let mut t = Tracer::new(10);
    t.remember_string(10, StringRegister::Rsi, "/etc/hosts".to_string());
    assert_eq!(t.get_child(10).unwrap().cached_string(StringRegister::Rsi), Some("/etc/hosts".to_string()));
    assert_eq!(t.get_child(10).unwrap().cached_string(StringRegister::Rdi), None);
    t.handle_wait_status(WaitEvent::PtraceSyscall { pid: 10 });
    assert_eq!(t.get_child(10).unwrap().cached_string(StringRegister::Rsi), None);
}
