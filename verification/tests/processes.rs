use netter::service_watch::{watch_step, ServiceExit, WatchDecision, WatchedEvent};
use netter::language::processes::{ProcessEnd, ProcessSignal, ProcessTable, WatchAction, WatchEvent, PID};

#[test]
fn spawned_processes_get_counting_numbers() {
    let mut t = ProcessTable::new();
    let a = t.spawn();
    let b = t.spawn();
    let c = t.spawn();
    assert_eq!(a, PID(0));
    assert_eq!(b, PID(1));
    assert_eq!(c, PID(2));
    assert!(t.is_live(a) && t.is_live(b) && t.is_live(c));
    assert!(!t.is_live(PID(3)));
}

#[test]
fn watch_ends_release_or_abort() {
    let mut t = ProcessTable::new();
    let a = t.spawn();
    let b = t.spawn();
    assert_eq!(t.watch(a, &WatchEvent::Ended(ProcessEnd::Failed("boom".to_string()))), WatchAction::Release);
    assert!(!t.is_live(a));
    assert!(t.is_live(b));
    assert_eq!(t.watch(b, &WatchEvent::Signal(ProcessSignal::Kill)), WatchAction::Abort);
    assert!(!t.is_live(b));
    assert_eq!(t.watch(b, &WatchEvent::Ended(ProcessEnd::Finished)), WatchAction::Release);
    assert_eq!(t.watch(a, &WatchEvent::Ended(ProcessEnd::Panicked)), WatchAction::Release);
    assert_eq!(t.watch(a, &WatchEvent::Ended(ProcessEnd::Cancelled)), WatchAction::Release);
    assert_eq!(t.spawn(), PID(2));
}

#[test]
fn service_watch_rounds() {
    let stop = |e: WatchedEvent| match watch_step(e) {
        WatchDecision::Stop { reason, exit } => Some((reason, exit)),
        WatchDecision::Continue => None,
    };
    assert_eq!(stop(WatchedEvent::TaskError("boom".to_string())), Some(("Async error: boom".to_string(), ServiceExit::ServiceSpecific(3))));
    assert_eq!(stop(WatchedEvent::TaskChannelClosed), Some(("Async err chan disconnected".to_string(), ServiceExit::ServiceSpecific(6))));
    assert_eq!(stop(WatchedEvent::StopSignal), Some(("SCM signal".to_string(), ServiceExit::Win32(0))));
    assert_eq!(stop(WatchedEvent::Quiet { task_finished: true }), Some(("Async task finished".to_string(), ServiceExit::ServiceSpecific(4))));
    assert_eq!(stop(WatchedEvent::Quiet { task_finished: false }), None);
    assert_eq!(stop(WatchedEvent::ManagerChannelClosed), Some(("SCM chan disconnected".to_string(), ServiceExit::ServiceSpecific(5))));
}
