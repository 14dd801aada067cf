use vstd::prelude::*;
use crate::language::text::text;

verus! {

/// What the service's watch loop hears in one round: from the task that
/// runs the service, an error or the closing of its error channel; from
/// the service manager, a stop signal, nothing in time (with whether the
/// task has ended), or the closing of its channel.
pub enum WatchedEvent {
    TaskError(String),
    TaskChannelClosed,
    StopSignal,
    Quiet { task_finished: bool },
    ManagerChannelClosed,
}

/// The exit code the service reports to the service manager.
#[derive(Debug, Clone, Copy, PartialEq, Eq, Structural)]
pub enum ServiceExit {
    Win32(u32),
    ServiceSpecific(u32),
}

/// What the watch loop does after a round: go on, or stop with a reason
/// and an exit code.
pub enum WatchDecision {
    Continue,
    Stop { reason: String, exit: ServiceExit },
}

/// The reason and exit code a round stops with, if it stops.
pub open spec fn watch_outcome(e: WatchedEvent) -> Option<(Seq<char>, ServiceExit)> {
    match e {
        WatchedEvent::TaskError(m) => Some(("Async error: "@ + m@, ServiceExit::ServiceSpecific(3))),
        WatchedEvent::TaskChannelClosed => Some(("Async err chan disconnected"@, ServiceExit::ServiceSpecific(6))),
        WatchedEvent::StopSignal => Some(("SCM signal"@, ServiceExit::Win32(0))),
        WatchedEvent::Quiet { task_finished } => if task_finished {
            Some(("Async task finished"@, ServiceExit::ServiceSpecific(4)))
        } else {
            None
        },
        WatchedEvent::ManagerChannelClosed => Some(("SCM chan disconnected"@, ServiceExit::ServiceSpecific(5))),
    }
}

/// Decides a round of the service's watch loop (see `watch_outcome`): an
/// error of the task stops with code 3, the task's channel closing with
/// 6, a stop signal with 0, the task ending by itself with 4, the
/// manager's channel closing with 5; a quiet round goes on.
pub fn watch_step(event: WatchedEvent) -> (r: WatchDecision)
    ensures
        match watch_outcome(event) {
            None => r is Continue,
            Some((reason, exit)) => r matches WatchDecision::Stop { reason: t, exit: x } && t@ == reason && x == exit,
        },
{
    match event {
        WatchedEvent::TaskError(m) => {
            let mut reason = text("Async error: ");
            reason.append(m.as_str());
            WatchDecision::Stop { reason, exit: ServiceExit::ServiceSpecific(3) }
        },
        WatchedEvent::TaskChannelClosed => WatchDecision::Stop {
            reason: text("Async err chan disconnected"),
            exit: ServiceExit::ServiceSpecific(6),
        },
        WatchedEvent::StopSignal => WatchDecision::Stop { reason: text("SCM signal"), exit: ServiceExit::Win32(0) },
        WatchedEvent::Quiet { task_finished } => if task_finished {
            WatchDecision::Stop { reason: text("Async task finished"), exit: ServiceExit::ServiceSpecific(4) }
        } else {
            WatchDecision::Continue
        },
        WatchedEvent::ManagerChannelClosed => WatchDecision::Stop {
            reason: text("SCM chan disconnected"),
            exit: ServiceExit::ServiceSpecific(5),
        },
    }
}

} // verus!
