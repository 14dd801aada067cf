use vstd::prelude::*;

verus! {

/// What a watchdog's owner does with a worker that went down.
pub trait WatchdogBackend {
    /// Forgets the worker that went down.
    fn drop_downed_worker(&self, worker_id: usize);
}

/// What a watchdog does when its worker stops answering.
#[derive(Debug, Clone, Copy, PartialEq, Eq)]
pub enum DownAction {
    Restart,
    Shutdown,
}

} // verus!
