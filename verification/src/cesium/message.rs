use vstd::prelude::*;

verus! {

/// A message to a worker.
pub enum Message {
    Shutdown,
    Restart,
    Transfer(Option<Vec<u8>>),
    Ping,
}

/// A worker's answer to its watchdog.
pub enum WatchdogReply {
    Pong { worker_id: usize },
}

} // verus!
