use vstd::prelude::*;

verus! {

/// The number of a process the virtual machine runs.
#[derive(Debug, Clone, Copy, PartialEq, Eq, Structural, Hash)]
pub struct PID(pub u64);

/// What can be asked of a running process.
#[derive(Debug, Clone, Copy, PartialEq, Eq, Structural)]
pub enum ProcessSignal {
    Kill,
}

/// How a watched process came to an end on its own.
pub enum ProcessEnd {
    /// It ran to its end.
    Finished,
    /// It stopped with an error.
    Failed(String),
    /// Its code panicked.
    Panicked,
    /// It was cancelled from outside.
    Cancelled,
}

/// What a process's watch hears first: the process ending, or a signal.
pub enum WatchEvent {
    Ended(ProcessEnd),
    Signal(ProcessSignal),
}

/// What the watch does about it.
#[derive(Debug, Clone, Copy, PartialEq, Eq, Structural)]
pub enum WatchAction {
    /// The process is over: nothing more to do.
    Release,
    /// The process is still running and must be stopped.
    Abort,
}

/// The processes of a virtual machine: the number the next one gets, and
/// those being watched, each once.
pub struct ProcessTable {
    next_pid: u64,
    live: Vec<u64>,
}

impl ProcessTable {
    /// The number the next process gets.
    pub closed spec fn next(&self) -> u64 {
        self.next_pid
    }

    /// The processes being watched.
    pub closed spec fn live_set(&self) -> Set<u64> {
        Set::new(|x: u64| self.live@.contains(x))
    }

    /// Each process is held once.
    pub closed spec fn wf(&self) -> bool {
        self.live@.no_duplicates()
    }

    /// No process yet; the first gets number 0.
    pub fn new() -> (r: ProcessTable)
        ensures
            r.wf(),
            r.next() == 0,
            r.live_set() == Set::<u64>::empty(),
    {
        let r = ProcessTable { next_pid: 0, live: Vec::new() };
        proof {
            assert(r.live_set() =~= Set::<u64>::empty());
        }
        r
    }

    /// Whether process `pid` is being watched.
    pub fn is_live(&self, pid: PID) -> (r: bool)
        ensures
            r == self.live_set().contains(pid.0),
    {
        let n = self.live.len();
        let mut i: usize = 0;
        while i < n
            invariant
                i <= n,
                n == self.live@.len(),
                forall|j: int| 0 <= j < i ==> self.live@[j] != pid.0,
            decreases n - i,
        {
            if self.live[i] == pid.0 {
                proof {
                    assert(self.live@.contains(pid.0));
                }
                return true;
            }
            i = i + 1;
        }
        false
    }

    /// Gives a new process the next number, counting on with wrap-around,
    /// and watches it.
    pub fn spawn(&mut self) -> (r: PID)
        requires
            old(self).wf(),
        ensures
            final(self).wf(),
            r.0 == old(self).next(),
            final(self).next() == old(self).next().wrapping_add(1),
            final(self).live_set() == old(self).live_set().insert(r.0),
    {
        let pid = self.next_pid;
        self.next_pid = self.next_pid.wrapping_add(1);
        if !self.is_live(PID(pid)) {
            let ghost before = *self;
            self.live.push(pid);
            proof {
                assert forall|y: u64| self.live_set().contains(y) <==> before.live_set().insert(pid).contains(y) by {
                    lemma_push_contains(before.live@, pid, y);
                }
                assert(self.live_set() =~= before.live_set().insert(pid));
                assert forall|a: int, b: int| 0 <= a < b < self.live@.len() implies self.live@[a] != self.live@[b] by {
                    if b == before.live@.len() {
                        assert(before.live@.contains(before.live@[a]));
                    }
                }
            }
        } else {
            proof {
                assert(self.live_set() =~= self.live_set().insert(pid));
            }
        }
        PID(pid)
    }

    /// The first thing the watch of process `pid` hears ends the watch:
    /// a process that ended is released, one asked to stop is aborted;
    /// either way it is no longer watched.
    pub fn watch(&mut self, pid: PID, event: &WatchEvent) -> (r: WatchAction)
        requires
            old(self).wf(),
        ensures
            final(self).wf(),
            final(self).next() == old(self).next(),
            final(self).live_set() == old(self).live_set().remove(pid.0),
            r == (match event {
                WatchEvent::Ended(_) => WatchAction::Release,
                WatchEvent::Signal(ProcessSignal::Kill) => WatchAction::Abort,
            }),
    {
        let action = match event {
            WatchEvent::Ended(_) => WatchAction::Release,
            WatchEvent::Signal(ProcessSignal::Kill) => WatchAction::Abort,
        };
        self.forget(pid.0);
        action
    }

    /// Stops watching process `pid`.
    fn forget(&mut self, pid: u64)
        requires
            old(self).wf(),
        ensures
            final(self).wf(),
            final(self).next() == old(self).next(),
            final(self).live_set() == old(self).live_set().remove(pid),
    {
        let ghost before = self.live@;
        let n = self.live.len();
        let mut kept: Vec<u64> = Vec::new();
        let mut i: usize = 0;
        while i < n
            invariant
                i <= n,
                n == before.len(),
                self.live@ == before,
                before.no_duplicates(),
                kept@.no_duplicates(),
                forall|y: u64| kept@.contains(y) <==> (y != pid && before.subrange(0, i as int).contains(y)),
            decreases n - i,
        {
            let x = self.live[i];
            let ghost ko = kept@;
            proof {
                assert forall|y: u64| before.subrange(0, i + 1).contains(y) <==> (before.subrange(0, i as int).contains(y) || y == x) by {
                    assert(before.subrange(0, i + 1) =~= before.subrange(0, i as int).push(x));
                    lemma_push_contains(before.subrange(0, i as int), x, y);
                }
            }
            if x != pid {
                proof {
                    if ko.contains(x) {
                        let j = choose|j: int| 0 <= j < i && before.subrange(0, i as int)[j] == x;
                        assert(before[j] == before[i as int]);
                    }
                }
                kept.push(x);
                proof {
                    assert forall|y: u64| kept@.contains(y) <==> (ko.contains(y) || y == x) by {
                        lemma_push_contains(ko, x, y);
                    }
                    assert forall|a: int, b: int| 0 <= a < b < kept@.len() implies kept@[a] != kept@[b] by {
                        if b == ko.len() {
                            assert(ko.contains(ko[a]));
                        }
                    }
                }
            }
            proof {
                assert forall|y: u64| kept@.contains(y) <==> (y != pid && before.subrange(0, i + 1).contains(y)) by {
                    assert(before.subrange(0, i + 1).contains(y) <==> (before.subrange(0, i as int).contains(y) || y == x));
                    assert(ko.contains(y) <==> (y != pid && before.subrange(0, i as int).contains(y)));
                    if x != pid {
                        assert(kept@.contains(y) <==> (ko.contains(y) || y == x));
                    }
                }
            }
            i = i + 1;
        }
        self.live = kept;
        proof {
            assert(before.subrange(0, n as int) =~= before);
            assert(self.live_set() =~= Set::new(|x: u64| before.contains(x)).remove(pid));
        }
    }
}

/// A sequence with `x` pushed holds `x` and what it held before.
proof fn lemma_push_contains(s: Seq<u64>, x: u64, y: u64)
    ensures
        s.push(x).contains(y) <==> (s.contains(y) || y == x),
{
    let t = s.push(x);
    if t.contains(y) {
        let k = choose|k: int| 0 <= k < t.len() && t[k] == y;
        if k < s.len() {
            assert(s[k] == y);
        }
    }
    if s.contains(y) {
        let k = choose|k: int| 0 <= k < s.len() && s[k] == y;
        assert(t[k] == y);
    }
    if y == x {
        assert(t[s.len() as int] == y);
    }
}

/// Two processes spawned one after the other get different numbers.
pub proof fn lemma_spawned_pids_differ(t0: ProcessTable, t1: ProcessTable, a: PID, b: PID)
    requires
        a.0 == t0.next(),
        t1.next() == t0.next().wrapping_add(1),
        b.0 == t1.next(),
    ensures
        a != b,
{
}

} // verus!
