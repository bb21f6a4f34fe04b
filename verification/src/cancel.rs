//! Cooperative cancellation: a shared, thread-safe flag set by an external
//! actor (e.g. an interrupt handler) and read by the orchestrator only at
//! well-defined checkpoints between tests. Each signal handle keeps a ghost
//! log of the values its reads returned, so the orchestrator's contract can
//! tie what it did to what the flag said at each checkpoint.

use vstd::prelude::*;
use std::sync::atomic::AtomicBool;
use std::sync::atomic::Ordering;
use std::sync::Arc;

verus! {

/// Relies on `Arc::clone`: returns a handle to the same shared flag.
#[verifier::external_body]
fn clone_flag(flag: &Arc<AtomicBool>) -> Arc<AtomicBool> {
    Arc::clone(flag)
}

/// Relies on `AtomicBool::store`: sets the shared flag.
#[verifier::external_body]
fn set_flag(flag: &Arc<AtomicBool>) {
    flag.store(true, Ordering::Relaxed);
}

/// Relies on `AtomicBool::load`: reads the shared flag. Another thread may
/// set the flag at any time, so nothing is promised of the value.
#[verifier::external_body]
fn load_flag(flag: &Arc<AtomicBool>) -> bool {
    flag.load(Ordering::Relaxed)
}

/// A handle on the shared cancellation flag. Reading through a handle logs
/// the observed value on that handle's ghost read log.
pub struct CancellationSignal {
    flag: Arc<AtomicBool>,
    reads: Ghost<Seq<bool>>,
}

impl CancellationSignal {
    /// The values this handle's reads returned, oldest first.
    pub closed spec fn reads(&self) -> Seq<bool> {
        self.reads@
    }

    /// A fresh, unset cancellation flag.
    pub fn new() -> (s: CancellationSignal)
        ensures
            s.reads() == Seq::<bool>::empty(),
    {
        CancellationSignal { flag: Arc::new(AtomicBool::new(false)), reads: Ghost(Seq::empty()) }
    }

    /// Another handle on the same flag, e.g. for an interrupt handler. The
    /// new handle starts its own read log.
    pub fn handle(&self) -> (s: CancellationSignal)
        ensures
            s.reads() == Seq::<bool>::empty(),
    {
        CancellationSignal { flag: clone_flag(&self.flag), reads: Ghost(Seq::empty()) }
    }

    /// Request cancellation: the set flag is eventually observed by reads
    /// through any handle on it.
    pub fn set(&self) {
        set_flag(&self.flag);
    }

    /// Observe the flag at a checkpoint; the observed value is appended to
    /// this handle's read log.
    pub fn is_set(&mut self) -> (r: bool)
        ensures
            final(self).reads() == old(self).reads().push(r),
    {
        let r = load_flag(&self.flag);
        self.reads = Ghost(self.reads@.push(r));
        r
    }
}

} // verus!
