//! The reload signal: a flag shared between the filesystem-watcher thread and
//! the tick loop. The watcher only sets it; the harness clears it exactly once,
//! at the start of a load iteration, so change events arriving while a module
//! runs are never lost and rapid bursts coalesce into one pending reload.

use vstd::prelude::*;

verus! {

/// The pending-reload flag. The view of a signal is the flag itself: `s@` is
/// true exactly when a reload is due.
pub struct ReloadSignal {
    pending: bool,
}

impl View for ReloadSignal {
    type V = bool;

    closed spec fn view(&self) -> bool {
        self.pending
    }
}

impl ReloadSignal {
    /// A fresh signal with no reload pending.
    pub fn new() -> (s: Self)
        ensures
            !s@,
    {
        ReloadSignal { pending: false }
    }

    /// The watcher callback: any change event for the module artifact marks a
    /// reload as pending. A second event before the flag is consumed leaves
    /// the signal in the same state, so bursts coalesce.
    pub fn notify_change(&mut self)
        ensures
            final(self)@,
    {
        self.pending = true;
    }

    /// Poll the flag without consuming it. Polling must not suppress an event:
    /// the signal is left exactly as it was.
    pub fn is_pending(&self) -> (r: bool)
        ensures
            r == self@,
    {
        self.pending
    }

    /// Consume the pending reload. Called only at the start of a harness load
    /// iteration; never during a module run.
    pub fn clear_for_load(&mut self)
        ensures
            !final(self)@,
    {
        self.pending = false;
    }
}

/// The flag after one change event: set, whatever it held before.
pub open spec fn notified(flag: bool) -> bool {
    true
}

/// The flag state after `n` change events have hit a signal whose flag was
/// `p`.
pub open spec fn after_events(p: bool, n: nat) -> bool
    decreases n,
{
    if n == 0 {
        p
    } else {
        notified(after_events(p, (n - 1) as nat))
    }
}

/// Law: change events coalesce. Any number of events arriving before the flag
/// is next consumed leave the signal in the same state as a single event, so
/// a burst of rebuild notifications is processed as exactly one pending
/// reload.
pub proof fn lemma_events_coalesce(p: bool, n: nat)
    requires
        n >= 1,
    ensures
        after_events(p, n) == after_events(p, 1),
        after_events(p, n),
    decreases n,
{
    if n > 1 {
        lemma_events_coalesce(p, (n - 1) as nat);
    }
}

} // verus!
