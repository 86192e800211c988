//! Sleep objects: the signals that threads block on.
use vstd::prelude::*;

verus! {

/// A named one-shot signal that one thread at a time can block on.
///
/// A signal that arrives before the wait is kept: the next wait consumes it
/// and returns at once. Any number of signals before a wait count as one.
pub struct SleepObject {
    name: &'static str,
    pending: bool,
    blocked: bool,
}

impl SleepObject {
    /// The name given at creation, for diagnostics.
    pub closed spec fn name(&self) -> &'static str {
        self.name
    }

    /// A signal has arrived that no wait has consumed yet.
    pub closed spec fn is_pending(&self) -> bool {
        self.pending
    }

    /// A thread has found no signal and is blocked until the next one.
    pub closed spec fn has_sleeper(&self) -> bool {
        self.blocked
    }

    /// The object after one `signal`: the signal is pending, and whoever is
    /// blocked stays recorded until it resumes.
    pub closed spec fn signalled(self) -> Self {
        SleepObject { name: self.name, pending: true, blocked: self.blocked }
    }

    /// The object after `n` calls of `signal` in a row.
    pub open spec fn signalled_n(self, n: nat) -> Self
        decreases n,
    {
        if n == 0 {
            self
        } else {
            self.signalled_n((n - 1) as nat).signalled()
        }
    }

    /// Whether a `wait` on this object returns without blocking.
    pub open spec fn wait_returns(self) -> bool {
        self.is_pending()
    }

    /// The object after one `wait`: a pending signal is consumed, and with
    /// none pending the caller is recorded as blocked.
    pub closed spec fn waited(self) -> Self {
        if self.pending {
            SleepObject { name: self.name, pending: false, blocked: false }
        } else {
            SleepObject { name: self.name, pending: false, blocked: true }
        }
    }

    /// A fresh object: nothing pending, nobody blocked.
    pub fn new(name: &'static str) -> (obj: SleepObject)
        ensures
            obj.name() == name,
            !obj.is_pending(),
            !obj.has_sleeper(),
    {
        SleepObject { name, pending: false, blocked: false }
    }

    /// Marks the object signalled. Returns true when a blocked thread has to
    /// be woken; that thread resumes by calling `wait` again.
    ///
    /// Touches nothing but the object's own flags, so it may be called from
    /// an interrupt handler.
    pub fn signal(&mut self) -> (wake: bool)
        ensures
            *final(self) == old(self).signalled(),
            wake == old(self).has_sleeper(),
            final(self).is_pending(),
            final(self).has_sleeper() == old(self).has_sleeper(),
            final(self).name() == old(self).name(),
    {
        self.pending = true;
        self.blocked
    }

    /// Consumes a pending signal and returns true; with none pending, records
    /// the caller as blocked and returns false. A caller that gets false
    /// suspends until `signal` asks for it to be woken, and calls again.
    pub fn wait(&mut self) -> (ready: bool)
        ensures
            ready == old(self).wait_returns(),
            *final(self) == old(self).waited(),
            !final(self).is_pending(),
            final(self).has_sleeper() == !ready,
            final(self).name() == old(self).name(),
    {
        if self.pending {
            self.pending = false;
            self.blocked = false;
            true
        } else {
            self.blocked = true;
            false
        }
    }

    /// Reads the pending flag without consuming it.
    pub fn signal_pending(&self) -> (pending: bool)
        ensures
            pending == self.is_pending(),
    {
        self.pending
    }

    /// The name given at creation.
    pub fn get_name(&self) -> (name: &'static str)
        ensures
            name == self.name(),
    {
        self.name
    }
}

/// What `signal` and `wait` do to the flags, for callers that reason about
/// single steps.
pub proof fn lemma_sleep_steps(s: SleepObject)
    ensures
        s.signalled().is_pending(),
        s.signalled().has_sleeper() == s.has_sleeper(),
        s.signalled().name() == s.name(),
        !s.waited().is_pending(),
        s.waited().has_sleeper() == !s.is_pending(),
        s.waited().name() == s.name(),
{
}

/// Signals do not add up: after one or more calls of `signal`, the object is
/// the same as after one call.
pub proof fn lemma_signals_coalesce(s: SleepObject, n: nat)
    requires
        n >= 1,
    ensures
        s.signalled_n(n) == s.signalled(),
        s.signalled_n(n).signalled() == s.signalled(),
    decreases n,
{
    if n > 1 {
        lemma_signals_coalesce(s, (n - 1) as nat);
    } else {
        assert(s.signalled_n(0) == s);
    }
}

/// After one or more signals, the first wait returns at once and, with no
/// signal in between, the second wait blocks.
pub proof fn lemma_wait_after_signals(s: SleepObject, n: nat)
    requires
        n >= 1,
    ensures
        s.signalled_n(n).wait_returns(),
        !s.signalled_n(n).waited().wait_returns(),
        s.signalled_n(n).waited().waited().has_sleeper(),
{
    lemma_signals_coalesce(s, n);
}

} // verus!
