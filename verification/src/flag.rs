//! A flag that latches on its first trigger.
use vstd::prelude::*;
use crate::threads::SleepObject;
use crate::waiter::PrimitiveWaiter;

verus! {

/// A one-shot event: it is set by the first trigger and stays set. As a
/// waiter it has to be polled, and it is complete once its completion has
/// run on the set flag.
pub struct SingleFlag {
    set: bool,
    consumed: bool,
}

impl SingleFlag {
    /// The flag has been triggered.
    pub closed spec fn is_set(&self) -> bool {
        self.set
    }

    /// The completion has run on the set flag.
    pub closed spec fn is_consumed(&self) -> bool {
        self.consumed
    }

    /// The flag after a trigger.
    pub closed spec fn set_flag(self) -> Self {
        SingleFlag { set: true, consumed: self.consumed }
    }

    /// A flag that has not been triggered.
    pub fn new() -> (flag: SingleFlag)
        ensures
            !flag.is_set(),
            !flag.is_consumed(),
    {
        SingleFlag { set: false, consumed: false }
    }

    /// Sets the flag.
    pub fn trigger(&mut self)
        ensures
            *final(self) == old(self).set_flag(),
            final(self).is_set(),
            final(self).is_consumed() == old(self).is_consumed(),
    {
        self.set = true;
    }

    /// Whether the flag has been triggered.
    pub fn is_triggered(&self) -> (set: bool)
        ensures
            set == self.is_set(),
    {
        self.set
    }
}

/// A trigger sets the flag and nothing else, and a second one changes
/// nothing.
pub proof fn lemma_set_flag(flag: SingleFlag)
    ensures
        flag.set_flag().is_set(),
        flag.set_flag().is_consumed() == flag.is_consumed(),
        flag.set_flag().set_flag() == flag.set_flag(),
        flag.is_set() ==> flag.set_flag() == flag,
{
}

impl PrimitiveWaiter for SingleFlag {
    open spec fn completed(&self) -> bool {
        self.is_consumed()
    }

    open spec fn triggered(&self) -> bool {
        self.is_set() && !self.is_consumed()
    }

    open spec fn poll_only(&self) -> bool {
        true
    }

    open spec fn attached(
        &self,
        sleeper: SleepObject,
        after: &Self,
        left: SleepObject,
        bound: bool,
    ) -> bool {
        *after == *self && left == sleeper && !bound
    }

    open spec fn polled(&self, after: &Self, fired: bool) -> bool {
        *after == *self && fired == self.triggered()
    }

    open spec fn completion_ran(&self, after: &Self) -> bool {
        after.is_set() == self.is_set() && after.is_consumed() == (self.is_consumed()
            || self.is_set())
    }

    open spec fn unbound(&self, after: &Self) -> bool {
        *after == *self
    }

    fn is_complete(&self) -> (done: bool) {
        self.consumed
    }

    fn poll(&mut self) -> (fired: bool)
        ensures
            *final(self) == *old(self),
    {
        self.set && !self.consumed
    }

    fn run_completion(&mut self)
        ensures
            final(self).is_set() == old(self).is_set(),
            final(self).is_consumed() == (old(self).is_consumed() || old(self).is_set()),
    {
        if self.set {
            self.consumed = true;
        }
    }

    fn bind_signal(&mut self, sleeper: &mut SleepObject) -> (bound: bool)
        ensures
            *final(self) == *old(self),
            *final(sleeper) == *old(sleeper),
    {
        false
    }

    fn unbind_signal(&mut self)
        ensures
            *final(self) == *old(self),
    {
    }
}

} // verus!
