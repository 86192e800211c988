//! Short critical sections: the spinlock and the interrupt hold.
use vstd::prelude::*;

verus! {

/// The lock word of a spinlock: free, or held by one CPU.
pub struct SpinlockInner {
    held: bool,
    owner: u32,
}

impl SpinlockInner {
    /// Some CPU holds the lock.
    pub closed spec fn is_held(&self) -> bool {
        self.held
    }

    /// The CPU that holds the lock, if one does.
    pub closed spec fn holder(&self) -> u32 {
        self.owner
    }

    /// CPU `cpu` holds the lock.
    pub open spec fn held_by(&self, cpu: u32) -> bool {
        self.is_held() && self.holder() == cpu
    }

    /// A free lock.
    pub fn new() -> (lock: SpinlockInner)
        ensures
            !lock.is_held(),
    {
        SpinlockInner { held: false, owner: 0 }
    }

    /// Takes the lock for `cpu`. The lock has to be free: taking a held lock
    /// spins until its holder releases it, which no call in progress can do.
    pub fn inner_lock(&mut self, cpu: u32)
        requires
            !old(self).is_held(),
        ensures
            final(self).held_by(cpu),
    {
        self.held = true;
        self.owner = cpu;
    }

    /// Takes the lock for `cpu` if no CPU holds it, and succeeds as well if
    /// `cpu` itself holds it already. Fails, and changes nothing, if another
    /// CPU holds it.
    pub fn try_inner_lock_cpu(&mut self, cpu: u32) -> (taken: bool)
        ensures
            taken == (!old(self).is_held() || old(self).holder() == cpu),
            taken ==> final(self).held_by(cpu),
            !taken ==> *final(self) == *old(self),
    {
        if !self.held {
            self.held = true;
            self.owner = cpu;
            true
        } else {
            self.owner == cpu
        }
    }

    /// Releases the lock.
    pub fn inner_release(&mut self)
        ensures
            !final(self).is_held(),
    {
        self.held = false;
    }

    /// Whether some CPU holds the lock.
    pub fn locked(&self) -> (held: bool)
        ensures
            held == self.is_held(),
    {
        self.held
    }
}

/// A value behind a spinlock. The value is reached only while the lock is
/// held.
pub struct Spinlock<T> {
    pub inner: SpinlockInner,
    pub value: T,
}

impl<T> Spinlock<T> {
    /// A free lock around `value`.
    pub fn new(value: T) -> (lock: Spinlock<T>)
        ensures
            !lock.inner.is_held(),
            lock.value == value,
    {
        Spinlock { inner: SpinlockInner::new(), value }
    }

    /// Takes the lock for `cpu` and lends the value. The lock stays held
    /// until `release`.
    pub fn lock(&mut self, cpu: u32) -> (value: &mut T)
        requires
            !old(self).inner.is_held(),
        ensures
            *value == old(self).value,
            final(self).value == *final(value),
            final(self).inner.held_by(cpu),
    {
        self.inner.inner_lock(cpu);
        &mut self.value
    }

    /// As `lock`, but fails if another CPU holds the lock, and succeeds if
    /// `cpu` holds it already.
    pub fn try_lock_cpu(&mut self, cpu: u32) -> (value: Option<&mut T>)
        ensures
            value is Some <==> (!old(self).inner.is_held() || old(self).inner.holder() == cpu),
            value is None ==> *final(self) == *old(self),
            value matches Some(v) ==> {
                &&& *v == old(self).value
                &&& final(self).value == *final(v)
                &&& final(self).inner.held_by(cpu)
            },
    {
        if self.inner.try_inner_lock_cpu(cpu) {
            Some(&mut self.value)
        } else {
            None
        }
    }

    /// Releases the lock.
    pub fn release(&mut self)
        ensures
            !final(self).inner.is_held(),
            final(self).value == old(self).value,
    {
        self.inner.inner_release();
    }
}

/// The interrupt state of one CPU: interrupts are delivered while nothing
/// holds them.
pub struct LocalInterrupts {
    holds: usize,
}

/// A hold on the interrupts of a CPU. Interrupts stay off until every hold
/// has been released.
pub struct HeldInterrupts {
    depth: usize,
}

impl LocalInterrupts {
    /// The number of holds that have not been released.
    pub closed spec fn holds(&self) -> nat {
        self.holds as nat
    }

    /// Interrupts are delivered.
    pub open spec fn enabled(&self) -> bool {
        self.holds() == 0
    }

    /// A CPU with interrupts on.
    pub fn new() -> (cpu: LocalInterrupts)
        ensures
            cpu.enabled(),
    {
        LocalInterrupts { holds: 0 }
    }

    /// Whether interrupts are delivered.
    pub fn interrupts_enabled(&self) -> (on: bool)
        ensures
            on == self.enabled(),
    {
        self.holds == 0
    }
}

impl HeldInterrupts {
    /// The number of holds on the CPU when this one was taken, itself
    /// counted.
    pub closed spec fn depth(&self) -> nat {
        self.depth as nat
    }

    /// Gives the hold up. Interrupts come back on with the release of the
    /// last hold.
    pub fn release(self, cpu: &mut LocalInterrupts)
        requires
            old(cpu).holds() >= 1,
        ensures
            final(cpu).holds() == old(cpu).holds() - 1,
    {
        cpu.holds = cpu.holds - 1;
    }
}

/// Turns the interrupts of `cpu` off for as long as the returned hold, or an
/// earlier one, is not released.
pub fn hold_interrupts(cpu: &mut LocalInterrupts) -> (hold: HeldInterrupts)
    requires
        old(cpu).holds() < usize::MAX,
    ensures
        final(cpu).holds() == old(cpu).holds() + 1,
        !final(cpu).enabled(),
        hold.depth() == final(cpu).holds(),
{
    cpu.holds = cpu.holds + 1;
    HeldInterrupts { depth: cpu.holds }
}

} // verus!
