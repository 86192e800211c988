//! Waiters: things that complete asynchronously, and the driver that waits
//! on a list of them.
//!
//! A waiter either signals a sleep object when its event fires, or has to be
//! polled. The driver binds every waiter of a list to one sleep object and
//! sleeps on it; if any of them can only be polled it polls them all.
use vstd::prelude::*;
use crate::threads::SleepObject;
use crate::threads::lemma_sleep_steps;

verus! {

/// A single asynchronous condition.
///
/// The first three spec functions give names to what the methods report, so
/// that callers can state what a wait does. The other four are the
/// waiter's own account of what a call of `bind_signal`, `poll`,
/// `run_completion` or `unbind_signal` may do to it, so that callers can
/// say which of these calls have been made. An implementation owes what the `ensures` clauses
/// say and nothing more: `poll` may find that the event has fired since the
/// last call, and `run_completion` may do anything to the waiter that its
/// own account allows.
pub trait PrimitiveWaiter: Sized {
    /// The waiter is complete: what `is_complete` reports.
    spec fn completed(&self) -> bool;

    /// The event has fired and its completion has not run yet.
    spec fn triggered(&self) -> bool;

    /// The waiter cannot signal a sleep object and has to be polled.
    spec fn poll_only(&self) -> bool;

    /// One call of `bind_signal` with a sleep object in the state `sleeper`
    /// can take the waiter from this state to `after`, leave the sleep
    /// object as `left` and return `bound`.
    spec fn attached(
        &self,
        sleeper: SleepObject,
        after: &Self,
        left: SleepObject,
        bound: bool,
    ) -> bool;

    /// One call of `poll` can take the waiter from this state to `after`
    /// and return `fired`.
    spec fn polled(&self, after: &Self, fired: bool) -> bool;

    /// One call of `run_completion` can take the waiter from this state to
    /// `after`.
    spec fn completion_ran(&self, after: &Self) -> bool;

    /// One call of `unbind_signal` can take the waiter from this state to
    /// `after`.
    spec fn unbound(&self, after: &Self) -> bool;

    /// True if the waiter is already complete.
    fn is_complete(&self) -> (done: bool)
        ensures
            done == self.completed(),
    ;

    /// Reads the current state without blocking: true if the event has
    /// fired. An event that has fired stays fired until its completion runs.
    fn poll(&mut self) -> (fired: bool)
        ensures
            old(self).polled(final(self), fired),
            fired == final(self).triggered(),
            old(self).triggered() ==> fired,
            final(self).completed() == old(self).completed(),
    ;

    /// Runs whatever goes with the step from "has fired" to "consumed".
    fn run_completion(&mut self)
        ensures
            old(self).completion_ran(final(self)),
    ;

    /// Attaches the waiter to `sleeper`, so that the sleeper is signalled
    /// when the event fires. Returns false if this waiter has to be polled.
    /// A waiter whose event has already fired signals the sleeper during the
    /// call; a waiter never signals it for an event that has not fired.
    fn bind_signal(&mut self, sleeper: &mut SleepObject) -> (bound: bool)
        ensures
            old(self).attached(*old(sleeper), final(self), *final(sleeper), bound),
            bound == !old(self).poll_only(),
            final(self).completed() == old(self).completed(),
            old(self).triggered() ==> final(self).triggered(),
            *final(sleeper) == *old(sleeper) || (*final(sleeper) == old(sleeper).signalled()
                && final(self).triggered()),
            bound && final(self).triggered() ==> final(sleeper).is_pending(),
    ;

    /// Detaches the waiter from the sleeper it was bound to. Safe to call
    /// whether or not the bind succeeded.
    fn unbind_signal(&mut self)
        ensures
            old(self).unbound(final(self)),
            final(self).completed() == old(self).completed(),
            old(self).triggered() ==> final(self).triggered(),
    ;

    /// Polls, and runs the completion if the event has fired: the result is
    /// what the poll has found, and the waiter is as the poll has left it,
    /// or, where the event has fired, as the completion has left it after
    /// the poll.
    fn is_ready(&mut self) -> (ready: bool)
        ensures
            old(self).triggered() ==> ready,
            !ready ==> old(self).polled(final(self), false),
            ready ==> exists|mid: Self| #[trigger]
                old(self).polled(&mid, true) && mid.completion_ran(final(self)),
    {
        if self.poll() {
            let ghost mid = *self;
            self.run_completion();
            assert(old(self).polled(&mid, true) && mid.completion_ran(self));
            true
        } else {
            false
        }
    }
}

/// What one call of `is_ready` makes of a primitive: the result is what its
/// poll has found, and the primitive is as the poll has left it or, where
/// the poll has found the event fired, as the completion has left it after
/// the poll.
pub open spec fn readied<P: PrimitiveWaiter>(before: P, after: P, ready: bool) -> bool {
    if ready {
        exists|mid: P| #[trigger] before.polled(&mid, true) && mid.completion_ran(&after)
    } else {
        before.polled(&after, false)
    }
}

/// The states that the primitive of one stage goes through in one step of a
/// wait on its waiter, and what the calls on the way reported. A step fills
/// the parts that it goes through.
pub struct StageTrace<P> {
    /// The sleep object as `bind_signal` met it.
    pub met: SleepObject,
    /// The sleep object as `bind_signal` left it.
    pub left: SleepObject,
    /// The primitive when it has been bound.
    pub bound: P,
    /// The primitive when it has been polled.
    pub polled: P,
    /// What the poll found.
    pub fired: bool,
    /// The primitive when it has been unbound.
    pub unbound: P,
    /// What `is_ready` reported.
    pub ready: bool,
}

/// The end of a stage has taken the primitive from `from` to `after`: it
/// has been unbound, and `is_ready` has been called on it.
pub open spec fn stage_ended<P: PrimitiveWaiter>(from: P, t: StageTrace<P>, after: P) -> bool {
    from.unbound(&t.unbound) && readied(t.unbound, after, t.ready)
}

/// One step of a wait on a waiter that is in `phase`, of which `finished`
/// says whether it is finished and `prim` is the primitive, with the sleep
/// object in the state `sleeper`, has gone the way that `t` records: it
/// has left the sleep object as `left` and returned `step`, and the
/// primitive is `after` where the stage goes on and was `ended` at the end
/// of `is_ready` where the stage has ended.
pub open spec fn stage_follows<P: PrimitiveWaiter>(
    phase: WaitPhase,
    finished: bool,
    prim: P,
    sleeper: SleepObject,
    t: StageTrace<P>,
    ended: P,
    after: P,
    left: SleepObject,
    step: WaitStep,
) -> bool {
    match phase {
        WaitPhase::Done => step is Done,
        WaitPhase::Start => if finished {
            step is Done
        } else {
            &&& !t.met.is_pending()
            &&& !t.met.has_sleeper()
            &&& prim.attached(t.met, &t.bound, t.left, !prim.poll_only())
            &&& if prim.poll_only() {
                &&& left == t.left
                &&& t.bound.polled(&t.polled, t.fired)
                &&& if t.fired {
                    stage_ended(t.polled, t, ended) && (step is Again || step is Done)
                } else {
                    step is Nap && after == t.polled
                }
            } else {
                &&& left == t.left.waited()
                &&& if t.left.is_pending() {
                    stage_ended(t.bound, t, ended) && (step is Again || step is Done)
                } else {
                    step is Sleep && after == t.bound
                }
            }
        },
        WaitPhase::Polling => {
            &&& left == sleeper
            &&& prim.polled(&t.polled, t.fired)
            &&& if t.fired {
                stage_ended(t.polled, t, ended) && (step is Again || step is Done)
            } else {
                step is Nap && after == t.polled
            }
        },
        WaitPhase::Sleeping => {
            &&& left == sleeper.waited()
            &&& if sleeper.is_pending() {
                stage_ended(prim, t, ended) && (step is Again || step is Done)
            } else {
                step is Sleep && after == prim
            }
        },
    }
}

/// A waiter that may take several stages: each stage waits on one primitive,
/// and `complete` moves on from a stage whose primitive is ready.
pub trait Waiter: Sized {
    /// The kind of primitive this waiter lends out.
    type Primitive: PrimitiveWaiter;

    /// The waiter as a whole is finished: what `is_complete` reports.
    spec fn finished(&self) -> bool;

    /// The primitive of the current stage: what `get_waiter` lends.
    spec fn primitive(&self) -> Self::Primitive;

    /// What `complete` reports when called on this state.
    spec fn completes(&self) -> bool;

    /// One call of `complete` can take the waiter from this state to
    /// `after`.
    spec fn moved_on(&self, after: &Self) -> bool;

    /// True if the waiter is finished, so that waiting on it does nothing.
    fn is_complete(&self) -> (done: bool)
        ensures
            done == self.finished(),
    ;

    /// Lends the primitive of the current stage. Whether the waiter is
    /// finished can change under the loan only together with the
    /// primitive's own completeness.
    fn get_waiter(&mut self) -> (prim: &mut Self::Primitive)
        ensures
            *prim == old(self).primitive(),
            *final(prim) == final(self).primitive(),
            final(prim).completed() == prim.completed() ==> final(self).finished()
                == old(self).finished(),
    ;

    /// Called when a wait on the current stage has returned with the
    /// primitive ready. True says that this waiter has advanced for good.
    fn complete(&mut self) -> (done: bool)
        ensures
            done == old(self).completes(),
            old(self).moved_on(final(self)),
    ;

    /// One step of a wait on this waiter alone; the caller does what the
    /// returned step says and calls again until the step is `Done`.
    ///
    /// Each stage binds the current primitive to a fresh sleep object. A
    /// bound primitive is slept on, one that refused is polled, one call per
    /// poll. When the sleep object has been signalled, or the poll has found
    /// the event fired, the primitive is unbound and, if it is ready, its
    /// completion runs and `complete` is called.
    ///
    /// `stage_follows` says which calls the step has made on the primitive,
    /// in the primitive's own accounts of these calls; where `is_ready` has
    /// reported true the waiter has gone through one call of `complete`,
    /// and else it is as `is_ready` left it.
    fn wait(&mut self, wait: &mut ListWait) -> (step: WaitStep)
        ensures
            step is Done <==> final(wait).phase is Done,
            step is Again <==> final(wait).phase is Start,
            step is Nap <==> final(wait).phase is Polling,
            step is Sleep <==> final(wait).phase is Sleeping,
            step is Done ==> final(self).finished() || old(wait).phase is Done,
            step is Again ==> !final(self).finished(),
            (old(wait).phase is Start && old(self).finished()) || old(wait).phase is Done ==> {
                &&& step is Done
                &&& *final(self) == *old(self)
                &&& final(wait).sleeper == old(wait).sleeper
            },
            old(wait).phase is Start && !old(self).finished() ==> {
                &&& old(self).primitive().poll_only() ==> !(step is Sleep)
                &&& !old(self).primitive().poll_only() ==> !(step is Nap)
                &&& old(self).primitive().triggered() ==> step is Again || step is Done
            },
            old(wait).phase is Polling ==> {
                &&& !(step is Sleep)
                &&& old(self).primitive().triggered() ==> step is Again || step is Done
            },
            old(wait).phase is Sleeping ==> {
                &&& !(step is Nap)
                &&& step is Sleep <==> !old(wait).sleeper.is_pending()
            },
            step is Nap ==> !final(self).primitive().triggered(),
            step is Sleep ==> !final(wait).sleeper.is_pending()
                && final(wait).sleeper.has_sleeper(),
            exists|t: StageTrace<Self::Primitive>, mid: Self| #[trigger]
                stage_follows(
                    old(wait).phase,
                    old(self).finished(),
                    old(self).primitive(),
                    old(wait).sleeper,
                    t,
                    mid.primitive(),
                    final(self).primitive(),
                    final(wait).sleeper,
                    step,
                ) && ((step is Again || step is Done) && !(old(wait).phase is Done)
                    && !(old(wait).phase is Start && old(self).finished()) ==> if t.ready {
                    mid.moved_on(final(self))
                } else {
                    *final(self) == mid
                }),
    {
        let ghost entry = *wait;
        let ghost start = *self;
        let ghost mut t = StageTrace {
            met: entry.sleeper,
            left: entry.sleeper,
            bound: start.primitive(),
            polled: start.primitive(),
            fired: false,
            unbound: start.primitive(),
            ready: false,
        };
        match wait.phase {
            WaitPhase::Start => {
                if self.is_complete() {
                    wait.phase = WaitPhase::Done;
                    assert(stage_follows(
                        entry.phase,
                        start.finished(),
                        start.primitive(),
                        entry.sleeper,
                        t,
                        start.primitive(),
                        self.primitive(),
                        wait.sleeper,
                        WaitStep::Done,
                    ));
                    return WaitStep::Done;
                }
                wait.sleeper = SleepObject::new("wait_on_list");
                let ghost fresh = wait.sleeper;
                let prim = self.get_waiter();
                let bound = prim.bind_signal(&mut wait.sleeper);
                proof {
                    t.met = fresh;
                    t.left = wait.sleeper;
                    t.bound = *prim;
                }
                if bound {
                    if !wait.sleeper.wait() {
                        wait.phase = WaitPhase::Sleeping;
                        assert(stage_follows(
                            entry.phase,
                            start.finished(),
                            start.primitive(),
                            entry.sleeper,
                            t,
                            start.primitive(),
                            self.primitive(),
                            wait.sleeper,
                            WaitStep::Sleep,
                        ));
                        return WaitStep::Sleep;
                    }
                } else {
                    let fired = prim.poll();
                    proof {
                        t.polled = *prim;
                        t.fired = fired;
                    }
                    if !fired {
                        wait.phase = WaitPhase::Polling;
                        assert(stage_follows(
                            entry.phase,
                            start.finished(),
                            start.primitive(),
                            entry.sleeper,
                            t,
                            start.primitive(),
                            self.primitive(),
                            wait.sleeper,
                            WaitStep::Nap,
                        ));
                        return WaitStep::Nap;
                    }
                }
            },
            WaitPhase::Polling => {
                let prim = self.get_waiter();
                let fired = prim.poll();
                proof {
                    t.polled = *prim;
                    t.fired = fired;
                }
                if !fired {
                    assert(stage_follows(
                        entry.phase,
                        start.finished(),
                        start.primitive(),
                        entry.sleeper,
                        t,
                        start.primitive(),
                        self.primitive(),
                        wait.sleeper,
                        WaitStep::Nap,
                    ));
                    return WaitStep::Nap;
                }
            },
            WaitPhase::Sleeping => {
                if !wait.sleeper.wait() {
                    assert(stage_follows(
                        entry.phase,
                        start.finished(),
                        start.primitive(),
                        entry.sleeper,
                        t,
                        start.primitive(),
                        self.primitive(),
                        wait.sleeper,
                        WaitStep::Sleep,
                    ));
                    return WaitStep::Sleep;
                }
            },
            WaitPhase::Done => {
                assert(stage_follows(
                    entry.phase,
                    start.finished(),
                    start.primitive(),
                    entry.sleeper,
                    t,
                    start.primitive(),
                    self.primitive(),
                    wait.sleeper,
                    WaitStep::Done,
                ));
                return WaitStep::Done;
            },
        };
        let ghost from = self.primitive();
        let prim = self.get_waiter();
        prim.unbind_signal();
        proof {
            t.unbound = *prim;
        }
        let ready = prim.is_ready();
        proof {
            t.ready = ready;
            assert(readied(t.unbound, *prim, ready));
        }
        let ghost mid = *self;
        if ready {
            let _ = self.complete();
        }
        let step = if self.is_complete() {
            wait.phase = WaitPhase::Done;
            WaitStep::Done
        } else {
            wait.phase = WaitPhase::Start;
            WaitStep::Again
        };
        proof {
            assert(stage_ended(from, t, mid.primitive()));
            assert(stage_follows(
                entry.phase,
                start.finished(),
                start.primitive(),
                entry.sleeper,
                t,
                mid.primitive(),
                self.primitive(),
                wait.sleeper,
                step,
            ));
        }
        step
    }
}

/// A primitive is a waiter of one stage: it lends itself, and `complete`
/// always reports true.
impl<T: PrimitiveWaiter> Waiter for T {
    type Primitive = T;

    open spec fn finished(&self) -> bool {
        self.completed()
    }

    open spec fn primitive(&self) -> T {
        *self
    }

    open spec fn completes(&self) -> bool {
        true
    }

    open spec fn moved_on(&self, after: &Self) -> bool {
        *after == *self
    }

    fn is_complete(&self) -> (done: bool) {
        PrimitiveWaiter::is_complete(self)
    }

    fn get_waiter(&mut self) -> (prim: &mut T) {
        self
    }

    fn complete(&mut self) -> (done: bool) {
        assert(old(self).completes());
        true
    }
}

/// Error of a wait on a list.
pub enum WaitError {
    /// The time allowed ran out before any waiter advanced.
    Timeout,
}

/// Where a wait on a list stands between two calls of `wait_on_list`.
pub enum WaitPhase {
    /// Nothing has been bound yet.
    Start,
    /// The waiters are bound and are being polled.
    Polling,
    /// The waiters are bound and the caller sleeps on the sleep object.
    Sleeping,
    /// The wait has returned its result.
    Done,
}

/// The state of one wait on a list: its phase, and the sleep object that the
/// waiters are bound to.
pub struct ListWait {
    pub phase: WaitPhase,
    pub sleeper: SleepObject,
}

/// What the caller of `wait_on_list` has to do next.
pub enum WaitAction {
    /// The wait is over, with this result.
    Return(Option<usize>),
    /// No polled waiter has fired: yield for a short time and call again.
    Nap,
    /// Block on the sleep object until it is signalled and call again.
    Sleep,
}

/// What the caller of `Waiter::wait` has to do next.
pub enum WaitStep {
    /// The waiter is finished.
    Done,
    /// A stage has been waited for; call again for the next one.
    Again,
    /// The primitive has not fired: yield for a short time and call again.
    Nap,
    /// Block on the sleep object until it is signalled and call again.
    Sleep,
}

/// Every waiter of the list is finished.
pub open spec fn all_finished<W: Waiter>(ws: Seq<W>) -> bool {
    forall|i: int| 0 <= i < ws.len() ==> (#[trigger] ws[i]).finished()
}

/// Some unfinished waiter of the list has to be polled.
pub open spec fn needs_polling<W: Waiter>(ws: Seq<W>) -> bool {
    exists|i: int|
        0 <= i < ws.len() && !(#[trigger] ws[i]).finished() && ws[i].primitive().poll_only()
}

/// The event of some unfinished waiter of the list has fired.
pub open spec fn any_triggered<W: Waiter>(ws: Seq<W>) -> bool {
    exists|i: int|
        0 <= i < ws.len() && !(#[trigger] ws[i]).finished() && ws[i].primitive().triggered()
}

/// The number of unfinished waiters in the list.
pub open spec fn active_count<W: Waiter>(ws: Seq<W>) -> nat
    decreases ws.len(),
{
    if ws.len() == 0 {
        0
    } else {
        active_count(ws.drop_last()) + if ws.last().finished() {
            0nat
        } else {
            1nat
        }
    }
}

/// What every pass over a list keeps: its length, the finished waiters as
/// they are, and of the others that they stay unfinished, and fired if they
/// had fired.
pub open spec fn pass_keeps<W: Waiter>(before: Seq<W>, after: Seq<W>) -> bool {
    &&& after.len() == before.len()
    &&& forall|i: int|
        0 <= i < before.len() && (#[trigger] before[i]).finished() ==> after[i] == before[i]
    &&& forall|i: int|
        0 <= i < before.len() && !(#[trigger] before[i]).finished() ==> {
            &&& !after[i].finished()
            &&& before[i].primitive().triggered() ==> after[i].primitive().triggered()
        }
}

impl ListWait {
    /// A wait that has not started.
    pub fn new() -> (wait: ListWait)
        ensures
            wait.phase is Start,
            !wait.sleeper.is_pending(),
            !wait.sleeper.has_sleeper(),
    {
        ListWait { phase: WaitPhase::Start, sleeper: SleepObject::new("wait_on_list") }
    }
}

/// What a wait does to one waiter when it binds the list: a finished
/// waiter and the sleep object are left as they are, and the primitive of
/// an unfinished one goes through one call of `bind_signal`, which meets the
/// sleep object as `sleeper` and leaves it as `left`.
pub open spec fn bound_one<W: Waiter>(
    before: W,
    after: W,
    sleeper: SleepObject,
    left: SleepObject,
) -> bool {
    if before.finished() {
        after == before && left == sleeper
    } else {
        before.primitive().attached(
            sleeper,
            &after.primitive(),
            left,
            !before.primitive().poll_only(),
        )
    }
}

/// The list has been bound: every waiter in its turn, each meeting the
/// sleep object as the one before has left it.
pub open spec fn bound_pass<W: Waiter>(
    before: Seq<W>,
    after: Seq<W>,
    met: Seq<SleepObject>,
    left: Seq<SleepObject>,
) -> bool {
    &&& after.len() == before.len()
    &&& met.len() == before.len()
    &&& left.len() == before.len()
    &&& forall|i: int|
        0 <= i < before.len() ==> #[trigger] bound_one(before[i], after[i], met[i], left[i])
    &&& forall|i: int, j: int|
        0 <= i < before.len() && j == i + 1 && j < before.len() ==> #[trigger] met[j]
            == #[trigger] left[i]
}

/// Some poll before the one of waiter `i` has found its event fired.
pub open spec fn fired_before(fired: Seq<bool>, i: int) -> bool {
    exists|j: int| 0 <= j < i && j < fired.len() && #[trigger] fired[j]
}

/// What a pass of polls does to one waiter: a finished waiter, and any
/// waiter after the first poll that found its event fired, is left as it
/// is; the primitive of any other goes through one call of `poll`.
pub open spec fn polled_one<W: Waiter>(before: W, after: W, skipped: bool, fired: bool) -> bool {
    if before.finished() || skipped {
        after == before && !fired
    } else {
        before.primitive().polled(&after.primitive(), fired)
    }
}

/// The list has been polled once: the unfinished waiters in their order, up
/// to the first whose poll found its event fired.
pub open spec fn polled_pass<W: Waiter>(before: Seq<W>, after: Seq<W>, fired: Seq<bool>) -> bool {
    &&& after.len() == before.len()
    &&& fired.len() == before.len()
    &&& forall|i: int|
        0 <= i < before.len() ==> #[trigger] polled_one(
            before[i],
            after[i],
            fired_before(fired, i),
            fired[i],
        )
}

/// What the end of a wait does to one waiter that has been unbound: a
/// finished waiter is left as it is; the primitive of an unfinished one goes
/// through one call of `is_ready`, which leaves the waiter as `mid`; where
/// that has reported true the waiter goes through one call of `complete`,
/// and else it stays as it is.
pub open spec fn completed_one<W: Waiter>(before: W, mid: W, ready: bool, after: W) -> bool {
    if before.finished() {
        mid == before && after == before && !ready
    } else {
        readied(before.primitive(), mid.primitive(), ready) && if ready {
            mid.moved_on(&after)
        } else {
            after == mid
        }
    }
}

/// The completions of the list have been run: `is_ready` on every
/// unfinished waiter, and `complete` on those for which it reported true.
pub open spec fn completed_pass<W: Waiter>(
    before: Seq<W>,
    mids: Seq<W>,
    ready: Seq<bool>,
    after: Seq<W>,
) -> bool {
    &&& after.len() == before.len()
    &&& mids.len() == before.len()
    &&& ready.len() == before.len()
    &&& forall|i: int|
        0 <= i < before.len() ==> #[trigger] completed_one(before[i], mids[i], ready[i], after[i])
}

/// The number of waiters for which `is_ready` reported true and `complete`,
/// called on the waiter as `is_ready` left it, reported true as well.
pub open spec fn advanced_count<W: Waiter>(mids: Seq<W>, ready: Seq<bool>) -> nat
    decreases mids.len(),
{
    if mids.len() == 0 || ready.len() != mids.len() {
        0
    } else {
        advanced_count(mids.drop_last(), ready.drop_last()) + if ready.last()
            && mids.last().completes() {
            1nat
        } else {
            0nat
        }
    }
}

/// The states that a list of waiters goes through in one step of a wait,
/// and what the calls on the way reported. A step fills the parts that it
/// goes through.
pub struct WaitTrace<W> {
    /// The sleep object as each waiter's `bind_signal` met it.
    pub met: Seq<SleepObject>,
    /// The sleep object as each waiter's `bind_signal` left it.
    pub left: Seq<SleepObject>,
    /// The list when it has been bound.
    pub bound: Seq<W>,
    /// The list when it has been polled.
    pub polled: Seq<W>,
    /// What each waiter's poll found.
    pub fired: Seq<bool>,
    /// The list when it has been unbound.
    pub unbound: Seq<W>,
    /// The list with each waiter as `is_ready` left it.
    pub readied: Seq<W>,
    /// What each waiter's `is_ready` reported.
    pub ready: Seq<bool>,
}

/// The end of a wait has taken the list from `before` to `after` and counted
/// `k` waiters: every unfinished waiter has been unbound, `is_ready` has
/// been called on each, `complete` on those for which it reported true, and
/// `k` is the number of those for which both reported true.
pub open spec fn finish_follows<W: Waiter>(
    before: Seq<W>,
    t: WaitTrace<W>,
    after: Seq<W>,
    k: nat,
) -> bool {
    &&& pass_keeps(before, t.unbound)
    &&& all_unbound(before, t.unbound)
    &&& completed_pass(t.unbound, t.readied, t.ready, after)
    &&& k == advanced_count(t.readied, t.ready)
}

/// A step of a polling wait has taken the list from `before` to `after`: it
/// has polled the list once, and has ended the wait if a poll found an
/// event fired, and else asked for a nap.
pub open spec fn poll_follows<W: Waiter>(
    before: Seq<W>,
    t: WaitTrace<W>,
    after: Seq<W>,
    action: WaitAction,
) -> bool {
    &&& polled_pass(before, t.polled, t.fired)
    &&& if fired_before(t.fired, t.fired.len() as int) {
        action matches WaitAction::Return(Some(k)) && finish_follows(t.polled, t, after, k as nat)
    } else {
        action is Nap && after == t.polled
    }
}

/// A step of a sleeping wait has taken the list from `before` to `after`
/// and the sleep object from `sleeper` to `left`: it has waited on the sleep
/// object, and has ended the wait if a signal was pending, and else asked
/// for a sleep and left the list as it was.
pub open spec fn sleep_follows<W: Waiter>(
    before: Seq<W>,
    sleeper: SleepObject,
    t: WaitTrace<W>,
    after: Seq<W>,
    left: SleepObject,
    action: WaitAction,
) -> bool {
    &&& left == sleeper.waited()
    &&& if sleeper.is_pending() {
        action matches WaitAction::Return(Some(k)) && finish_follows(before, t, after, k as nat)
    } else {
        action is Sleep && after == before
    }
}

/// One step of a wait has taken the list and the state of the wait from
/// `waiters` and `wait` to `after` and `left` and has returned `action`, on
/// the way that `t` records.
pub open spec fn step_follows<W: Waiter>(
    waiters: Seq<W>,
    wait: ListWait,
    t: WaitTrace<W>,
    after: Seq<W>,
    left: ListWait,
    action: WaitAction,
) -> bool {
    match wait.phase {
        WaitPhase::Done => action == WaitAction::Return(None) && after == waiters && left == wait,
        WaitPhase::Start => if all_finished(waiters) {
            action == WaitAction::Return(None) && after == waiters && left.sleeper == wait.sleeper
        } else {
            &&& waiters.len() > 0
            &&& bound_pass(waiters, t.bound, t.met, t.left)
            &&& !t.met[0].is_pending()
            &&& !t.met[0].has_sleeper()
            &&& if needs_polling(waiters) {
                poll_follows(t.bound, t, after, action) && left.sleeper == t.left.last()
            } else {
                sleep_follows(t.bound, t.left.last(), t, after, left.sleeper, action)
            }
        },
        WaitPhase::Polling => poll_follows(waiters, t, after, action) && left.sleeper
            == wait.sleeper,
        WaitPhase::Sleeping => sleep_follows(
            waiters,
            wait.sleeper,
            t,
            after,
            left.sleeper,
            action,
        ),
    }
}

/// Counts the unfinished waiters.
fn count_incomplete<W: Waiter>(waiters: &[W]) -> (n: usize)
    ensures
        n == active_count(waiters@),
        n == 0 <==> all_finished(waiters@),
{
    let mut n: usize = 0;
    let mut i: usize = 0;
    while i < waiters.len()
        invariant
            i <= waiters.len(),
            n <= i,
            n == active_count(waiters@.take(i as int)),
            n == 0 <==> all_finished(waiters@.take(i as int)),
        decreases waiters.len() - i,
    {
        proof {
            let short = waiters@.take(i as int);
            let next = waiters@.take(i + 1);
            assert(next.drop_last() == short);
            assert(next.last() == waiters@[i as int]);
            assert(next[i as int] == waiters@[i as int]);
            if all_finished(next) {
                assert forall|j: int| 0 <= j < short.len() implies (
                #[trigger] short[j]).finished() by {
                    assert(next[j] == short[j]);
                    assert(next[j].finished());
                }
            }
            if all_finished(short) && waiters@[i as int].finished() {
                assert forall|j: int| 0 <= j < next.len() implies (
                #[trigger] next[j]).finished() by {
                    if j < i {
                        assert(short[j] == next[j]);
                        assert(short[j].finished());
                    }
                }
            }
        }
        if !waiters[i].is_complete() {
            n = n + 1;
        }
        i = i + 1;
    }
    assert(waiters@.take(i as int) == waiters@);
    n
}

/// One more waiter at the end of a prefix: how the three summaries of the
/// prefix change.
proof fn lemma_prefix_step<W: Waiter>(ws: Seq<W>, i: int)
    requires
        0 <= i < ws.len(),
    ensures
        needs_polling(ws.take(i + 1)) == (needs_polling(ws.take(i)) || (!ws[i].finished()
            && ws[i].primitive().poll_only())),
        any_triggered(ws.take(i + 1)) == (any_triggered(ws.take(i)) || (!ws[i].finished()
            && ws[i].primitive().triggered())),
        active_count(ws.take(i + 1)) == active_count(ws.take(i)) + if ws[i].finished() {
            0nat
        } else {
            1nat
        },
{
    let short = ws.take(i);
    let long = ws.take(i + 1);
    assert(long.drop_last() == short);
    assert(long.last() == ws[i]);
    assert(long[i] == ws[i]);
    if needs_polling(short) {
        let j = choose|j: int|
            0 <= j < short.len() && !(#[trigger] short[j]).finished()
                && short[j].primitive().poll_only();
        assert(long[j] == short[j]);
    }
    if needs_polling(long) {
        let j = choose|j: int|
            0 <= j < long.len() && !(#[trigger] long[j]).finished()
                && long[j].primitive().poll_only();
        if j < i {
            assert(short[j] == long[j]);
        }
    }
    if any_triggered(short) {
        let j = choose|j: int|
            0 <= j < short.len() && !(#[trigger] short[j]).finished()
                && short[j].primitive().triggered();
        assert(long[j] == short[j]);
    }
    if any_triggered(long) {
        let j = choose|j: int|
            0 <= j < long.len() && !(#[trigger] long[j]).finished()
                && long[j].primitive().triggered();
        if j < i {
            assert(short[j] == long[j]);
        }
    }
}

/// Binds every unfinished waiter to `sleeper`, in order. Returns true if any
/// of them refused, so that the list has to be polled, and the states in
/// which the waiters met and left the sleep object.
fn bind_all<W: Waiter>(waiters: &mut [W], sleeper: &mut SleepObject) -> (bound: (
    bool,
    Ghost<Seq<SleepObject>>,
    Ghost<Seq<SleepObject>>,
))
    requires
        old(waiters)@.len() > 0,
    ensures
        pass_keeps(old(waiters)@, final(waiters)@),
        bound_pass(old(waiters)@, final(waiters)@, bound.1@, bound.2@),
        bound.1@[0] == *old(sleeper),
        bound.2@.last() == *final(sleeper),
        bound.0 == needs_polling(old(waiters)@),
        final(sleeper).name() == old(sleeper).name(),
        final(sleeper).has_sleeper() == old(sleeper).has_sleeper(),
        old(sleeper).is_pending() ==> final(sleeper).is_pending(),
        final(sleeper).is_pending() && !old(sleeper).is_pending() ==> any_triggered(
            final(waiters)@,
        ),
        !bound.0 && any_triggered(final(waiters)@) ==> final(sleeper).is_pending(),
{
    let ghost before = waiters@;
    let ghost first = *sleeper;
    let ghost mut met: Seq<SleepObject> = Seq::empty();
    let ghost mut left: Seq<SleepObject> = Seq::empty();
    let mut force_poll = false;
    let mut i: usize = 0;
    while i < waiters.len()
        invariant
            i <= waiters.len(),
            waiters@.len() == before.len(),
            forall|j: int| i <= j < before.len() ==> waiters@[j] == before[j],
            pass_keeps(before, waiters@),
            force_poll == needs_polling(before.take(i as int)),
            sleeper.name() == first.name(),
            sleeper.has_sleeper() == first.has_sleeper(),
            first.is_pending() ==> sleeper.is_pending(),
            sleeper.is_pending() && !first.is_pending() ==> any_triggered(waiters@.take(i as int)),
            !force_poll && any_triggered(waiters@.take(i as int)) ==> sleeper.is_pending(),
            met.len() == i,
            left.len() == i,
            i == 0 ==> *sleeper == first,
            i > 0 ==> met[0] == first && left[i - 1] == *sleeper,
            forall|j: int|
                0 <= j < i ==> #[trigger] bound_one(before[j], waiters@[j], met[j], left[j]),
            forall|j: int, k: int|
                0 <= j < i && k == j + 1 && k < i ==> #[trigger] met[k] == #[trigger] left[j],
        decreases waiters.len() - i,
    {
        let ghost mid = waiters@;
        let ghost mid_sleeper = *sleeper;
        let ghost old_met = met;
        let ghost old_left = left;
        if !waiters[i].is_complete() {
            let bound = waiters[i].get_waiter().bind_signal(sleeper);
            if !bound {
                force_poll = true;
            }
        }
        proof {
            lemma_sleep_steps(mid_sleeper);
            assert(waiters@.len() == before.len());
            assert(forall|j: int| 0 <= j < before.len() && j != i ==> waiters@[j] == mid[j]);
            assert(waiters@.take(i as int) == mid.take(i as int));
            lemma_prefix_step(before, i as int);
            lemma_prefix_step(waiters@, i as int);
            met = met.push(mid_sleeper);
            left = left.push(*sleeper);
            assert(mid[i as int] == before[i as int]);
            assert(bound_one(before[i as int], waiters@[i as int], mid_sleeper, *sleeper));
            assert forall|j: int| 0 <= j < i + 1 implies #[trigger] bound_one(
                before[j],
                waiters@[j],
                met[j],
                left[j],
            ) by {
                if j < i {
                    assert(met[j] == old_met[j] && left[j] == old_left[j]);
                    assert(bound_one(before[j], mid[j], old_met[j], old_left[j]));
                }
            }
            assert forall|j: int, k: int|
                0 <= j < i + 1 && k == j + 1 && k < i + 1 implies #[trigger] met[k]
                == #[trigger] left[j] by {
                if k < i {
                    assert(old_met[k] == old_left[j]);
                }
            }
        }
        i = i + 1;
    }
    assert(before.take(i as int) == before);
    assert(waiters@.take(i as int) == waiters@);
    (force_poll, Ghost(met), Ghost(left))
}

/// Taking one more poll in leaves what was found before any earlier poll.
proof fn lemma_fired_push(fired: Seq<bool>, found: bool, i: int)
    requires
        0 <= i <= fired.len(),
    ensures
        fired_before(fired.push(found), i) == fired_before(fired, i),
        fired_before(fired.push(found), fired.len() as int + 1) == (fired_before(
            fired,
            fired.len() as int,
        ) || found),
{
    let more = fired.push(found);
    if fired_before(fired, i) {
        let j = choose|j: int| 0 <= j < i && j < fired.len() && #[trigger] fired[j];
        assert(more[j]);
    }
    if fired_before(more, i) {
        let j = choose|j: int| 0 <= j < i && j < more.len() && #[trigger] more[j];
        assert(fired[j]);
    }
    let n = fired.len() as int;
    if fired_before(fired, n) {
        let j = choose|j: int| 0 <= j < n && j < fired.len() && #[trigger] fired[j];
        assert(more[j]);
    }
    if found {
        assert(more[n]);
    }
    if fired_before(more, n + 1) {
        let j = choose|j: int| 0 <= j < n + 1 && j < more.len() && #[trigger] more[j];
        if j < n {
            assert(fired[j]);
        }
    }
}

/// Polls the unfinished waiters in order, up to the first one that has
/// fired. Returns true if one has, and what each poll has found.
fn poll_pass<W: Waiter>(waiters: &mut [W]) -> (polled: (bool, Ghost<Seq<bool>>))
    ensures
        pass_keeps(old(waiters)@, final(waiters)@),
        polled_pass(old(waiters)@, final(waiters)@, polled.1@),
        polled.0 == fired_before(polled.1@, polled.1@.len() as int),
        polled.0 == any_triggered(final(waiters)@),
        any_triggered(old(waiters)@) ==> polled.0,
{
    let ghost before = waiters@;
    let ghost mut found: Seq<bool> = Seq::empty();
    let mut fired = false;
    let mut i: usize = 0;
    while i < waiters.len()
        invariant
            i <= waiters.len(),
            waiters@.len() == before.len(),
            forall|j: int| i <= j < before.len() ==> waiters@[j] == before[j],
            pass_keeps(before, waiters@),
            any_triggered(before.take(i as int)) ==> fired,
            !fired ==> !any_triggered(waiters@.take(i as int)),
            fired ==> any_triggered(waiters@),
            found.len() == i,
            fired == fired_before(found, i as int),
            forall|j: int|
                0 <= j < i ==> #[trigger] polled_one(
                    before[j],
                    waiters@[j],
                    fired_before(found, j),
                    found[j],
                ),
        decreases waiters.len() - i,
    {
        let ghost mid = waiters@;
        let ghost old_found = found;
        let was_fired = fired;
        let mut now = false;
        if !waiters[i].is_complete() {
            if !fired {
                if waiters[i].get_waiter().poll() {
                    fired = true;
                    now = true;
                    assert(!waiters@[i as int].finished()
                        && waiters@[i as int].primitive().triggered());
                }
            }
        }
        proof {
            assert(forall|j: int| 0 <= j < before.len() && j != i ==> waiters@[j] == mid[j]);
            assert(waiters@.take(i as int) == mid.take(i as int));
            lemma_prefix_step(before, i as int);
            lemma_prefix_step(waiters@, i as int);
            found = found.push(now);
            lemma_fired_push(old_found, now, i as int);
            assert(mid[i as int] == before[i as int]);
            assert(polled_one(before[i as int], waiters@[i as int], was_fired, now));
            assert forall|j: int| 0 <= j < i + 1 implies #[trigger] polled_one(
                before[j],
                waiters@[j],
                fired_before(found, j),
                found[j],
            ) by {
                if j < i {
                    lemma_fired_push(old_found, now, j);
                    assert(found[j] == old_found[j]);
                    assert(polled_one(before[j], mid[j], fired_before(old_found, j), old_found[j]));
                }
            }
        }
        i = i + 1;
    }
    assert(before.take(i as int) == before);
    assert(waiters@.take(i as int) == waiters@);
    (fired, Ghost(found))
}

/// Every waiter that was unfinished in `before` has lent its primitive to
/// one call of `unbind_signal`, and `after` holds it as the call has left
/// it.
pub open spec fn all_unbound<W: Waiter>(before: Seq<W>, after: Seq<W>) -> bool {
    &&& after.len() == before.len()
    &&& forall|i: int|
        0 <= i < before.len() && !(#[trigger] before[i]).finished()
            ==> before[i].primitive().unbound(&after[i].primitive())
}

/// Detaches every unfinished waiter from the sleep object: calls
/// `unbind_signal` once on the primitive of each, and leaves the finished
/// waiters as they are.
fn unbind_all<W: Waiter>(waiters: &mut [W])
    ensures
        pass_keeps(old(waiters)@, final(waiters)@),
        all_unbound(old(waiters)@, final(waiters)@),
{
    let ghost before = waiters@;
    let mut i: usize = 0;
    while i < waiters.len()
        invariant
            i <= waiters.len(),
            waiters@.len() == before.len(),
            forall|j: int| i <= j < before.len() ==> waiters@[j] == before[j],
            pass_keeps(before, waiters@),
            forall|j: int|
                0 <= j < i && !(#[trigger] before[j]).finished()
                    ==> before[j].primitive().unbound(&waiters@[j].primitive()),
        decreases waiters.len() - i,
    {
        let ghost mid = waiters@;
        if !waiters[i].is_complete() {
            waiters[i].get_waiter().unbind_signal();
        }
        proof {
            assert(forall|j: int| 0 <= j < before.len() && j != i ==> waiters@[j] == mid[j]);
        }
        i = i + 1;
    }
}

/// What the last pass of a wait keeps: the length of the list and the
/// waiters that were finished before it.
pub open spec fn finished_kept<W: Waiter>(before: Seq<W>, after: Seq<W>) -> bool {
    &&& after.len() == before.len()
    &&& forall|i: int|
        0 <= i < before.len() && (#[trigger] before[i]).finished() ==> after[i] == before[i]
}

/// Runs the completion of every unfinished waiter that is ready, and counts
/// those that `complete` reports as advanced. Returns the count, the
/// waiters as `is_ready` left them, and what it reported of each.
fn run_completions<W: Waiter>(waiters: &mut [W]) -> (ran: (
    usize,
    Ghost<Seq<W>>,
    Ghost<Seq<bool>>,
))
    ensures
        finished_kept(old(waiters)@, final(waiters)@),
        completed_pass(old(waiters)@, ran.1@, ran.2@, final(waiters)@),
        ran.0 == advanced_count(ran.1@, ran.2@),
        ran.0 <= active_count(old(waiters)@),
        any_triggered(old(waiters)@) && (forall|w: W| #[trigger] w.completes()) ==> ran.0 >= 1,
{
    let ghost before = waiters@;
    let ghost mut mids: Seq<W> = Seq::empty();
    let ghost mut readies: Seq<bool> = Seq::empty();
    let mut advanced: usize = 0;
    let mut i: usize = 0;
    while i < waiters.len()
        invariant
            i <= waiters.len(),
            waiters@.len() == before.len(),
            forall|j: int| i <= j < before.len() ==> waiters@[j] == before[j],
            finished_kept(before, waiters@),
            advanced <= i,
            advanced <= active_count(before.take(i as int)),
            any_triggered(before.take(i as int)) && (forall|w: W| #[trigger] w.completes())
                ==> advanced >= 1,
            mids.len() == i,
            readies.len() == i,
            advanced == advanced_count(mids, readies),
            forall|j: int|
                0 <= j < i ==> #[trigger] completed_one(
                    before[j],
                    mids[j],
                    readies[j],
                    waiters@[j],
                ),
        decreases waiters.len() - i,
    {
        let ghost start = waiters@;
        let ghost old_mids = mids;
        let ghost old_readies = readies;
        let ghost mut mid_w = waiters@[i as int];
        let mut was_ready = false;
        if !waiters[i].is_complete() {
            was_ready = waiters[i].get_waiter().is_ready();
            proof {
                mid_w = waiters@[i as int];
                assert(readied(before[i as int].primitive(), mid_w.primitive(), was_ready));
            }
            if was_ready {
                if waiters[i].complete() {
                    advanced = advanced + 1;
                }
            }
        }
        proof {
            assert(forall|j: int| 0 <= j < before.len() && j != i ==> waiters@[j] == start[j]);
            lemma_prefix_step(before, i as int);
            mids = mids.push(mid_w);
            readies = readies.push(was_ready);
            assert(mids.drop_last() == old_mids);
            assert(readies.drop_last() == old_readies);
            assert(completed_one(before[i as int], mid_w, was_ready, waiters@[i as int]));
            assert forall|j: int| 0 <= j < i + 1 implies #[trigger] completed_one(
                before[j],
                mids[j],
                readies[j],
                waiters@[j],
            ) by {
                if j < i {
                    assert(mids[j] == old_mids[j] && readies[j] == old_readies[j]);
                    assert(completed_one(before[j], old_mids[j], old_readies[j], start[j]));
                }
            }
        }
        i = i + 1;
    }
    assert(before.take(i as int) == before);
    (advanced, Ghost(mids), Ghost(readies))
}

/// Every waiter of type `W` reports from `complete` that it has advanced:
/// true of the primitives, which have one stage.
pub open spec fn one_stage<W: Waiter>() -> bool {
    forall|w: W| #[trigger] w.completes()
}

/// Ends a wait: unbinds the waiters, runs the completions, and returns the
/// number of waiters that advanced, with the states on the way.
fn finish_wait<W: Waiter>(waiters: &mut [W], wait: &mut ListWait) -> (ended: (
    WaitAction,
    Ghost<WaitTrace<W>>,
))
    ensures
        finished_kept(old(waiters)@, final(waiters)@),
        final(wait).phase is Done,
        final(wait).sleeper == old(wait).sleeper,
        ended.0 matches WaitAction::Return(Some(k)) && k <= active_count(old(waiters)@) && (
        any_triggered(old(waiters)@) && one_stage::<W>() ==> k >= 1) && finish_follows(
            old(waiters)@,
            ended.1@,
            final(waiters)@,
            k as nat,
        ),
{
    let ghost before = waiters@;
    unbind_all(waiters);
    let ghost unbound = waiters@;
    proof {
        lemma_pass_keeps_count(before, unbound);
        lemma_pass_keeps_triggered(before, unbound);
    }
    let (advanced, Ghost(mids), Ghost(readies)) = run_completions(waiters);
    wait.phase = WaitPhase::Done;
    let ghost t = WaitTrace {
        met: Seq::empty(),
        left: Seq::empty(),
        bound: Seq::empty(),
        polled: Seq::empty(),
        fired: Seq::empty(),
        unbound: unbound,
        readied: mids,
        ready: readies,
    };
    proof {
        lemma_finished_kept_after(before, unbound, waiters@);
    }
    (WaitAction::Return(Some(advanced)), Ghost(t))
}

/// A pass that keeps the unfinished waiters unfinished keeps their number.
proof fn lemma_pass_keeps_count<W: Waiter>(before: Seq<W>, after: Seq<W>)
    requires
        pass_keeps(before, after),
    ensures
        active_count(after) == active_count(before),
        all_finished(after) == all_finished(before),
    decreases before.len(),
{
    if before.len() > 0 {
        let b = before.drop_last();
        let a = after.drop_last();
        assert forall|i: int| 0 <= i < b.len() && (#[trigger] b[i]).finished() implies a[i]
            == b[i] by {
            assert(before[i].finished());
        }
        assert forall|i: int| 0 <= i < b.len() && !(#[trigger] b[i]).finished() implies {
            &&& !a[i].finished()
            &&& b[i].primitive().triggered() ==> a[i].primitive().triggered()
        } by {
            assert(!before[i].finished());
        }
        lemma_pass_keeps_count(b, a);
        let n = before.len() - 1;
        assert(before[n].finished() == after[n].finished());
    }
    if all_finished(before) {
        assert forall|i: int| 0 <= i < after.len() implies (#[trigger] after[i]).finished() by {
            assert(before[i].finished());
        }
    }
    if all_finished(after) {
        assert forall|i: int| 0 <= i < before.len() implies (#[trigger] before[i]).finished() by {
            if !before[i].finished() {
                assert(!after[i].finished());
            }
        }
    }
}

/// A pass keeps fired events fired.
proof fn lemma_pass_keeps_triggered<W: Waiter>(before: Seq<W>, after: Seq<W>)
    requires
        pass_keeps(before, after),
    ensures
        any_triggered(before) ==> any_triggered(after),
{
    if any_triggered(before) {
        let j = choose|j: int|
            0 <= j < before.len() && !(#[trigger] before[j]).finished()
                && before[j].primitive().triggered();
        assert(!after[j].finished() && after[j].primitive().triggered());
    }
}

/// Two passes in a row keep what one pass keeps.
proof fn lemma_pass_keeps_twice<W: Waiter>(a: Seq<W>, b: Seq<W>, c: Seq<W>)
    requires
        pass_keeps(a, b),
        pass_keeps(b, c),
    ensures
        pass_keeps(a, c),
{
    assert forall|i: int| 0 <= i < a.len() && (#[trigger] a[i]).finished() implies c[i]
        == a[i] by {
        assert(b[i] == a[i]);
        assert(b[i].finished());
    }
    assert forall|i: int| 0 <= i < a.len() && !(#[trigger] a[i]).finished() implies {
        &&& !c[i].finished()
        &&& a[i].primitive().triggered() ==> c[i].primitive().triggered()
    } by {
        assert(!b[i].finished());
    }
}

/// The last pass after some other pass keeps the finished waiters.
proof fn lemma_finished_kept_after<W: Waiter>(a: Seq<W>, b: Seq<W>, c: Seq<W>)
    requires
        pass_keeps(a, b),
        finished_kept(b, c),
    ensures
        finished_kept(a, c),
{
    assert forall|i: int| 0 <= i < a.len() && (#[trigger] a[i]).finished() implies c[i]
        == a[i] by {
        assert(b[i] == a[i]);
        assert(b[i].finished());
    }
}

/// The wait polls: it has started and some unfinished waiter refused to bind.
pub open spec fn polls<W: Waiter>(waiters: Seq<W>, wait: ListWait) -> bool {
    ||| wait.phase is Polling
    ||| wait.phase is Start && needs_polling(waiters)
}

/// The wait sleeps: it has started and every unfinished waiter is bound.
pub open spec fn sleeps<W: Waiter>(waiters: Seq<W>, wait: ListWait) -> bool {
    ||| wait.phase is Sleeping
    ||| wait.phase is Start && !needs_polling(waiters) && !all_finished(waiters)
}

/// What a step of a wait gives whatever the waiters do: the next phase by
/// the action, the waiters kept unfinished where the wait goes on, a return
/// as soon as an event has fired or the sleep object was signalled, and the
/// bounds of the count.
pub open spec fn step_gives<W: Waiter>(
    waiters: Seq<W>,
    wait: ListWait,
    after: Seq<W>,
    left: ListWait,
    action: WaitAction,
) -> bool {
    &&& action is Return <==> left.phase is Done
    &&& action is Nap <==> left.phase is Polling
    &&& action is Sleep <==> left.phase is Sleeping
    &&& action is Nap || action is Sleep ==> pass_keeps(waiters, after)
    &&& polls(waiters, wait) ==> {
        &&& !(action is Sleep)
        &&& any_triggered(waiters) ==> action is Return
        &&& action matches WaitAction::Return(Some(k)) ==> (one_stage::<W>() ==> k >= 1)
    }
    &&& sleeps(waiters, wait) ==> {
        &&& !(action is Nap)
        &&& wait.phase is Sleeping ==> (action is Return <==> wait.sleeper.is_pending())
        &&& wait.phase is Start ==> (any_triggered(waiters) ==> action is Return)
        &&& action matches WaitAction::Return(Some(k)) ==> (any_triggered(waiters)
            && one_stage::<W>() ==> k >= 1)
    }
    &&& !(wait.phase is Start && all_finished(waiters)) && !(wait.phase is Done) ==> (
    action matches WaitAction::Return(r) ==> (r matches Some(k) && k <= active_count(waiters)))
}

/// The lists, the states of the wait and the actions are those of one wait
/// on a list with an unfinished waiter: the wait starts, and every step
/// takes the list and the state on from where the step before has left
/// them.
pub open spec fn wait_run<W: Waiter>(
    lists: Seq<Seq<W>>,
    waits: Seq<ListWait>,
    actions: Seq<WaitAction>,
) -> bool {
    &&& lists.len() == actions.len() + 1
    &&& waits.len() == actions.len() + 1
    &&& waits[0].phase is Start
    &&& !all_finished(lists[0])
    &&& forall|i: int|
        0 <= i < actions.len() ==> step_gives(
            lists[i],
            waits[i],
            lists[i + 1],
            waits[i + 1],
            #[trigger] actions[i],
        )
}

/// While a wait goes on, its list keeps the waiters that were unfinished at
/// the start unfinished, and the wait polls or sleeps.
proof fn lemma_wait_goes_on<W: Waiter>(
    lists: Seq<Seq<W>>,
    waits: Seq<ListWait>,
    actions: Seq<WaitAction>,
    i: int,
)
    requires
        wait_run(lists, waits, actions),
        0 <= i <= actions.len(),
        forall|j: int| 0 <= j < i ==> !((#[trigger] actions[j]) is Return),
    ensures
        pass_keeps(lists[0], lists[i]),
        active_count(lists[i]) == active_count(lists[0]),
        !all_finished(lists[i]),
        polls(lists[i], waits[i]) || sleeps(lists[i], waits[i]),
    decreases i,
{
    if i == 0 {
        lemma_pass_keeps_count(lists[0], lists[0]);
    } else {
        lemma_wait_goes_on(lists, waits, actions, i - 1);
        let action = actions[i - 1];
        assert(step_gives(lists[i - 1], waits[i - 1], lists[i], waits[i], action));
        assert(!(action is Return));
        lemma_pass_keeps_twice(lists[0], lists[i - 1], lists[i]);
        lemma_pass_keeps_count(lists[0], lists[i]);
    }
}

/// A wait returns when an event fires: at the first step that finds an
/// unfinished waiter's event fired and, if the wait sleeps, the sleep
/// object signalled, the wait returns a count, which for waiters of one
/// stage is at least one, and is at most the number of waiters that were
/// unfinished at the start.
pub proof fn lemma_wait_returns_when_fired<W: Waiter>(
    lists: Seq<Seq<W>>,
    waits: Seq<ListWait>,
    actions: Seq<WaitAction>,
    i: int,
)
    requires
        wait_run(lists, waits, actions),
        0 <= i < actions.len(),
        forall|j: int| 0 <= j < i ==> !((#[trigger] actions[j]) is Return),
        any_triggered(lists[i]),
        waits[i].phase is Sleeping ==> waits[i].sleeper.is_pending(),
    ensures
        actions[i] matches WaitAction::Return(Some(k)) && k <= active_count(lists[0]) && (
        one_stage::<W>() ==> k >= 1),
{
    lemma_wait_goes_on(lists, waits, actions, i);
    let action = actions[i];
    assert(step_gives(lists[i], waits[i], lists[i + 1], waits[i + 1], action));
}

/// A trace of a step that went through nothing.
pub open spec fn no_trace<W: Waiter>() -> WaitTrace<W> {
    WaitTrace {
        met: Seq::empty(),
        left: Seq::empty(),
        bound: Seq::empty(),
        polled: Seq::empty(),
        fired: Seq::empty(),
        unbound: Seq::empty(),
        readied: Seq::empty(),
        ready: Seq::empty(),
    }
}

/// One step of a wait that polls: one pass of polls, and the end of the
/// wait if one of them found an event fired.
fn poll_step<W: Waiter>(waiters: &mut [W], wait: &mut ListWait) -> (stepped: (
    WaitAction,
    Ghost<WaitTrace<W>>,
))
    ensures
        finished_kept(old(waiters)@, final(waiters)@),
        poll_follows(old(waiters)@, stepped.1@, final(waiters)@, stepped.0),
        final(wait).sleeper == old(wait).sleeper,
        stepped.0 is Return <==> final(wait).phase is Done,
        stepped.0 is Nap <==> final(wait).phase is Polling,
        !(stepped.0 is Sleep),
        stepped.0 is Nap ==> pass_keeps(old(waiters)@, final(waiters)@) && !any_triggered(
            final(waiters)@,
        ),
        any_triggered(old(waiters)@) ==> stepped.0 is Return,
        stepped.0 matches WaitAction::Return(r) ==> (r matches Some(k) && k <= active_count(
            old(waiters)@,
        ) && (one_stage::<W>() ==> k >= 1)),
        stepped.0 is Return ==> exists|mid: Seq<W>| #[trigger]
            pass_keeps(old(waiters)@, mid) && any_triggered(mid),
{
    let ghost before = waiters@;
    let (fired, Ghost(found)) = poll_pass(waiters);
    let ghost polled = waiters@;
    if fired {
        let (action, Ghost(t)) = finish_wait(waiters, wait);
        let ghost full = WaitTrace { polled: polled, fired: found, ..t };
        proof {
            lemma_pass_keeps_count(before, polled);
            lemma_finished_kept_after(before, polled, waiters@);
            assert(pass_keeps(before, polled) && any_triggered(polled));
        }
        (action, Ghost(full))
    } else {
        wait.phase = WaitPhase::Polling;
        let ghost full = WaitTrace { polled: polled, fired: found, ..no_trace::<W>() };
        (WaitAction::Nap, Ghost(full))
    }
}

/// One step of a wait that sleeps: a wait on the sleep object, and the end
/// of the wait if a signal was pending.
fn sleep_step<W: Waiter>(waiters: &mut [W], wait: &mut ListWait) -> (stepped: (
    WaitAction,
    Ghost<WaitTrace<W>>,
))
    ensures
        finished_kept(old(waiters)@, final(waiters)@),
        sleep_follows(
            old(waiters)@,
            old(wait).sleeper,
            stepped.1@,
            final(waiters)@,
            final(wait).sleeper,
            stepped.0,
        ),
        stepped.0 is Return <==> final(wait).phase is Done,
        stepped.0 is Sleep <==> final(wait).phase is Sleeping,
        !(stepped.0 is Nap),
        stepped.0 is Return <==> old(wait).sleeper.is_pending(),
        stepped.0 is Sleep ==> {
            &&& final(waiters)@ == old(waiters)@
            &&& !final(wait).sleeper.is_pending()
            &&& final(wait).sleeper.has_sleeper()
        },
        stepped.0 matches WaitAction::Return(r) ==> (r matches Some(k) && k <= active_count(
            old(waiters)@,
        ) && (any_triggered(old(waiters)@) && one_stage::<W>() ==> k >= 1)),
{
    if wait.sleeper.wait() {
        finish_wait(waiters, wait)
    } else {
        wait.phase = WaitPhase::Sleeping;
        (WaitAction::Sleep, Ghost(no_trace::<W>()))
    }
}

/// One step of a wait on a list of waiters; the caller does what the
/// returned action says and calls again until the action is `Return`.
///
/// A wait that starts with every waiter finished returns `None` and touches
/// nothing. Otherwise the first call binds every unfinished waiter to a
/// fresh sleep object. If any of them refused, each call polls the
/// unfinished waiters once and asks for a nap while none has fired; if all
/// were bound, each call asks the caller to sleep until the sleep object has
/// been signalled. The wait ends by unbinding the waiters and running the
/// completions of those that are ready, and returns how many advanced.
///
/// The list must not be empty, and a timeout is not supported. A wait that
/// has returned its result returns `None` from then on.
///
/// `step_follows` says which calls the step has made on which waiter, in
/// the waiters' own accounts of these calls, and that the count is the
/// number of waiters of which `is_ready` and then `complete` reported true.
/// The clauses before it are what follows from the waiters' contracts: when
/// the step polls and when it sleeps, that it returns only when an event
/// has fired or the sleep object was signalled, and the bounds of the
/// count.
pub fn wait_on_list<W: Waiter>(
    waiters: &mut [W],
    timeout: Option<u64>,
    wait: &mut ListWait,
) -> (action: WaitAction)
    requires
        old(waiters)@.len() > 0,
        timeout is None,
    ensures
        finished_kept(old(waiters)@, final(waiters)@),
        action is Return <==> final(wait).phase is Done,
        action is Nap <==> final(wait).phase is Polling,
        action is Sleep <==> final(wait).phase is Sleeping,
        old(wait).phase is Start && all_finished(old(waiters)@) ==> {
            &&& action == WaitAction::Return(None)
            &&& final(waiters)@ == old(waiters)@
            &&& final(wait).sleeper == old(wait).sleeper
        },
        old(wait).phase is Done ==> {
            &&& action == WaitAction::Return(None)
            &&& final(waiters)@ == old(waiters)@
            &&& *final(wait) == *old(wait)
        },
        !(old(wait).phase is Start && all_finished(old(waiters)@)) && !(old(wait).phase is Done)
            ==> (action matches WaitAction::Return(r) ==> (r matches Some(k) && k
            <= active_count(old(waiters)@))),
        polls(old(waiters)@, *old(wait)) ==> {
            &&& !(action is Sleep)
            &&& action is Nap ==> pass_keeps(old(waiters)@, final(waiters)@) && !any_triggered(
                final(waiters)@,
            )
            &&& any_triggered(old(waiters)@) ==> action is Return
            &&& action matches WaitAction::Return(Some(k)) ==> (one_stage::<W>() ==> k >= 1)
        },
        sleeps(old(waiters)@, *old(wait)) ==> {
            &&& !(action is Nap)
            &&& action is Sleep ==> {
                &&& pass_keeps(old(waiters)@, final(waiters)@)
                &&& !final(wait).sleeper.is_pending()
                &&& final(wait).sleeper.has_sleeper()
            }
            &&& old(wait).phase is Sleeping ==> (action is Return
                <==> old(wait).sleeper.is_pending())
            &&& old(wait).phase is Start ==> {
                &&& any_triggered(old(waiters)@) ==> action is Return
                &&& action is Sleep ==> !any_triggered(final(waiters)@)
                &&& action matches WaitAction::Return(Some(k)) ==> (one_stage::<W>() ==> k >= 1)
            }
            &&& action matches WaitAction::Return(Some(k)) ==> (any_triggered(old(waiters)@)
                && one_stage::<W>() ==> k >= 1)
        },
        (old(wait).phase is Polling || (old(wait).phase is Start && !all_finished(
            old(waiters)@,
        ))) && action is Return ==> exists|mid: Seq<W>| #[trigger]
            pass_keeps(old(waiters)@, mid) && any_triggered(mid),
        exists|t: WaitTrace<W>| #[trigger]
            step_follows(old(waiters)@, *old(wait), t, final(waiters)@, *final(wait), action),
        step_gives(old(waiters)@, *old(wait), final(waiters)@, *final(wait), action),
{
    let ghost before = waiters@;
    let ghost entry = *wait;
    match wait.phase {
        WaitPhase::Start => {
            if count_incomplete(waiters) == 0 {
                wait.phase = WaitPhase::Done;
                assert(step_follows(
                    before,
                    entry,
                    no_trace::<W>(),
                    waiters@,
                    *wait,
                    WaitAction::Return(None),
                ));
                return WaitAction::Return(None);
            }
            wait.sleeper = SleepObject::new("wait_on_list");
            let (force_poll, Ghost(met), Ghost(left)) = bind_all(waiters, &mut wait.sleeper);
            let ghost bound = waiters@;
            let ghost after_bind = wait.sleeper;
            proof {
                lemma_pass_keeps_count(before, bound);
                lemma_pass_keeps_triggered(before, bound);
            }
            if force_poll {
                let (action, Ghost(t)) = poll_step(waiters, wait);
                let ghost full = WaitTrace { met: met, left: left, bound: bound, ..t };
                proof {
                    lemma_finished_kept_after(before, bound, waiters@);
                    if action is Nap {
                        lemma_pass_keeps_twice(before, bound, waiters@);
                    }
                    if action is Return {
                        let mid = choose|mid: Seq<W>| #[trigger]
                            pass_keeps(bound, mid) && any_triggered(mid);
                        lemma_pass_keeps_twice(before, bound, mid);
                        assert(pass_keeps(before, mid) && any_triggered(mid));
                    }
                    assert(poll_follows(bound, full, waiters@, action));
                    assert(step_follows(before, entry, full, waiters@, *wait, action));
                }
                action
            } else {
                let (action, Ghost(t)) = sleep_step(waiters, wait);
                let ghost full = WaitTrace { met: met, left: left, bound: bound, ..t };
                proof {
                    lemma_finished_kept_after(before, bound, waiters@);
                    if action is Return {
                        assert(pass_keeps(before, bound) && any_triggered(bound));
                    }
                    assert(sleep_follows(bound, after_bind, full, waiters@, wait.sleeper, action));
                    assert(step_follows(before, entry, full, waiters@, *wait, action));
                }
                action
            }
        },
        WaitPhase::Polling => {
            let (action, Ghost(t)) = poll_step(waiters, wait);
            proof {
                assert(step_follows(before, entry, t, waiters@, *wait, action));
            }
            action
        },
        WaitPhase::Sleeping => {
            let (action, Ghost(t)) = sleep_step(waiters, wait);
            proof {
                assert(step_follows(before, entry, t, waiters@, *wait, action));
            }
            action
        },
        WaitPhase::Done => {
            assert(step_follows(
                before,
                entry,
                no_trace::<W>(),
                waiters@,
                *wait,
                WaitAction::Return(None),
            ));
            WaitAction::Return(None)
        },
    }
}

} // verus!
