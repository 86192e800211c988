use kernel_core::flag::SingleFlag;
use kernel_core::threads::SleepObject;
use kernel_core::waiter::{
    wait_on_list, ListWait, PrimitiveWaiter, WaitAction, WaitPhase, WaitStep, Waiter,
};

/// A waiter that cannot be bound; its event is found fired by the poll after
/// `quiet` polls that find nothing.
struct PollAfter {
    quiet: u32,
    probes: u32,
    done: bool,
    completions: u32,
    unbinds: u32,
}

impl PollAfter {
    fn new(quiet: u32) -> Self {
        PollAfter { quiet, probes: 0, done: false, completions: 0, unbinds: 0 }
    }
}

impl PrimitiveWaiter for PollAfter {
    fn completed(&self) -> bool {
        self.done
    }
    fn triggered(&self) -> bool {
        self.probes > self.quiet && !self.done
    }
    fn poll_only(&self) -> bool {
        true
    }
    fn attached(
        &self,
        _sleeper: SleepObject,
        after: &Self,
        _left: SleepObject,
        bound: bool,
    ) -> bool {
        !bound && after.probes == self.probes && after.done == self.done
    }
    fn polled(&self, after: &Self, fired: bool) -> bool {
        after.probes == self.probes + 1 && after.done == self.done && fired == after.triggered()
    }
    fn completion_ran(&self, after: &Self) -> bool {
        after.done && after.probes == self.probes
    }
    fn unbound(&self, after: &Self) -> bool {
        after.done == self.done && after.probes == self.probes
    }
    fn is_complete(&self) -> bool {
        self.done
    }
    fn poll(&mut self) -> bool {
        self.probes += 1;
        self.probes > self.quiet && !self.done
    }
    fn run_completion(&mut self) {
        self.completions += 1;
        self.done = true;
    }
    fn bind_signal(&mut self, _sleeper: &mut SleepObject) -> bool {
        false
    }
    fn unbind_signal(&mut self) {
        self.unbinds += 1;
    }
}

/// A waiter that binds to the sleeper; the test fires it by hand.
struct Bindable {
    fired: bool,
    done: bool,
    bound: bool,
    binds: u32,
    unbinds: u32,
    polls: u32,
}

impl Bindable {
    fn new(fired: bool) -> Self {
        Bindable { fired, done: false, bound: false, binds: 0, unbinds: 0, polls: 0 }
    }
}

impl PrimitiveWaiter for Bindable {
    fn completed(&self) -> bool {
        self.done
    }
    fn triggered(&self) -> bool {
        self.fired && !self.done
    }
    fn poll_only(&self) -> bool {
        false
    }
    fn attached(
        &self,
        _sleeper: SleepObject,
        after: &Self,
        left: SleepObject,
        bound: bool,
    ) -> bool {
        bound && after.bound && after.binds == self.binds + 1
            && (left.signal_pending() || !(self.fired && !self.done))
    }
    fn polled(&self, after: &Self, fired: bool) -> bool {
        after.polls == self.polls + 1 && fired == (self.fired && !self.done)
    }
    fn completion_ran(&self, after: &Self) -> bool {
        after.done && after.fired == self.fired
    }
    fn unbound(&self, after: &Self) -> bool {
        !after.bound && after.unbinds == self.unbinds + 1
    }
    fn is_complete(&self) -> bool {
        self.done
    }
    fn poll(&mut self) -> bool {
        self.polls += 1;
        self.fired && !self.done
    }
    fn run_completion(&mut self) {
        self.done = true;
    }
    fn bind_signal(&mut self, sleeper: &mut SleepObject) -> bool {
        self.binds += 1;
        self.bound = true;
        if self.fired && !self.done {
            sleeper.signal();
        }
        true
    }
    fn unbind_signal(&mut self) {
        self.unbinds += 1;
        self.bound = false;
    }
}

/// A waiter of two stages, each a bindable primitive.
struct TwoStage {
    stage: u32,
    first: Bindable,
    second: Bindable,
}

impl Waiter for TwoStage {
    type Primitive = Bindable;

    fn finished(&self) -> bool {
        self.stage >= 2
    }
    fn primitive(&self) -> Bindable {
        panic!("for contracts only")
    }
    fn completes(&self) -> bool {
        self.stage >= 1
    }
    fn moved_on(&self, after: &Self) -> bool {
        after.stage == self.stage + 1
    }
    fn is_complete(&self) -> bool {
        self.stage >= 2
    }
    fn get_waiter(&mut self) -> &mut Bindable {
        if self.stage == 0 {
            &mut self.first
        } else {
            &mut self.second
        }
    }
    fn complete(&mut self) -> bool {
        self.stage += 1;
        self.stage >= 2
    }
}

fn drive<W: Waiter>(waiters: &mut [W], wait: &mut ListWait) -> (Option<usize>, u32) {
    let mut naps = 0;
    loop {
        match wait_on_list(waiters, None, wait) {
            WaitAction::Return(r) => return (r, naps),
            WaitAction::Nap => naps += 1,
            WaitAction::Sleep => panic!("nothing would wake this wait"),
        }
    }
}

#[test]
fn poll_only_waiter() {
    let mut waiters = vec![PollAfter::new(50)];
    let mut wait = ListWait::new();
    let (result, naps) = drive(waiters.as_mut_slice(), &mut wait);
    assert_eq!(result, Some(1));
    assert!(naps >= 50);
    assert!(waiters[0].probes >= 50);
    assert!(waiters[0].done);
    assert_eq!(waiters[0].completions, 1);
    assert_eq!(waiters[0].unbinds, 1);
    assert!(matches!(wait.phase, WaitPhase::Done));
}

#[test]
fn all_complete_returns_none_and_touches_nothing() {
    let mut done = Bindable::new(true);
    done.done = true;
    let mut waiters = vec![done];
    let mut wait = ListWait::new();
    assert!(matches!(
        wait_on_list(waiters.as_mut_slice(), None, &mut wait),
        WaitAction::Return(None)
    ));
    assert_eq!(waiters[0].binds, 0);
    assert_eq!(waiters[0].polls, 0);
    assert_eq!(waiters[0].unbinds, 0);
    assert!(matches!(wait.phase, WaitPhase::Done));
}

#[test]
fn bound_waiters_are_slept_on() {
    let mut waiters = vec![Bindable::new(false), Bindable::new(false)];
    let mut wait = ListWait::new();
    assert!(matches!(wait_on_list(waiters.as_mut_slice(), None, &mut wait), WaitAction::Sleep));
    assert!(matches!(wait.phase, WaitPhase::Sleeping));
    assert!(waiters[0].bound && waiters[1].bound);
    assert_eq!(waiters[0].polls + waiters[1].polls, 0);
    // Not signalled: the wait goes back to sleep.
    assert!(matches!(wait_on_list(waiters.as_mut_slice(), None, &mut wait), WaitAction::Sleep));
    assert_eq!(waiters[0].binds, 1);
    // The second waiter's event fires and signals the sleeper.
    waiters[1].fired = true;
    assert!(wait.sleeper.signal());
    assert!(matches!(
        wait_on_list(waiters.as_mut_slice(), None, &mut wait),
        WaitAction::Return(Some(1))
    ));
    assert!(!waiters[0].bound && !waiters[1].bound);
    assert_eq!((waiters[0].unbinds, waiters[1].unbinds), (1, 1));
    assert!(!waiters[0].done);
    assert!(waiters[1].done);
}

#[test]
fn waiter_ready_at_bind_time_does_not_sleep() {
    let mut waiters = vec![Bindable::new(false), Bindable::new(true), Bindable::new(true)];
    let mut wait = ListWait::new();
    assert!(matches!(
        wait_on_list(waiters.as_mut_slice(), None, &mut wait),
        WaitAction::Return(Some(2))
    ));
    assert!(!waiters[0].done && waiters[1].done && waiters[2].done);
    assert_eq!(waiters[0].binds, 1);
    assert_eq!(waiters[0].unbinds, 1);
}

#[test]
fn spurious_wake_advances_nothing() {
    let mut waiters = vec![Bindable::new(false)];
    let mut wait = ListWait::new();
    assert!(matches!(wait_on_list(waiters.as_mut_slice(), None, &mut wait), WaitAction::Sleep));
    wait.sleeper.signal();
    assert!(matches!(
        wait_on_list(waiters.as_mut_slice(), None, &mut wait),
        WaitAction::Return(Some(0))
    ));
    assert!(!waiters[0].done);
}

#[test]
fn complete_waiters_are_skipped() {
    let mut done = PollAfter::new(0);
    done.done = true;
    let mut waiters = vec![done, PollAfter::new(2)];
    let mut wait = ListWait::new();
    let (result, naps) = drive(waiters.as_mut_slice(), &mut wait);
    assert_eq!(result, Some(1));
    assert_eq!(naps, 2);
    assert_eq!(waiters[0].probes, 0);
    // Three polls in the passes and one more when the completion is run.
    assert_eq!(waiters[1].probes, 4);
}

#[test]
fn polling_stops_at_the_first_waiter_that_fired() {
    let mut waiters = vec![PollAfter::new(1), PollAfter::new(0), PollAfter::new(0)];
    let mut wait = ListWait::new();
    let (result, naps) = drive(waiters.as_mut_slice(), &mut wait);
    // The first pass stops at the second waiter; the third is polled only
    // when the completions are run, where it is ready as well.
    assert_eq!(naps, 0);
    assert_eq!(result, Some(3));
    assert_eq!(waiters[0].probes, 2);
    assert_eq!(waiters[1].probes, 2);
    assert_eq!(waiters[2].probes, 1);
}

#[test]
fn one_refusal_makes_the_whole_list_polled() {
    struct Either {
        pollable: Option<PollAfter>,
        bindable: Option<Bindable>,
    }
    impl PrimitiveWaiter for Either {
        fn completed(&self) -> bool {
            PrimitiveWaiter::is_complete(self)
        }
        fn triggered(&self) -> bool {
            match (&self.pollable, &self.bindable) {
                (Some(p), _) => p.triggered(),
                (_, Some(b)) => b.triggered(),
                _ => false,
            }
        }
        fn poll_only(&self) -> bool {
            self.pollable.is_some()
        }
        fn attached(
            &self,
            sleeper: SleepObject,
            after: &Self,
            left: SleepObject,
            bound: bool,
        ) -> bool {
            match (&self.pollable, &self.bindable, &after.pollable, &after.bindable) {
                (Some(p), _, Some(q), _) => p.attached(sleeper, q, left, bound),
                (_, Some(b), _, Some(c)) => b.attached(sleeper, c, left, bound),
                _ => bound,
            }
        }
        fn polled(&self, after: &Self, fired: bool) -> bool {
            match (&self.pollable, &self.bindable, &after.pollable, &after.bindable) {
                (Some(p), _, Some(q), _) => p.polled(q, fired),
                (_, Some(b), _, Some(c)) => b.polled(c, fired),
                _ => !fired,
            }
        }
        fn completion_ran(&self, after: &Self) -> bool {
            match (&self.pollable, &self.bindable, &after.pollable, &after.bindable) {
                (Some(p), _, Some(q), _) => p.completion_ran(q),
                (_, Some(b), _, Some(c)) => b.completion_ran(c),
                _ => true,
            }
        }
        fn unbound(&self, after: &Self) -> bool {
            match (&self.pollable, &self.bindable, &after.pollable, &after.bindable) {
                (Some(p), _, Some(q), _) => p.unbound(q),
                (_, Some(b), _, Some(c)) => b.unbound(c),
                _ => true,
            }
        }
        fn is_complete(&self) -> bool {
            match (&self.pollable, &self.bindable) {
                (Some(p), _) => p.done,
                (_, Some(b)) => b.done,
                _ => true,
            }
        }
        fn poll(&mut self) -> bool {
            match (&mut self.pollable, &mut self.bindable) {
                (Some(p), _) => p.poll(),
                (_, Some(b)) => b.poll(),
                _ => false,
            }
        }
        fn run_completion(&mut self) {
            match (&mut self.pollable, &mut self.bindable) {
                (Some(p), _) => p.run_completion(),
                (_, Some(b)) => b.run_completion(),
                _ => {}
            }
        }
        fn bind_signal(&mut self, sleeper: &mut SleepObject) -> bool {
            match (&mut self.pollable, &mut self.bindable) {
                (Some(p), _) => p.bind_signal(sleeper),
                (_, Some(b)) => b.bind_signal(sleeper),
                _ => true,
            }
        }
        fn unbind_signal(&mut self) {
            match (&mut self.pollable, &mut self.bindable) {
                (Some(p), _) => p.unbind_signal(),
                (_, Some(b)) => b.unbind_signal(),
                _ => {}
            }
        }
    }
    let mut waiters = vec![
        Either { pollable: None, bindable: Some(Bindable::new(false)) },
        Either { pollable: Some(PollAfter::new(3)), bindable: None },
    ];
    let mut wait = ListWait::new();
    let (result, naps) = drive(waiters.as_mut_slice(), &mut wait);
    assert_eq!(result, Some(1));
    assert_eq!(naps, 3);
    let bound = waiters[0].bindable.as_ref().unwrap();
    // The bindable waiter was bound all the same, polled on every pass, and
    // unbound at the end.
    assert_eq!(bound.binds, 1);
    assert_eq!(bound.unbinds, 1);
    assert_eq!(bound.polls, 5);
    assert!(!bound.done);
}

#[test]
fn multi_stage_waiter_counts_only_when_it_completes() {
    let mut waiters =
        vec![TwoStage { stage: 0, first: Bindable::new(true), second: Bindable::new(true) }];
    let mut wait = ListWait::new();
    // The first stage is ready, but the waiter as a whole has not advanced
    // for good.
    assert!(matches!(
        wait_on_list(waiters.as_mut_slice(), None, &mut wait),
        WaitAction::Return(Some(0))
    ));
    assert_eq!(waiters[0].stage, 1);
    let mut wait = ListWait::new();
    assert!(matches!(
        wait_on_list(waiters.as_mut_slice(), None, &mut wait),
        WaitAction::Return(Some(1))
    ));
    assert_eq!(waiters[0].stage, 2);
    let mut wait = ListWait::new();
    assert!(matches!(
        wait_on_list(waiters.as_mut_slice(), None, &mut wait),
        WaitAction::Return(None)
    ));
}

#[test]
fn is_ready_runs_the_completion_only_when_fired() {
    let mut w = PollAfter::new(1);
    assert!(!PrimitiveWaiter::is_ready(&mut w));
    assert!(!w.done);
    assert_eq!(w.probes, 1);
    assert!(PrimitiveWaiter::is_ready(&mut w));
    assert!(w.done);
    assert_eq!(w.probes, 2);
}

#[test]
fn is_ready_on_a_flag() {
    let mut flag = SingleFlag::new();
    assert!(!PrimitiveWaiter::is_ready(&mut flag));
    assert!(!PrimitiveWaiter::is_complete(&flag));
    flag.trigger();
    assert!(PrimitiveWaiter::is_ready(&mut flag));
    assert!(PrimitiveWaiter::is_complete(&flag));
    // The completion has run: the event is consumed.
    assert!(!PrimitiveWaiter::is_ready(&mut flag));
}

#[test]
fn primitive_is_a_one_stage_waiter() {
    let mut w = Bindable::new(false);
    assert!(!Waiter::is_complete(&w));
    assert!(Waiter::complete(&mut w));
    Waiter::get_waiter(&mut w).fired = true;
    assert!(w.fired);
    w.done = true;
    assert!(Waiter::is_complete(&w));
}

#[test]
fn single_wait_on_a_bound_primitive() {
    let mut w = Bindable::new(false);
    let mut wait = ListWait::new();
    assert!(matches!(Waiter::wait(&mut w, &mut wait), WaitStep::Sleep));
    assert!(w.bound);
    assert!(matches!(Waiter::wait(&mut w, &mut wait), WaitStep::Sleep));
    w.fired = true;
    wait.sleeper.signal();
    assert!(matches!(Waiter::wait(&mut w, &mut wait), WaitStep::Done));
    assert!(w.done && !w.bound);
    assert!(matches!(Waiter::wait(&mut w, &mut wait), WaitStep::Done));
}

#[test]
fn single_wait_polls_a_waiter_that_refuses() {
    let mut w = PollAfter::new(3);
    let mut wait = ListWait::new();
    let mut naps = 0;
    loop {
        match Waiter::wait(&mut w, &mut wait) {
            WaitStep::Done => break,
            WaitStep::Nap => naps += 1,
            WaitStep::Again => {}
            WaitStep::Sleep => panic!("a poll-only waiter must not be slept on"),
        }
    }
    assert_eq!(naps, 3);
    assert!(w.done);
}

#[test]
fn single_wait_goes_through_the_stages() {
    let mut w = TwoStage { stage: 0, first: Bindable::new(true), second: Bindable::new(false) };
    let mut wait = ListWait::new();
    // The first stage is ready at bind time.
    assert!(matches!(Waiter::wait(&mut w, &mut wait), WaitStep::Again));
    assert_eq!(w.stage, 1);
    // The second is not: the caller sleeps.
    assert!(matches!(Waiter::wait(&mut w, &mut wait), WaitStep::Sleep));
    w.second.fired = true;
    wait.sleeper.signal();
    assert!(matches!(Waiter::wait(&mut w, &mut wait), WaitStep::Done));
    assert_eq!(w.stage, 2);
}

#[test]
fn spurious_wake_in_a_single_wait_starts_the_stage_again() {
    let mut w = Bindable::new(false);
    let mut wait = ListWait::new();
    assert!(matches!(Waiter::wait(&mut w, &mut wait), WaitStep::Sleep));
    wait.sleeper.signal();
    assert!(matches!(Waiter::wait(&mut w, &mut wait), WaitStep::Again));
    assert!(!w.done);
    assert!(matches!(Waiter::wait(&mut w, &mut wait), WaitStep::Sleep));
    assert_eq!(w.binds, 2);
}

#[test]
fn flag_is_a_waiter_that_is_polled() {
    let mut flags = vec![SingleFlag::new(), SingleFlag::new()];
    let mut wait = ListWait::new();
    assert!(matches!(wait_on_list(flags.as_mut_slice(), None, &mut wait), WaitAction::Nap));
    assert!(matches!(wait_on_list(flags.as_mut_slice(), None, &mut wait), WaitAction::Nap));
    flags[1].trigger();
    assert!(matches!(
        wait_on_list(flags.as_mut_slice(), None, &mut wait),
        WaitAction::Return(Some(1))
    ));
    assert!(!PrimitiveWaiter::is_complete(&flags[0]));
    assert!(PrimitiveWaiter::is_complete(&flags[1]));
    assert!(flags[1].is_triggered());
}

#[test]
fn flag_latches() {
    let mut flag = SingleFlag::new();
    assert!(!flag.is_triggered());
    assert!(!flag.poll());
    flag.trigger();
    assert!(flag.is_triggered());
    flag.trigger();
    assert!(flag.is_triggered());
    assert!(flag.poll());
    assert!(flag.poll());
    let mut sleeper = SleepObject::new("unused");
    assert!(!flag.bind_signal(&mut sleeper));
    assert!(!sleeper.signal_pending());
    flag.run_completion();
    assert!(PrimitiveWaiter::is_complete(&flag));
    assert!(flag.is_triggered());
    assert!(!flag.poll());
}

#[test]
fn finished_wait_returns_none_and_touches_nothing() {
    let mut waiters = vec![PollAfter::new(0)];
    let mut wait = ListWait::new();
    assert!(matches!(
        wait_on_list(waiters.as_mut_slice(), None, &mut wait),
        WaitAction::Return(Some(1))
    ));
    let probes = waiters[0].probes;
    waiters[0].done = false;
    assert!(matches!(
        wait_on_list(waiters.as_mut_slice(), None, &mut wait),
        WaitAction::Return(None)
    ));
    assert_eq!(waiters[0].probes, probes);
    assert!(matches!(wait.phase, WaitPhase::Done));
}

#[test]
fn a_wait_returns_at_the_step_that_finds_an_event_fired() {
    let mut done = PollAfter::new(0);
    done.done = true;
    let mut waiters = vec![PollAfter::new(3), done, PollAfter::new(5)];
    let mut wait = ListWait::new();
    let mut steps = 0;
    let count = loop {
        let fired_before = waiters.iter().any(|w| !w.done && w.probes > w.quiet);
        steps += 1;
        match wait_on_list(waiters.as_mut_slice(), None, &mut wait) {
            WaitAction::Return(r) => break r,
            WaitAction::Nap => assert!(!fired_before),
            WaitAction::Sleep => panic!("a list that is polled does not sleep"),
        }
    };
    // Three passes find nothing, the fourth finds the first waiter's event.
    assert_eq!(steps, 4);
    assert_eq!(count, Some(1));
    assert!(waiters[0].done && !waiters[2].done);
}
