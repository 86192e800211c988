use kernel_core::interrupts::LINES;
use kernel_core::irqs::{
    bind_event, bind_object, handler_raw, init, irq_worker, timer_trigger, IrqHandler, Irqs,
    WorkerStep,
};

/// A handler that counts its calls and answers what it is told to.
struct Counting {
    calls: u32,
    keep: bool,
}

impl IrqHandler for Counting {
    fn handled(&self, after: &Self, keep: bool) -> bool {
        after.calls == self.calls + 1 && after.keep == self.keep && keep == self.keep
    }
    fn handle_irq(&mut self) -> bool {
        self.calls += 1;
        self.keep
    }
}

fn calls(irqs: &Irqs<Counting>, gsi: usize, index: usize) -> u32 {
    match &irqs.bindings.mapping[gsi] {
        Some(binding) => match &binding.handlers.value[index] {
            kernel_core::irqs::Handler::Object(h) => h.calls,
            kernel_core::irqs::Handler::Event(_) => panic!("not an object"),
        },
        None => panic!("no binding"),
    }
}

#[test]
fn new_fabric_is_empty() {
    let irqs: Irqs<Counting> = Irqs::new();
    assert_eq!(irqs.bindings.mapping.len(), LINES);
    assert!(irqs.bindings.mapping.iter().all(|b| b.is_none()));
    assert_eq!(irqs.bindings.next_index, 0);
    assert!(!irqs.timer_pending);
    assert!(irqs.worker.is_none());
}

#[test]
fn init_makes_the_worker_once() {
    let mut irqs: Irqs<Counting> = Irqs::new();
    assert!(init(&mut irqs));
    assert_eq!(irqs.worker.as_ref().unwrap().name, "IRQ Worker");
    assert!(!init(&mut irqs));
    assert_eq!(irqs.worker.as_ref().unwrap().name, "IRQ Worker");
}

#[test]
fn worker_sleeps_when_nothing_is_pending() {
    let mut irqs: Irqs<Counting> = Irqs::new();
    bind_object(&mut irqs, 0, 3, Counting { calls: 0, keep: true });
    assert!(matches!(irq_worker(&mut irqs, 0), WorkerStep::Sleep));
    assert_eq!(calls(&irqs, 3, 0), 0);
    // The interrupt finds the worker blocked and asks for it to be woken.
    assert!(handler_raw(&mut irqs, 3));
    assert!(matches!(irq_worker(&mut irqs, 0), WorkerStep::Continue));
    assert_eq!(calls(&irqs, 3, 0), 1);
    assert!(matches!(irq_worker(&mut irqs, 0), WorkerStep::Sleep));
    assert_eq!(calls(&irqs, 3, 0), 1);
}

#[test]
fn event_round_trip() {
    let mut irqs: Irqs<Counting> = Irqs::new();
    let event = bind_event(&mut irqs, 0, 5);
    assert!(!event.get_event(&irqs).is_triggered());
    // The line fires: the raw handler only marks the binding.
    assert!(!handler_raw(&mut irqs, 5));
    assert!(irqs.bindings.mapping[5].as_ref().unwrap().has_fired);
    assert!(!event.get_event(&irqs).is_triggered());
    // The worker's next turn triggers the flag.
    assert!(matches!(irq_worker(&mut irqs, 0), WorkerStep::Continue));
    assert!(event.get_event(&irqs).is_triggered());
    assert!(!irqs.bindings.mapping[5].as_ref().unwrap().has_fired);
}

#[test]
fn multi_handler_coalescing() {
    let mut irqs: Irqs<Counting> = Irqs::new();
    bind_object(&mut irqs, 0, 7, Counting { calls: 0, keep: true });
    bind_object(&mut irqs, 0, 7, Counting { calls: 0, keep: true });
    handler_raw(&mut irqs, 7);
    handler_raw(&mut irqs, 7);
    handler_raw(&mut irqs, 7);
    assert!(matches!(irq_worker(&mut irqs, 0), WorkerStep::Continue));
    let first = calls(&irqs, 7, 0);
    let second = calls(&irqs, 7, 1);
    assert!(first >= 1 && first <= 3);
    assert!(second >= 1 && second <= 3);
    // Three firings before one turn give one call each.
    assert_eq!(first, 1);
    assert_eq!(second, 1);
    assert!(matches!(irq_worker(&mut irqs, 0), WorkerStep::Sleep));
}

#[test]
fn only_fired_lines_are_served() {
    let mut irqs: Irqs<Counting> = Irqs::new();
    bind_object(&mut irqs, 0, 1, Counting { calls: 0, keep: true });
    bind_object(&mut irqs, 0, 2, Counting { calls: 0, keep: true });
    let quiet = bind_event(&mut irqs, 0, 1);
    let other = bind_event(&mut irqs, 0, 2);
    handler_raw(&mut irqs, 2);
    irq_worker(&mut irqs, 0);
    assert_eq!(calls(&irqs, 1, 0), 0);
    assert_eq!(calls(&irqs, 2, 0), 1);
    assert!(!quiet.get_event(&irqs).is_triggered());
    assert!(other.get_event(&irqs).is_triggered());
}

#[test]
fn handlers_run_in_the_order_of_registration_on_every_fired_line() {
    let mut irqs: Irqs<Counting> = Irqs::new();
    for gsi in [200u32, 0, 255, 17] {
        bind_object(&mut irqs, 1, gsi, Counting { calls: 0, keep: true });
    }
    for gsi in [0usize, 17, 200, 255] {
        handler_raw(&mut irqs, gsi);
    }
    assert!(matches!(irq_worker(&mut irqs, 1), WorkerStep::Continue));
    for gsi in [0usize, 17, 200, 255] {
        assert_eq!(calls(&irqs, gsi, 0), 1);
    }
}

#[test]
fn a_handler_that_asks_to_go_stays() {
    let mut irqs: Irqs<Counting> = Irqs::new();
    bind_object(&mut irqs, 0, 9, Counting { calls: 0, keep: false });
    handler_raw(&mut irqs, 9);
    irq_worker(&mut irqs, 0);
    handler_raw(&mut irqs, 9);
    irq_worker(&mut irqs, 0);
    assert_eq!(calls(&irqs, 9, 0), 2);
}

#[test]
fn timer_tick_goes_through_the_worker() {
    let mut irqs: Irqs<Counting> = Irqs::new();
    assert!(!timer_trigger(&mut irqs));
    assert!(irqs.timer_pending);
    assert!(matches!(irq_worker(&mut irqs, 0), WorkerStep::Tick));
    assert!(!irqs.timer_pending);
    assert!(matches!(irq_worker(&mut irqs, 0), WorkerStep::Sleep));
    // A tick together with a fired line: one turn serves both.
    bind_object(&mut irqs, 0, 4, Counting { calls: 0, keep: true });
    handler_raw(&mut irqs, 4);
    timer_trigger(&mut irqs);
    assert!(matches!(irq_worker(&mut irqs, 0), WorkerStep::Tick));
    assert_eq!(calls(&irqs, 4, 0), 1);
}

#[test]
fn registrations_are_numbered() {
    let mut irqs: Irqs<Counting> = Irqs::new();
    let a = bind_object(&mut irqs, 0, 10, Counting { calls: 0, keep: true });
    let b = bind_object(&mut irqs, 0, 11, Counting { calls: 0, keep: true });
    let c = bind_object(&mut irqs, 0, 10, Counting { calls: 0, keep: true });
    assert_eq!((a.0 .0, a.0 .1), (10, 0));
    assert_eq!((b.0 .0, b.0 .1), (11, 1));
    assert_eq!((c.0 .0, c.0 .1), (10, 2));
    assert_eq!(irqs.bindings.next_index, 3);
    assert_eq!(irqs.bindings.mapping[10].as_ref().unwrap().handlers.value.len(), 2);
    assert_eq!(irqs.bindings.mapping[11].as_ref().unwrap().handlers.value.len(), 1);
}

#[test]
fn first_handler_binds_the_line() {
    let mut irqs: Irqs<Counting> = Irqs::new();
    assert_eq!(irqs.lines.cookie(42), None);
    bind_object(&mut irqs, 0, 42, Counting { calls: 0, keep: true });
    assert_eq!(irqs.lines.cookie(42), Some(42));
    bind_object(&mut irqs, 0, 42, Counting { calls: 0, keep: true });
    assert_eq!(irqs.lines.cookie(42), Some(42));
    assert_eq!(irqs.lines.cookie(41), None);
}
