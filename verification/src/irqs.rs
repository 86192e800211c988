//! The interrupt fabric: one binding for each interrupt line in use, a list
//! of handlers on each binding, and the worker that runs them.
//!
//! The machine's handler for a line only marks the binding as fired and
//! signals the worker. The worker, when it wakes, runs the handlers of every
//! fired binding, and tells its caller whether the timer has ticked.
use vstd::prelude::*;
use crate::flag::SingleFlag;
use crate::flag::lemma_set_flag;
use crate::grc::AtomicCounter;
use crate::grc::Grc;
use crate::grc::GrcHeap;
use crate::interrupts::bind_gsi;
use crate::interrupts::Cookie;
use crate::interrupts::IRQHandle;
use crate::interrupts::InterruptTable;
use crate::interrupts::LINES;
use crate::sync::Spinlock;
use crate::threads::SleepObject;
use crate::threads::lemma_sleep_steps;

verus! {

/// Something to call when an interrupt line has fired.
///
/// `handled` is the handler's own account of what one call may do to it and
/// return; the fabric promises to make the calls, and says of each handler
/// it has called that `handled` holds between its states before and after.
pub trait IrqHandler: Sized {
    /// One call can take the handler from this state to `after` and return
    /// `keep`.
    spec fn handled(&self, after: &Self, keep: bool) -> bool;

    /// Handles one firing of the line. False asks for the handler to be
    /// taken off the line; the fabric does not act on it.
    fn handle_irq(&mut self) -> (keep: bool)
        ensures
            old(self).handled(final(self), keep),
    ;
}

/// A shared event flag.
pub type EventRef = Grc<AtomicCounter, SingleFlag>;

/// The heap of the event flags.
pub type EventHeap = GrcHeap<AtomicCounter, SingleFlag>;

/// A handler on a line: one that triggers an event flag, or an object of
/// the caller's.
pub enum Handler<H> {
    Event(EventRef),
    Object(H),
}

/// The registration of one handler: the line, and the number of the
/// registration among all that were made.
pub struct BindingHandle(pub u32, pub u32);

/// The handle of an event bound to a line: the registration, and a handle
/// of the flag that the line's firing triggers.
pub struct EventHandle {
    _binding: BindingHandle,
    event: EventRef,
}

/// The handle of an object bound to a line.
pub struct ObjectHandle(pub BindingHandle);

/// The record of one line: whether it has fired since the worker last
/// looked, and its handlers.
pub struct IRQBinding<H> {
    pub arch_handle: IRQHandle,
    pub has_fired: bool,
    pub handlers: Spinlock<Vec<Handler<H>>>,
}

/// The bindings by line, and the number of the next registration.
pub struct Bindings<H> {
    pub mapping: Vec<Option<Box<IRQBinding<H>>>>,
    pub next_index: usize,
}

/// The thread that runs the handlers.
pub struct WorkerThread {
    pub name: &'static str,
}

/// The whole state of the fabric.
pub struct Irqs<H> {
    pub bindings: Bindings<H>,
    pub lines: InterruptTable,
    pub worker_signal: SleepObject,
    pub timer_pending: bool,
    pub worker: Option<WorkerThread>,
    pub events: EventHeap,
}

/// What the worker's caller has to do after a call of `irq_worker`.
pub enum WorkerStep {
    /// Nothing is pending: block on the worker's signal and call again.
    Sleep,
    /// The fired bindings have been served: call again.
    Continue,
    /// As `Continue`, and the timer has ticked: advance the clock first.
    Tick,
}

impl<H: IrqHandler> Irqs<H> {
    /// Line `gsi` has a binding.
    pub open spec fn bound(&self, gsi: int) -> bool {
        0 <= gsi < LINES && self.bindings.mapping@[gsi] is Some
    }

    /// The binding of line `gsi`.
    pub open spec fn binding(&self, gsi: int) -> IRQBinding<H> {
        *self.bindings.mapping@[gsi]->0
    }

    /// Line `gsi` has fired and the worker has not served it yet.
    pub open spec fn fired(&self, gsi: int) -> bool {
        self.binding(gsi).has_fired
    }

    /// The handlers on line `gsi`, in the order of their registration.
    pub open spec fn handlers(&self, gsi: int) -> Seq<Handler<H>> {
        self.binding(gsi).handlers.value@
    }

    /// The fabric is in order: the machine's lines are bound for just the
    /// lines that have a binding, no handler list is locked, and the flag of
    /// every event handler is alive.
    pub open spec fn wf(&self) -> bool {
        &&& self.lines.wf()
        &&& self.events.wf()
        &&& self.bindings.mapping@.len() == LINES
        &&& forall|gsi: int|
            0 <= gsi < LINES ==> (#[trigger] self.bound(gsi) <==> self.lines@[gsi] is Some)
        &&& forall|gsi: int| #[trigger]
            self.bound(gsi) ==> {
                &&& self.lines@[gsi] == Some(gsi as Cookie)
                &&& self.binding(gsi).arch_handle.line() == Some(gsi as usize)
                &&& !self.binding(gsi).handlers.inner.is_held()
                &&& forall|j: int|
                    0 <= j < self.handlers(gsi).len() ==> (#[trigger] self.handlers(
                        gsi,
                    )[j] matches Handler::Event(flag) ==> self.events.live(flag.slot()))
            }
    }

    /// A fabric without bindings, whose worker has not been made.
    pub fn new() -> (irqs: Irqs<H>)
        ensures
            irqs.wf(),
            forall|gsi: int| !irqs.bound(gsi),
            irqs.bindings.next_index == 0,
            !irqs.timer_pending,
            irqs.worker is None,
            !irqs.worker_signal.is_pending(),
            !irqs.worker_signal.has_sleeper(),
            irqs.events.slots() == 0,
    {
        let mut mapping: Vec<Option<Box<IRQBinding<H>>>> = Vec::new();
        let mut i: usize = 0;
        while i < LINES
            invariant
                i <= LINES,
                mapping@.len() == i,
                forall|gsi: int| 0 <= gsi < i ==> mapping@[gsi] is None,
            decreases LINES - i,
        {
            mapping.push(None);
            i = i + 1;
        }
        Irqs {
            bindings: Bindings { mapping, next_index: 0 },
            lines: InterruptTable::new(),
            worker_signal: SleepObject::new("IRQ Worker"),
            timer_pending: false,
            worker: None,
            events: GrcHeap::new(),
        }
    }
}

impl<H: IrqHandler> IRQBinding<H> {
    /// The binding of line `num`, new: not fired, without handlers, and
    /// bound in the machine's table with the line's number as its cookie.
    /// The line has to exist and be free there.
    pub fn new_boxed(num: u32, lines: &mut InterruptTable) -> (binding: Box<IRQBinding<H>>)
        requires
            old(lines).wf(),
            num < LINES,
            old(lines)@[num as int] is None,
        ensures
            final(lines).wf(),
            final(lines)@ == old(lines)@.update(num as int, Some(num as Cookie)),
            binding.arch_handle.line() == Some(num as usize),
            !binding.has_fired,
            !binding.handlers.inner.is_held(),
            binding.handlers.value@.len() == 0,
    {
        let mut rv = Box::new(
            IRQBinding {
                arch_handle: IRQHandle::unbound(),
                has_fired: false,
                handlers: Spinlock::new(Vec::new()),
            },
        );
        match bind_gsi(lines, num as usize, num as usize) {
            Ok(v) => {
                rv.arch_handle = v;
            },
            Err(_) => {},
        }
        rv
    }

    /// What the machine's handler does for a line that has fired: marks the
    /// binding and signals the worker. Returns true if the worker is
    /// blocked and has to be woken.
    pub fn handle(&mut self, worker_signal: &mut SleepObject) -> (wake: bool)
        ensures
            final(self).has_fired,
            final(self).arch_handle == old(self).arch_handle,
            final(self).handlers == old(self).handlers,
            *final(worker_signal) == old(worker_signal).signalled(),
            final(worker_signal).is_pending(),
            wake == old(worker_signal).has_sleeper(),
    {
        self.has_fired = true;
        worker_signal.signal()
    }
}

/// The fabrics agree on everything but the binding of line `gsi`, the
/// number of the next registration and the event flags.
pub open spec fn same_but_line<H: IrqHandler>(before: Irqs<H>, after: Irqs<H>, gsi: int) -> bool {
    &&& after.bindings.mapping@.len() == before.bindings.mapping@.len()
    &&& forall|other: int|
        0 <= other < LINES && other != gsi ==> #[trigger] after.bindings.mapping@[other]
            == before.bindings.mapping@[other]
    &&& forall|other: int|
        0 <= other < LINES && other != gsi ==> #[trigger] after.lines@[other]
            == before.lines@[other]
    &&& after.lines@.len() == before.lines@.len()
    &&& after.worker_signal == before.worker_signal
    &&& after.timer_pending == before.timer_pending
    &&& after.worker == before.worker
}

/// The fabric after `obj` has been registered on line `gsi`: the handler is
/// the last of the line's handlers, and a line without a binding has got
/// one that has not fired.
pub open spec fn registered<H>(irqs: IrqsView<H>, gsi: int, obj: Handler<H>) -> IrqsView<H> {
    IrqsView {
        lines: irqs.lines.update(
            gsi,
            Some(
                match irqs.lines[gsi] {
                    Some(line) => LineView { fired: line.fired, handlers: line.handlers.push(obj) },
                    None => LineView { fired: false, handlers: seq![obj] },
                },
            ),
        ),
        next_index: irqs.next_index + 1,
        ..irqs
    }
}

/// The number that a registration carries: the count of registrations
/// before it, cut to 32 bits.
pub open spec fn registration_number(count: usize) -> u32 {
    (count as int % 0x1_0000_0000) as u32
}

/// Puts `obj` at the end of the handlers of line `num`, making the line's
/// binding if this is its first handler, and numbers the registration.
fn bind<H: IrqHandler>(irqs: &mut Irqs<H>, cpu: u32, num: u32, obj: Handler<H>) -> (handle:
    BindingHandle)
    requires
        old(irqs).wf(),
        num < LINES,
        old(irqs).bindings.next_index < usize::MAX,
        obj matches Handler::Event(flag) ==> old(irqs).events.live(flag.slot()),
    ensures
        final(irqs).wf(),
        handle.0 == num,
        handle.1 == registration_number(old(irqs).bindings.next_index),
        final(irqs).bindings.next_index == old(irqs).bindings.next_index + 1,
        same_but_line(*old(irqs), *final(irqs), num as int),
        final(irqs).events == old(irqs).events,
        final(irqs).bound(num as int),
        final(irqs).handlers(num as int) == if old(irqs).bound(num as int) {
            old(irqs).handlers(num as int).push(obj)
        } else {
            seq![obj]
        },
        final(irqs).fired(num as int) == (old(irqs).bound(num as int) && old(irqs).fired(
            num as int,
        )),
        final(irqs)@ == registered(old(irqs)@, num as int, obj),
{
    let index = irqs.bindings.next_index;
    irqs.bindings.next_index = index + 1;
    let slot = num as usize;
    assert(irqs.bound(slot as int) == old(irqs).bound(slot as int));
    if irqs.bindings.mapping[slot].is_none() {
        let fresh = IRQBinding::new_boxed(num, &mut irqs.lines);
        irqs.bindings.mapping.set(slot, Some(fresh));
    }
    match &mut irqs.bindings.mapping[slot] {
        Some(binding) => {
            let list = binding.handlers.lock(cpu);
            list.push(obj);
            binding.handlers.release();
        },
        None => {},
    }
    proof {
        assert forall|gsi: int| 0 <= gsi < LINES implies (#[trigger] irqs.bound(gsi)
            <==> irqs.lines@[gsi] is Some) by {
            if gsi != num {
                assert(old(irqs).bound(gsi) <==> old(irqs).lines@[gsi] is Some);
            }
        }
        assert forall|gsi: int| #[trigger] irqs.bound(gsi) implies {
            &&& irqs.lines@[gsi] == Some(gsi as Cookie)
            &&& irqs.binding(gsi).arch_handle.line() == Some(gsi as usize)
            &&& !irqs.binding(gsi).handlers.inner.is_held()
            &&& forall|j: int|
                0 <= j < irqs.handlers(gsi).len() ==> (#[trigger] irqs.handlers(
                    gsi,
                )[j] matches Handler::Event(flag) ==> irqs.events.live(flag.slot()))
        } by {
            if gsi != num {
                assert(old(irqs).bound(gsi));
            }
            assert forall|j: int| 0 <= j < irqs.handlers(gsi).len() implies (#[trigger] irqs.handlers(
                gsi,
            )[j] matches Handler::Event(flag) ==> irqs.events.live(flag.slot())) by {
                if gsi != num {
                    assert(irqs.handlers(gsi)[j] == old(irqs).handlers(gsi)[j]);
                } else if old(irqs).bound(gsi) && j < old(irqs).handlers(gsi).len() {
                    assert(irqs.handlers(gsi)[j] == old(irqs).handlers(gsi)[j]);
                } else {
                    assert(irqs.handlers(gsi)[j] == obj);
                }
            }
        }
    }
    proof {
        let want = registered(old(irqs)@, num as int, obj);
        assert forall|gsi: int| 0 <= gsi < LINES implies irqs@.lines[gsi] == want.lines[gsi] by {
            if gsi != num {
                assert(irqs.bindings.mapping@[gsi] == old(irqs).bindings.mapping@[gsi]);
            } else {
                if old(irqs).bound(gsi) {
                    assert(irqs.fired(gsi) == old(irqs).fired(gsi));
                } else {
                    assert(irqs.handlers(gsi) =~= seq![obj]);
                }
            }
        }
        assert(irqs@.lines =~= want.lines);
    }
    assert(index as u32 == registration_number(index)) by (bit_vector)
        requires
            index <= 0xFFFF_FFFF_FFFF_FFFF,
    ;
    BindingHandle(num, #[verifier::truncate] (index as u32))
}

/// What the fabric knows of one line.
pub struct LineView<H> {
    /// The line has fired and the worker has not served it yet.
    pub fired: bool,
    /// The handlers, in the order of their registration.
    pub handlers: Seq<Handler<H>>,
}

/// The fabric as its callers see it.
pub struct IrqsView<H> {
    /// The lines by number; `None` for a line without a binding.
    pub lines: Seq<Option<LineView<H>>>,
    /// The number of registrations made.
    pub next_index: nat,
    /// The sleep object that the worker blocks on.
    pub signal: SleepObject,
    /// The timer has ticked and the worker has not passed the tick on yet.
    pub timer_pending: bool,
    /// The worker has been made.
    pub has_worker: bool,
    /// The event flags by the slot of their cell.
    pub flags: Map<int, SingleFlag>,
}

impl<H: IrqHandler> Irqs<H> {
    /// The fabric as its callers see it.
    pub open spec fn view(&self) -> IrqsView<H> {
        IrqsView {
            lines: Seq::new(
                LINES as nat,
                |gsi: int|
                    if self.bound(gsi) {
                        Some(LineView { fired: self.fired(gsi), handlers: self.handlers(gsi) })
                    } else {
                        None
                    },
            ),
            next_index: self.bindings.next_index as nat,
            signal: self.worker_signal,
            timer_pending: self.timer_pending,
            has_worker: self.worker is Some,
            flags: Map::new(
                |slot: int| self.events.live(slot),
                |slot: int| self.events.value(slot),
            ),
        }
    }
}

/// The fabric after the machine's handler has run for line `gsi`: the
/// line is marked as fired and the worker is signalled.
pub open spec fn raised<H>(irqs: IrqsView<H>, gsi: int) -> IrqsView<H> {
    IrqsView {
        lines: irqs.lines.update(
            gsi,
            Some(LineView { fired: true, handlers: irqs.lines[gsi]->0.handlers }),
        ),
        signal: irqs.signal.signalled(),
        ..irqs
    }
}

/// The fabric after the machine's handler has run `n` times for line `gsi`.
pub open spec fn raised_n<H>(irqs: IrqsView<H>, gsi: int, n: nat) -> IrqsView<H>
    decreases n,
{
    if n == 0 {
        irqs
    } else {
        raised(raised_n(irqs, gsi, (n - 1) as nat), gsi)
    }
}

/// The fabric after the timer has ticked: the tick is pending and the
/// worker is signalled.
pub open spec fn ticked<H>(irqs: IrqsView<H>) -> IrqsView<H> {
    IrqsView { timer_pending: true, signal: irqs.signal.signalled(), ..irqs }
}

/// The order of the fabric does not depend on the worker, its signal or the
/// pending tick.
proof fn lemma_wf_frame<H: IrqHandler>(before: Irqs<H>, after: Irqs<H>)
    requires
        before.wf(),
        after.bindings.mapping@ == before.bindings.mapping@,
        after.lines == before.lines,
        after.events == before.events,
    ensures
        after.wf(),
        after@.lines == before@.lines,
        after@.flags == before@.flags,
{
    assert forall|gsi: int| 0 <= gsi < LINES implies (#[trigger] after.bound(gsi)
        <==> after.lines@[gsi] is Some) by {
        assert(before.bound(gsi) <==> before.lines@[gsi] is Some);
    }
    assert forall|gsi: int| #[trigger] after.bound(gsi) implies {
        &&& after.lines@[gsi] == Some(gsi as Cookie)
        &&& after.binding(gsi).arch_handle.line() == Some(gsi as usize)
        &&& !after.binding(gsi).handlers.inner.is_held()
        &&& forall|j: int|
            0 <= j < after.handlers(gsi).len() ==> (#[trigger] after.handlers(
                gsi,
            )[j] matches Handler::Event(flag) ==> after.events.live(flag.slot()))
    } by {
        assert(before.bound(gsi));
        assert forall|j: int| 0 <= j < after.handlers(gsi).len() implies (#[trigger] after.handlers(
            gsi,
        )[j] matches Handler::Event(flag) ==> after.events.live(flag.slot())) by {
            assert(after.handlers(gsi)[j] == before.handlers(gsi)[j]);
        }
    }
}

/// What the machine calls when a line fires, with the cookie that the line
/// was bound with: marks the binding as fired and signals the worker.
/// Returns true if the worker is blocked and has to be woken.
pub fn handler_raw<H: IrqHandler>(irqs: &mut Irqs<H>, info: Cookie) -> (wake: bool)
    requires
        old(irqs).wf(),
        old(irqs).bound(info as int),
    ensures
        final(irqs).wf(),
        final(irqs)@ == raised(old(irqs)@, info as int),
        final(irqs).worker_signal.is_pending(),
        final(irqs).events == old(irqs).events,
        wake == old(irqs).worker_signal.has_sleeper(),
{
    let wake = match &mut irqs.bindings.mapping[info] {
        Some(binding) => binding.handle(&mut irqs.worker_signal),
        None => false,
    };
    proof {
        let gsi = info as int;
        assert forall|other: int| 0 <= other < LINES implies (#[trigger] irqs.bound(other)
            <==> irqs.lines@[other] is Some) by {
            assert(old(irqs).bound(other) <==> old(irqs).lines@[other] is Some);
        }
        assert forall|other: int| #[trigger] irqs.bound(other) implies {
            &&& irqs.lines@[other] == Some(other as Cookie)
            &&& irqs.binding(other).arch_handle.line() == Some(other as usize)
            &&& !irqs.binding(other).handlers.inner.is_held()
            &&& forall|j: int|
                0 <= j < irqs.handlers(other).len() ==> (#[trigger] irqs.handlers(
                    other,
                )[j] matches Handler::Event(flag) ==> irqs.events.live(flag.slot()))
        } by {
            assert(old(irqs).bound(other));
            assert forall|j: int| 0 <= j < irqs.handlers(other).len() implies (
            #[trigger] irqs.handlers(other)[j] matches Handler::Event(flag)
                ==> irqs.events.live(flag.slot())) by {
                assert(irqs.handlers(other)[j] == old(irqs).handlers(other)[j]);
            }
        }
        assert(irqs@.lines =~= raised(old(irqs)@, gsi).lines);
    }
    wake
}

/// What the timer's interrupt handler calls: marks a tick as pending and
/// signals the worker, so that the clock is advanced on the worker's thread
/// and not in the interrupt. Returns true if the worker is blocked and has
/// to be woken.
pub fn timer_trigger<H: IrqHandler>(irqs: &mut Irqs<H>) -> (wake: bool)
    requires
        old(irqs).wf(),
    ensures
        final(irqs).wf(),
        final(irqs)@ == ticked(old(irqs)@),
        final(irqs).worker_signal.is_pending(),
        final(irqs).events == old(irqs).events,
        wake == old(irqs).worker_signal.has_sleeper(),
{
    irqs.timer_pending = true;
    let wake = irqs.worker_signal.signal();
    proof {
        lemma_wf_frame(*old(irqs), *irqs);
    }
    wake
}

/// Makes the worker, once. Returns true if this call made it: the caller
/// starts a thread of the worker's name that calls `irq_worker` for ever.
pub fn init<H: IrqHandler>(irqs: &mut Irqs<H>) -> (made: bool)
    requires
        old(irqs).wf(),
    ensures
        final(irqs).wf(),
        made == !old(irqs)@.has_worker,
        final(irqs)@ == (IrqsView { has_worker: true, ..old(irqs)@ }),
        made ==> final(irqs).worker->0.name == "IRQ Worker",
        !made ==> final(irqs).worker == old(irqs).worker,
{
    let made = irqs.worker.is_none();
    if made {
        irqs.worker = Some(WorkerThread { name: "IRQ Worker" });
    }
    proof {
        lemma_wf_frame(*old(irqs), *irqs);
    }
    made
}

/// The order of the fabric is kept when the event heap gets a new cell, or
/// the count of a cell changes.
proof fn lemma_wf_events<H: IrqHandler>(before: Irqs<H>, after: Irqs<H>)
    requires
        before.wf(),
        after.bindings.mapping@ == before.bindings.mapping@,
        after.lines == before.lines,
        after.events.wf(),
        forall|slot: int| before.events.live(slot) ==> #[trigger] after.events.live(slot),
    ensures
        after.wf(),
        after@.lines == before@.lines,
{
    assert forall|gsi: int| 0 <= gsi < LINES implies (#[trigger] after.bound(gsi)
        <==> after.lines@[gsi] is Some) by {
        assert(before.bound(gsi) <==> before.lines@[gsi] is Some);
    }
    assert forall|gsi: int| #[trigger] after.bound(gsi) implies {
        &&& after.lines@[gsi] == Some(gsi as Cookie)
        &&& after.binding(gsi).arch_handle.line() == Some(gsi as usize)
        &&& !after.binding(gsi).handlers.inner.is_held()
        &&& forall|j: int|
            0 <= j < after.handlers(gsi).len() ==> (#[trigger] after.handlers(
                gsi,
            )[j] matches Handler::Event(flag) ==> after.events.live(flag.slot()))
    } by {
        assert(before.bound(gsi));
        assert forall|j: int| 0 <= j < after.handlers(gsi).len() implies (#[trigger] after.handlers(
            gsi,
        )[j] matches Handler::Event(flag) ==> after.events.live(flag.slot())) by {
            assert(after.handlers(gsi)[j] == before.handlers(gsi)[j]);
        }
    }
}

/// Binds a new event flag to line `num`: every time the worker serves the
/// line, the flag is triggered. The returned handle shares the flag with
/// the handler.
pub fn bind_event<H: IrqHandler>(irqs: &mut Irqs<H>, cpu: u32, num: u32) -> (handle: EventHandle)
    requires
        old(irqs).wf(),
        num < LINES,
        old(irqs).bindings.next_index < usize::MAX,
    ensures
        final(irqs).wf(),
        handle.binding().0 == num,
        handle.binding().1 == registration_number(old(irqs).bindings.next_index),
        handle.event().slot() == old(irqs).events.slots(),
        final(irqs).events.slots() == old(irqs).events.slots() + 1,
        final(irqs).events.count(handle.event().slot()) == 2,
        old(irqs).events.same_but(&final(irqs).events, handle.event().slot()),
        !final(irqs)@.flags[handle.event().slot()].is_set(),
        !final(irqs)@.flags[handle.event().slot()].is_consumed(),
        final(irqs)@ == registered(
            IrqsView {
                flags: old(irqs)@.flags.insert(
                    handle.event().slot(),
                    final(irqs)@.flags[handle.event().slot()],
                ),
                ..old(irqs)@
            },
            num as int,
            Handler::Event(handle.event()),
        ),
{
    let ev = Grc::new(&mut irqs.events, SingleFlag::new());
    let shared = ev.clone(&mut irqs.events);
    proof {
        lemma_wf_events(*old(irqs), *irqs);
    }
    let ghost mid = *irqs;
    let binding = bind(irqs, cpu, num, Handler::Event(shared));
    proof {
        assert(mid@.flags =~= old(irqs)@.flags.insert(ev.slot(), mid.events.value(ev.slot())));
    }
    EventHandle { _binding: binding, event: ev }
}

/// Binds `obj` to line `num`: every time the worker serves the line, the
/// object is called.
pub fn bind_object<H: IrqHandler>(irqs: &mut Irqs<H>, cpu: u32, num: u32, obj: H) -> (handle:
    ObjectHandle)
    requires
        old(irqs).wf(),
        num < LINES,
        old(irqs).bindings.next_index < usize::MAX,
    ensures
        final(irqs).wf(),
        handle.0.0 == num,
        handle.0.1 == registration_number(old(irqs).bindings.next_index),
        final(irqs).events == old(irqs).events,
        final(irqs)@ == registered(old(irqs)@, num as int, Handler::Object(obj)),
{
    ObjectHandle(bind(irqs, cpu, num, Handler::Object(obj)))
}

impl EventHandle {
    /// The registration of the handler that triggers the flag.
    pub closed spec fn binding(&self) -> BindingHandle {
        self._binding
    }

    /// The handle of the flag.
    pub closed spec fn event(&self) -> EventRef {
        self.event
    }

    /// The flag that the line's firing triggers.
    pub fn get_event<'a, H: IrqHandler>(&self, irqs: &'a Irqs<H>) -> (flag: &'a SingleFlag)
        requires
            irqs.events.live(self.event().slot()),
        ensures
            *flag == irqs@.flags[self.event().slot()],
    {
        self.event.deref(&irqs.events)
    }
}

/// Some handler of the list triggers the flag in `slot`.
pub open spec fn names<H>(handlers: Seq<Handler<H>>, slot: int) -> bool {
    exists|j: int|
        0 <= j < handlers.len() && (#[trigger] handlers[j] matches Handler::Event(flag)
            && flag.slot() == slot)
}

/// `after` is what a call leaves of the handler `before`: an event handler
/// stays as it is, and an object is in a state that its own account of a
/// call allows.
pub open spec fn called<H: IrqHandler>(before: Handler<H>, after: Handler<H>) -> bool {
    match before {
        Handler::Event(_) => after == before,
        Handler::Object(obj) => after matches Handler::Object(now) && (obj.handled(&now, true)
            || obj.handled(&now, false)),
    }
}

/// Every handler of the list has been called once.
pub open spec fn all_called<H: IrqHandler>(
    before: Seq<Handler<H>>,
    after: Seq<Handler<H>>,
) -> bool {
    &&& after.len() == before.len()
    &&& forall|j: int| 0 <= j < before.len() ==> called(#[trigger] before[j], after[j])
}

/// The flag as it is after the handlers of a served line have run: set, if
/// one of them triggers it.
pub open spec fn flag_after(flag: SingleFlag, triggered: bool) -> SingleFlag {
    if triggered {
        flag.set_flag()
    } else {
        flag
    }
}

/// Calls every handler of the list once, in order.
fn run_handlers<H: IrqHandler>(list: &mut Vec<Handler<H>>, events: &mut EventHeap)
    requires
        old(events).wf(),
        forall|j: int|
            0 <= j < old(list)@.len() ==> (#[trigger] old(list)@[j] matches Handler::Event(flag)
                ==> old(events).live(flag.slot())),
    ensures
        all_called(old(list)@, final(list)@),
        final(events).wf(),
        final(events).slots() == old(events).slots(),
        forall|slot: int| #[trigger] final(events).live(slot) == old(events).live(slot),
        forall|slot: int| #[trigger]
            old(events).live(slot) ==> {
                &&& final(events).count(slot) == old(events).count(slot)
                &&& final(events).value(slot) == flag_after(
                    old(events).value(slot),
                    names(old(list)@, slot),
                )
            },
{
    let ghost before = list@;
    let ghost heap = *events;
    let mut j: usize = 0;
    while j < list.len()
        invariant
            j <= list.len(),
            list@.len() == before.len(),
            forall|k: int| j <= k < before.len() ==> list@[k] == before[k],
            forall|k: int| 0 <= k < j ==> called(#[trigger] before[k], list@[k]),
            forall|k: int|
                0 <= k < before.len() ==> (#[trigger] before[k] matches Handler::Event(flag)
                    ==> heap.live(flag.slot())),
            heap.wf(),
            events.wf(),
            events.slots() == heap.slots(),
            forall|slot: int| #[trigger] events.live(slot) == heap.live(slot),
            forall|slot: int| #[trigger]
                heap.live(slot) ==> {
                    &&& events.count(slot) == heap.count(slot)
                    &&& events.value(slot) == flag_after(
                        heap.value(slot),
                        names(before.take(j as int), slot),
                    )
                },
        decreases list.len() - j,
    {
        let ghost mid = *events;
        match &mut list[j] {
            Handler::Event(flag) => {
                events.shared_mut(flag).trigger();
            },
            Handler::Object(obj) => {
                let _ = obj.handle_irq();
            },
        }
        proof {
            let short = before.take(j as int);
            let long = before.take(j + 1);
            match before[j as int] {
                Handler::Event(flag) => {
                    mid.lemma_wf_kept(events, flag.slot());
                },
                Handler::Object(_) => {},
            }
            assert forall|slot: int| #[trigger] heap.live(slot) implies {
                &&& events.count(slot) == heap.count(slot)
                &&& events.value(slot) == flag_after(heap.value(slot), names(long, slot))
            } by {
                lemma_set_flag(heap.value(slot));
                let hit = before[j as int] matches Handler::Event(flag) && flag.slot() == slot;
                if hit {
                    assert(events.count(slot) == mid.count(slot));
                } else {
                    match before[j as int] {
                        Handler::Event(flag) => {
                            assert(events.live(slot) == mid.live(slot));
                        },
                        Handler::Object(_) => {
                            assert(*events == mid);
                        },
                    }
                }
                assert(names(long, slot) == (names(short, slot) || hit)) by {
                    assert(long[j as int] == before[j as int]);
                }
            }
        }
        j = j + 1;
    }
    assert(before.take(j as int) == before);
}

impl<H: IrqHandler> IRQBinding<H> {
    /// Runs the handlers of the binding under the lock of their list. With
    /// the list locked by another CPU nothing is run.
    fn serve(&mut self, events: &mut EventHeap, cpu: u32)
        requires
            !old(self).handlers.inner.is_held(),
            old(events).wf(),
            forall|j: int|
                0 <= j < old(self).handlers.value@.len() ==> (
                #[trigger] old(self).handlers.value@[j] matches Handler::Event(flag) ==> old(
                    events,
                ).live(flag.slot())),
        ensures
            final(self).arch_handle == old(self).arch_handle,
            final(self).has_fired == old(self).has_fired,
            !final(self).handlers.inner.is_held(),
            all_called(old(self).handlers.value@, final(self).handlers.value@),
            final(events).wf(),
            final(events).slots() == old(events).slots(),
            forall|slot: int| #[trigger] final(events).live(slot) == old(events).live(slot),
            forall|slot: int| #[trigger]
                old(events).live(slot) ==> {
                    &&& final(events).count(slot) == old(events).count(slot)
                    &&& final(events).value(slot) == flag_after(
                        old(events).value(slot),
                        names(old(self).handlers.value@, slot),
                    )
                },
    {
        let served = match self.handlers.try_lock_cpu(cpu) {
            Some(list) => {
                run_handlers(list, events);
                true
            },
            None => false,
        };
        if served {
            self.handlers.release();
        }
    }
}

/// Some fired line below `limit` has a handler that triggers the flag in
/// `slot`.
pub open spec fn fired_names_below<H>(irqs: IrqsView<H>, slot: int, limit: int) -> bool {
    exists|gsi: int|
        0 <= gsi < limit && gsi < irqs.lines.len() && (#[trigger] irqs.lines[gsi] matches Some(
            line,
        ) && line.fired && names(line.handlers, slot))
}

/// Some fired line has a handler that triggers the flag in `slot`.
pub open spec fn fired_names<H>(irqs: IrqsView<H>, slot: int) -> bool {
    fired_names_below(irqs, slot, irqs.lines.len() as int)
}

/// `post` is the fabric `pre` after the worker has served it: the signal is
/// consumed, no line is marked as fired, every handler of every line that
/// was marked has been called once, the flags that these handlers trigger
/// are set, no tick is pending, and nothing else has changed.
pub open spec fn served<H: IrqHandler>(pre: IrqsView<H>, post: IrqsView<H>) -> bool {
    &&& post.lines.len() == pre.lines.len()
    &&& forall|gsi: int|
        0 <= gsi < pre.lines.len() ==> match #[trigger] pre.lines[gsi] {
            None => post.lines[gsi] is None,
            Some(line) => post.lines[gsi] matches Some(now) && !now.fired && if line.fired {
                all_called(line.handlers, now.handlers)
            } else {
                now.handlers == line.handlers
            },
        }
    &&& post.next_index == pre.next_index
    &&& post.signal == pre.signal.waited()
    &&& !post.timer_pending
    &&& post.has_worker == pre.has_worker
    &&& post.flags.dom() == pre.flags.dom()
    &&& forall|slot: int|
        pre.flags.dom().contains(slot) ==> #[trigger] post.flags[slot] == flag_after(
            pre.flags[slot],
            fired_names(pre, slot),
        )
}

/// One turn of the worker. With no signal pending, the worker has to sleep:
/// the call records it as blocked and changes nothing else. With a signal
/// pending, the call consumes it, clears the mark of every fired line and
/// calls the line's handlers in the order of their registration, whatever
/// they return, and clears the pending tick; `Tick` says that there was
/// one.
pub fn irq_worker<H: IrqHandler>(irqs: &mut Irqs<H>, cpu: u32) -> (step: WorkerStep)
    requires
        old(irqs).wf(),
    ensures
        final(irqs).wf(),
        step is Sleep <==> !old(irqs).worker_signal.is_pending(),
        step is Sleep ==> final(irqs)@ == (IrqsView {
            signal: old(irqs)@.signal.waited(),
            ..old(irqs)@
        }),
        !(step is Sleep) ==> served(old(irqs)@, final(irqs)@),
        step is Tick <==> old(irqs).worker_signal.is_pending() && old(irqs).timer_pending,
        forall|slot: int| #[trigger]
            old(irqs).events.live(slot) ==> final(irqs).events.count(slot) == old(
                irqs,
            ).events.count(slot),
{
    let ghost first = *irqs;
    if !irqs.worker_signal.wait() {
        proof {
            lemma_wf_frame(first, *irqs);
        }
        return WorkerStep::Sleep;
    }
    let mut gsi: usize = 0;
    while gsi < LINES
        invariant
            gsi <= LINES,
            first.wf(),
            irqs.bindings.mapping@.len() == LINES,
            irqs.lines == first.lines,
            irqs.bindings.next_index == first.bindings.next_index,
            irqs.worker == first.worker,
            irqs.timer_pending == first.timer_pending,
            irqs.worker_signal == first.worker_signal.waited(),
            forall|l: int|
                gsi <= l < LINES ==> irqs.bindings.mapping@[l] == first.bindings.mapping@[l],
            forall|l: int| 0 <= l < LINES ==> #[trigger] irqs.bound(l) == first.bound(l),
            forall|l: int|
                0 <= l < gsi && #[trigger] first.bound(l) ==> {
                    &&& !irqs.fired(l)
                    &&& irqs.binding(l).arch_handle == first.binding(l).arch_handle
                    &&& !irqs.binding(l).handlers.inner.is_held()
                    &&& if first.fired(l) {
                        all_called(first.handlers(l), irqs.handlers(l))
                    } else {
                        irqs.handlers(l) == first.handlers(l)
                    }
                },
            irqs.events.wf(),
            irqs.events.slots() == first.events.slots(),
            forall|slot: int| #[trigger] irqs.events.live(slot) == first.events.live(slot),
            forall|slot: int| #[trigger]
                first.events.live(slot) ==> {
                    &&& irqs.events.count(slot) == first.events.count(slot)
                    &&& irqs.events.value(slot) == flag_after(
                        first.events.value(slot),
                        fired_names_below(first@, slot, gsi as int),
                    )
                },
        decreases LINES - gsi,
    {
        let ghost mid = *irqs;
        match &mut irqs.bindings.mapping[gsi] {
            Some(binding) => {
                let fired = binding.has_fired;
                binding.has_fired = false;
                if fired {
                    proof {
                        assert(first.bound(gsi as int));
                        assert forall|j: int|
                            0 <= j < binding.handlers.value@.len() implies (
                        #[trigger] binding.handlers.value@[j] matches Handler::Event(flag)
                            ==> irqs.events.live(flag.slot())) by {
                            if let Handler::Event(flag) = first.handlers(gsi as int)[j] {
                                assert(first.events.live(flag.slot()));
                            }
                        }
                    }
                    binding.serve(&mut irqs.events, cpu);
                }
            },
            None => {},
        }
        proof {
            let g = gsi as int;
            assert forall|l: int| 0 <= l < LINES implies #[trigger] irqs.bound(l) == first.bound(
                l,
            ) by {
                assert(mid.bound(l) == first.bound(l));
            }
            assert forall|slot: int| #[trigger] first.events.live(slot) implies {
                &&& irqs.events.count(slot) == first.events.count(slot)
                &&& irqs.events.value(slot) == flag_after(
                    first.events.value(slot),
                    fired_names_below(first@, slot, g + 1),
                )
            } by {
                assert(mid.events.live(slot));
                lemma_set_flag(first.events.value(slot));
                lemma_fired_names_step(first, slot, g);
            }
        }
        gsi = gsi + 1;
    }
    let ghost done = *irqs;
    let tick = irqs.timer_pending;
    irqs.timer_pending = false;
    proof {
        assert forall|l: int| 0 <= l < LINES implies #[trigger] irqs.bound(l) == first.bound(
            l,
        ) by {
            assert(done.bound(l) == first.bound(l));
        }
        lemma_served(first, *irqs);
    }
    if tick {
        WorkerStep::Tick
    } else {
        WorkerStep::Continue
    }
}

/// One more line below the limit.
proof fn lemma_fired_names_step<H: IrqHandler>(irqs: Irqs<H>, slot: int, gsi: int)
    requires
        0 <= gsi < LINES,
    ensures
        fired_names_below(irqs@, slot, gsi + 1) == (fired_names_below(irqs@, slot, gsi) || (
        irqs.bound(gsi) && irqs.fired(gsi) && names(irqs.handlers(gsi), slot))),
{
    let v = irqs@;
    if irqs.bound(gsi) && irqs.fired(gsi) && names(irqs.handlers(gsi), slot) {
        assert(v.lines[gsi] matches Some(line) && line.fired && names(line.handlers, slot));
    }
}

/// What the worker's pass over the lines has established is what `served`
/// says of the fabric.
proof fn lemma_served<H: IrqHandler>(first: Irqs<H>, last: Irqs<H>)
    requires
        first.wf(),
        last.bindings.mapping@.len() == LINES,
        last.lines == first.lines,
        last.bindings.next_index == first.bindings.next_index,
        last.worker == first.worker,
        !last.timer_pending,
        last.worker_signal == first.worker_signal.waited(),
        forall|l: int| 0 <= l < LINES ==> #[trigger] last.bound(l) == first.bound(l),
        forall|l: int|
            0 <= l < LINES && #[trigger] first.bound(l) ==> {
                &&& !last.fired(l)
                &&& last.binding(l).arch_handle == first.binding(l).arch_handle
                &&& !last.binding(l).handlers.inner.is_held()
                &&& if first.fired(l) {
                    all_called(first.handlers(l), last.handlers(l))
                } else {
                    last.handlers(l) == first.handlers(l)
                }
            },
        last.events.wf(),
        last.events.slots() == first.events.slots(),
        forall|slot: int| #[trigger] last.events.live(slot) == first.events.live(slot),
        forall|slot: int| #[trigger]
            first.events.live(slot) ==> {
                &&& last.events.count(slot) == first.events.count(slot)
                &&& last.events.value(slot) == flag_after(
                    first.events.value(slot),
                    fired_names_below(first@, slot, LINES as int),
                )
            },
    ensures
        last.wf(),
        served(first@, last@),
{
    assert forall|gsi: int| #[trigger] last.bound(gsi) implies {
        &&& last.lines@[gsi] == Some(gsi as Cookie)
        &&& last.binding(gsi).arch_handle.line() == Some(gsi as usize)
        &&& !last.binding(gsi).handlers.inner.is_held()
        &&& forall|j: int|
            0 <= j < last.handlers(gsi).len() ==> (#[trigger] last.handlers(
                gsi,
            )[j] matches Handler::Event(flag) ==> last.events.live(flag.slot()))
    } by {
        assert forall|j: int| 0 <= j < last.handlers(gsi).len() implies (#[trigger] last.handlers(
            gsi,
        )[j] matches Handler::Event(flag) ==> last.events.live(flag.slot())) by {
            if let Handler::Event(flag) = first.handlers(gsi)[j] {
                assert(last.events.live(flag.slot()) == first.events.live(flag.slot()));
            }
        }
    }
    let pre = first@;
    let post = last@;
    assert(post.flags.dom() =~= pre.flags.dom());
}

/// However often a line fires before the worker looks, the fabric is as
/// after one firing: the line is marked, the worker is signalled, and
/// everything else is as it was.
pub proof fn lemma_raised_coalesce<H: IrqHandler>(irqs: IrqsView<H>, gsi: int, n: nat)
    requires
        0 <= gsi < irqs.lines.len(),
        irqs.lines[gsi] is Some,
        n >= 1,
    ensures
        raised_n(irqs, gsi, n) == raised(irqs, gsi),
        raised(irqs, gsi).lines[gsi] == Some(
            LineView { fired: true, handlers: irqs.lines[gsi]->0.handlers },
        ),
        raised(irqs, gsi).signal.is_pending(),
    decreases n,
{
    lemma_sleep_steps(irqs.signal);
    if n == 1 {
        assert(raised_n(irqs, gsi, 0) == irqs);
    } else {
        lemma_raised_coalesce(irqs, gsi, (n - 1) as nat);
        let once = raised(irqs, gsi);
        crate::threads::lemma_signals_coalesce(irqs.signal, 1);
        assert(raised(once, gsi).lines =~= once.lines);
    }
}

/// No firing is lost: after a line has fired once or more, the worker does
/// not go to sleep on its next turn, and the turn calls every handler of
/// the line and leaves the line unmarked. Several firings before the turn
/// give one call of each handler.
pub proof fn lemma_no_lost_irq<H: IrqHandler>(
    irqs: IrqsView<H>,
    gsi: int,
    n: nat,
    after: IrqsView<H>,
)
    requires
        0 <= gsi < irqs.lines.len(),
        irqs.lines[gsi] is Some,
        n >= 1,
        served(raised_n(irqs, gsi, n), after),
    ensures
        raised_n(irqs, gsi, n).signal.wait_returns(),
        after.lines[gsi] matches Some(now) && !now.fired && all_called(
            irqs.lines[gsi]->0.handlers,
            now.handlers,
        ),
{
    lemma_raised_coalesce(irqs, gsi, n);
    let pre = raised_n(irqs, gsi, n);
}

} // verus!
