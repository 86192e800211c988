//! Reference-counted shared cells, generic over the kind of counter.
//!
//! The cells live in a heap that their handles index. A cell is created with
//! one handle, every clone of a handle adds one to the cell's count and every
//! drop takes one away; the drop that brings the count to zero frees the cell
//! and hands its payload out to be destroyed.
use vstd::prelude::*;
use core::marker::PhantomData;

verus! {

/// The count of handles of one cell.
pub trait Counter: Sized {
    /// The number that the counter holds.
    spec fn count(&self) -> nat;

    /// A counter at zero.
    fn zero() -> (c: Self)
        ensures
            c.count() == 0,
    ;

    /// A counter at one.
    fn one() -> (c: Self)
        ensures
            c.count() == 1,
    ;

    fn is_zero(&self) -> (zero: bool)
        ensures
            zero == (self.count() == 0),
    ;

    fn is_one(&self) -> (one: bool)
        ensures
            one == (self.count() == 1),
    ;

    /// True if the counter cannot take one more.
    fn is_max(&self) -> (max: bool)
        ensures
            max == (self.count() == usize::MAX),
    ;

    /// Adds one.
    fn inc(&mut self)
        requires
            old(self).count() != usize::MAX,
        ensures
            final(self).count() == old(self).count() + 1,
    ;

    /// Takes one away; true if that brought the counter to zero.
    fn dec(&mut self) -> (zero: bool)
        requires
            old(self).count() > 0,
        ensures
            final(self).count() == old(self).count() - 1,
            zero == (final(self).count() == 0),
    ;
}

/// The counter of cells that stay on one thread.
pub struct NonAtomicCounter {
    value: usize,
}

/// The counter of cells whose handles may cross threads. Every operation
/// takes the counter by exclusive reference, so it sees one operation at a
/// time, as an atomic counter does.
pub struct AtomicCounter {
    value: usize,
}

impl Counter for NonAtomicCounter {
    closed spec fn count(&self) -> nat {
        self.value as nat
    }

    fn zero() -> (c: Self) {
        NonAtomicCounter { value: 0 }
    }

    fn one() -> (c: Self) {
        NonAtomicCounter { value: 1 }
    }

    fn is_zero(&self) -> (zero: bool) {
        self.value == 0
    }

    fn is_one(&self) -> (one: bool) {
        self.value == 1
    }

    fn is_max(&self) -> (max: bool) {
        self.value == usize::MAX
    }

    fn inc(&mut self) {
        self.value = self.value + 1;
    }

    fn dec(&mut self) -> (zero: bool) {
        self.value = self.value - 1;
        self.value == 0
    }
}

impl Counter for AtomicCounter {
    closed spec fn count(&self) -> nat {
        self.value as nat
    }

    fn zero() -> (c: Self) {
        AtomicCounter { value: 0 }
    }

    fn one() -> (c: Self) {
        AtomicCounter { value: 1 }
    }

    fn is_zero(&self) -> (zero: bool) {
        self.value == 0
    }

    fn is_one(&self) -> (one: bool) {
        self.value == 1
    }

    fn is_max(&self) -> (max: bool) {
        self.value == usize::MAX
    }

    fn inc(&mut self) {
        self.value = self.value + 1;
    }

    /// Reports on the value found before the subtraction, as a fetch-and-
    /// subtract does.
    fn dec(&mut self) -> (zero: bool) {
        let found = self.value;
        self.value = found - 1;
        found == 1
    }
}

/// What a cell holds: the count of its handles and the payload.
pub struct GrcInner<C: Counter, T> {
    strong: C,
    val: T,
}

/// The cells, by slot. A freed slot stays empty and is never given out
/// again, so a handle cannot come to name another cell.
pub struct GrcHeap<C: Counter, T> {
    cells: Vec<Option<GrcInner<C, T>>>,
}

/// A handle of a shared cell.
pub struct Grc<C: Counter, T> {
    slot: usize,
    kind: PhantomData<(C, T)>,
}

impl<C: Counter, T> GrcHeap<C, T> {
    /// The number of slots given out so far.
    pub closed spec fn slots(&self) -> nat {
        self.cells.len() as nat
    }

    /// The slot holds a cell.
    pub closed spec fn live(&self, slot: int) -> bool {
        0 <= slot < self.cells.len() && self.cells[slot] is Some
    }

    /// The count of handles of the cell in `slot`.
    pub closed spec fn count(&self, slot: int) -> nat {
        self.cells[slot]->0.strong.count()
    }

    /// The payload of the cell in `slot`.
    pub closed spec fn value(&self, slot: int) -> T {
        self.cells[slot]->0.val
    }

    /// Every cell has at least one handle.
    pub open spec fn wf(&self) -> bool {
        forall|slot: int| #[trigger] self.live(slot) ==> self.count(slot) >= 1
    }

    /// The two heaps agree on every slot but `slot`.
    pub open spec fn same_but(&self, other: &Self, slot: int) -> bool {
        &&& self.slots() <= other.slots()
        &&& forall|s: int|
            s != slot ==> {
                &&& #[trigger] other.live(s) == self.live(s)
                &&& self.live(s) ==> other.count(s) == self.count(s) && other.value(s)
                    == self.value(s)
            }
    }

    /// The two heaps agree on every slot but `a` and `b`.
    pub open spec fn same_but2(&self, other: &Self, a: int, b: int) -> bool {
        &&& self.slots() <= other.slots()
        &&& forall|s: int|
            s != a && s != b ==> {
                &&& #[trigger] other.live(s) == self.live(s)
                &&& self.live(s) ==> other.count(s) == self.count(s) && other.value(s)
                    == self.value(s)
            }
    }

    /// A well-formed heap stays so when one slot changes and, if it still
    /// holds a cell, the cell has a handle.
    pub proof fn lemma_wf_kept(&self, after: &Self, slot: int)
        requires
            self.wf(),
            self.same_but(after, slot),
            after.live(slot) ==> after.count(slot) >= 1,
        ensures
            after.wf(),
    {
        assert forall|s: int| #[trigger] after.live(s) implies after.count(s) >= 1 by {}
    }

    /// True if the cell that `handle` names is in this heap.
    pub fn holds(&self, handle: &Grc<C, T>) -> (live: bool)
        ensures
            live == self.live(handle.slot()),
    {
        handle.slot < self.cells.len() && self.cells[handle.slot].is_some()
    }

    /// True if the cell that `handle` names can take one more handle.
    pub fn can_clone(&self, handle: &Grc<C, T>) -> (room: bool)
        requires
            self.live(handle.slot()),
        ensures
            room == (self.count(handle.slot()) != usize::MAX),
    {
        match &self.cells[handle.slot] {
            Some(inner) => !inner.strong.is_max(),
            None => false,
        }
    }

    /// True if `handle` is the only handle of its cell.
    pub fn is_unique(&self, handle: &Grc<C, T>) -> (unique: bool)
        requires
            self.live(handle.slot()),
        ensures
            unique == (self.count(handle.slot()) == 1),
    {
        match &self.cells[handle.slot] {
            Some(inner) => inner.strong.is_one(),
            None => false,
        }
    }

    /// Lends the payload of a cell whatever the number of its handles. This
    /// stands for a payload that changes behind shared references, as one
    /// made of atomic flags does, and is kept to this crate for such
    /// payloads.
    pub(crate) fn shared_mut<'a>(&'a mut self, handle: &Grc<C, T>) -> (payload: &'a mut T)
        requires
            old(self).live(handle.slot()),
        ensures
            *payload == old(self).value(handle.slot()),
            final(self).live(handle.slot()),
            final(self).count(handle.slot()) == old(self).count(handle.slot()),
            final(self).value(handle.slot()) == *final(payload),
            old(self).same_but(final(self), handle.slot()),
            final(self).slots() == old(self).slots(),
    {
        match &mut self.cells[handle.slot] {
            Some(inner) => &mut inner.val,
            None => vstd::pervasive::unreached(),
        }
    }

    /// A heap without cells.
    pub fn new() -> (heap: Self)
        ensures
            heap.wf(),
            heap.slots() == 0,
            forall|slot: int| !heap.live(slot),
    {
        GrcHeap { cells: Vec::new() }
    }
}

impl<C: Counter, T> Grc<C, T> {
    /// The slot of the cell that the handle names.
    pub closed spec fn slot(&self) -> int {
        self.slot as int
    }

    /// Puts `value` into a new cell and returns its first handle.
    pub fn new(heap: &mut GrcHeap<C, T>, value: T) -> (handle: Grc<C, T>)
        requires
            old(heap).wf(),
        ensures
            final(heap).wf(),
            handle.slot() == old(heap).slots(),
            !old(heap).live(handle.slot()),
            final(heap).slots() == old(heap).slots() + 1,
            final(heap).live(handle.slot()),
            final(heap).count(handle.slot()) == 1,
            final(heap).value(handle.slot()) == value,
            old(heap).same_but(final(heap), handle.slot()),
    {
        let slot = heap.cells.len();
        heap.cells.push(Some(GrcInner { strong: C::one(), val: value }));
        proof {
            assert forall|s: int| s != slot implies {
                &&& #[trigger] heap.live(s) == old(heap).live(s)
                &&& old(heap).live(s) ==> heap.count(s) == old(heap).count(s) && heap.value(s)
                    == old(heap).value(s)
            } by {}
        }
        Grc { slot, kind: PhantomData }
    }

    /// True if both handles name the same cell.
    pub fn is_same(&self, other: &Self) -> (same: bool)
        ensures
            same == (self.slot() == other.slot()),
    {
        self.slot == other.slot
    }

    /// The payload for writing, if this is the only handle of its cell.
    pub fn get_mut<'a>(&mut self, heap: &'a mut GrcHeap<C, T>) -> (payload: Option<&'a mut T>)
        requires
            old(heap).live(old(self).slot()),
        ensures
            *final(self) == *old(self),
            payload is Some <==> old(heap).count(old(self).slot()) == 1,
            payload is None ==> *final(heap) == *old(heap),
            payload matches Some(p) ==> {
                &&& *p == old(heap).value(old(self).slot())
                &&& final(heap).live(old(self).slot())
                &&& final(heap).count(old(self).slot()) == 1
                &&& final(heap).value(old(self).slot()) == *final(p)
                &&& old(heap).same_but(final(heap), old(self).slot())
                &&& final(heap).slots() == old(heap).slots()
            },
    {
        let unique = match &heap.cells[self.slot] {
            Some(inner) => inner.strong.is_one(),
            None => false,
        };
        if !unique {
            return None;
        }
        match &mut heap.cells[self.slot] {
            Some(inner) => Some(&mut inner.val),
            None => None,
        }
    }

    /// The payload for reading.
    pub fn deref<'a>(&self, heap: &'a GrcHeap<C, T>) -> (payload: &'a T)
        requires
            heap.live(self.slot()),
        ensures
            *payload == heap.value(self.slot()),
    {
        match &heap.cells[self.slot] {
            Some(inner) => &inner.val,
            None => vstd::pervasive::unreached(),
        }
    }

    /// Makes this handle the only one of a cell with the payload: if the
    /// cell has other handles, the payload is cloned into a new cell, the
    /// handle is moved there and the old cell loses it.
    pub fn make_unique<'a>(&mut self, heap: &'a mut GrcHeap<C, T>) -> (payload: &'a mut T) where
        T: Clone,

        requires
            old(heap).wf(),
            old(heap).live(old(self).slot()),
        ensures
            final(heap).live(final(self).slot()),
            final(heap).count(final(self).slot()) == 1,
            final(heap).value(final(self).slot()) == *final(payload),
            old(heap).same_but2(final(heap), old(self).slot(), final(self).slot()),
            old(heap).count(old(self).slot()) == 1 ==> {
                &&& final(self).slot() == old(self).slot()
                &&& *payload == old(heap).value(old(self).slot())
                &&& final(heap).slots() == old(heap).slots()
            },
            old(heap).count(old(self).slot()) != 1 ==> {
                &&& final(self).slot() == old(heap).slots()
                &&& cloned(old(heap).value(old(self).slot()), *payload)
                &&& final(heap).slots() == old(heap).slots() + 1
                &&& final(heap).live(old(self).slot())
                &&& final(heap).count(old(self).slot()) == old(heap).count(old(self).slot()) - 1
                &&& final(heap).value(old(self).slot()) == old(heap).value(old(self).slot())
            },
    {
        let unique = match &heap.cells[self.slot] {
            Some(inner) => inner.strong.is_one(),
            None => true,
        };
        if !unique {
            let copy = match &heap.cells[self.slot] {
                Some(inner) => inner.val.clone(),
                None => vstd::pervasive::unreached(),
            };
            let fresh = heap.cells.len();
            heap.cells.push(Some(GrcInner { strong: C::one(), val: copy }));
            match &mut heap.cells[self.slot] {
                Some(inner) => {
                    let _ = inner.strong.dec();
                },
                None => {},
            }
            self.slot = fresh;
        }
        match &mut heap.cells[self.slot] {
            Some(inner) => &mut inner.val,
            None => vstd::pervasive::unreached(),
        }
    }

    /// One more handle of the same cell.
    pub fn clone(&self, heap: &mut GrcHeap<C, T>) -> (handle: Grc<C, T>)
        requires
            old(heap).wf(),
            old(heap).live(self.slot()),
            old(heap).count(self.slot()) != usize::MAX,
        ensures
            handle == *self,
            final(heap).wf(),
            final(heap).slots() == old(heap).slots(),
            final(heap).live(self.slot()),
            final(heap).count(self.slot()) == count_after(
                old(heap).count(self.slot()),
                RefOp::Clone,
            ),
            final(heap).value(self.slot()) == old(heap).value(self.slot()),
            old(heap).same_but(final(heap), self.slot()),
            applied(*old(heap), *final(heap), self.slot(), RefOp::Clone, None),
    {
        match &mut heap.cells[self.slot] {
            Some(inner) => {
                inner.strong.inc();
            },
            None => {},
        }
        proof {
            assert forall|s: int| #[trigger] heap.live(s) implies heap.count(s) >= 1 by {
                if s != self.slot {
                    assert(old(heap).live(s));
                }
            }
        }
        Grc { slot: self.slot, kind: PhantomData }
    }

    /// Gives the handle up. The drop of the last handle frees the cell and
    /// returns its payload, which the caller destroys; any other drop
    /// returns nothing and leaves the payload where it is.
    pub fn drop(self, heap: &mut GrcHeap<C, T>) -> (payload: Option<T>)
        requires
            old(heap).wf(),
            old(heap).live(self.slot()),
        ensures
            final(heap).wf(),
            final(heap).slots() == old(heap).slots(),
            old(heap).same_but(final(heap), self.slot()),
            applied(*old(heap), *final(heap), self.slot(), RefOp::Drop, payload),
            payload is Some <==> destroys(old(heap).count(self.slot()), RefOp::Drop),
            payload is Some <==> !final(heap).live(self.slot()),
            payload matches Some(v) ==> v == old(heap).value(self.slot()),
            payload is None ==> {
                &&& final(heap).count(self.slot()) == count_after(
                    old(heap).count(self.slot()),
                    RefOp::Drop,
                )
                &&& final(heap).value(self.slot()) == old(heap).value(self.slot())
            },
    {
        let last = match &mut heap.cells[self.slot] {
            Some(inner) => inner.strong.dec(),
            None => false,
        };
        let payload = if last {
            match heap.cells[self.slot].take() {
                Some(inner) => Some(inner.val),
                None => None,
            }
        } else {
            None
        };
        proof {
            assert forall|s: int| #[trigger] heap.live(s) implies heap.count(s) >= 1 by {
                if s != self.slot {
                    assert(old(heap).live(s));
                }
            }
        }
        payload
    }
}

impl<C: Counter, U> Grc<C, Vec<U>> {
    /// The alignment of a cell that holds a slice of `U`: the larger of the
    /// counter's and the element's.
    pub fn rcinner_align() -> (align: usize)
        ensures
            align == vstd::layout::align_of::<C>() || align == vstd::layout::align_of::<U>(),
            align >= vstd::layout::align_of::<C>(),
            align >= vstd::layout::align_of::<U>(),
    {
        let counter = core::mem::align_of::<C>();
        let element = core::mem::align_of::<U>();
        if counter >= element {
            counter
        } else {
            element
        }
    }

    /// The size in bytes of a cell that holds `len` elements: the counter and
    /// then the elements. `None` if that number does not fit.
    pub fn rcinner_size(len: usize) -> (size: Option<usize>)
        ensures
            size matches Some(n) ==> n == slice_cell_size::<C, U>(len as nat),
            size is None <==> slice_cell_size::<C, U>(len as nat) > usize::MAX,
    {
        let counter = core::mem::size_of::<C>();
        let element = core::mem::size_of::<U>();
        match len.checked_mul(element) {
            Some(items) => counter.checked_add(items),
            None => {
                None
            },
        }
    }

    /// A new cell for a slice: takes the items from their producer one by
    /// one, and puts each at the place of its number in the payload.
    pub fn from_iter(heap: &mut GrcHeap<C, Vec<U>>, items: Vec<U>) -> (handle: Grc<C, Vec<U>>)
        requires
            old(heap).wf(),
        ensures
            final(heap).wf(),
            handle.slot() == old(heap).slots(),
            !old(heap).live(handle.slot()),
            final(heap).slots() == old(heap).slots() + 1,
            final(heap).live(handle.slot()),
            final(heap).count(handle.slot()) == 1,
            final(heap).value(handle.slot())@ == items@,
            old(heap).same_but(final(heap), handle.slot()),
    {
        let len = items.len();
        let mut payload: Vec<U> = Vec::with_capacity(len);
        for v in it: items
            invariant
                payload@ == it.seq().take(it.index() as int),
                it.seq() == items@,
        {
            payload.push(v);
        }
        Grc::new(heap, payload)
    }
}

/// The bytes of a cell that holds `len` elements of `U` behind a counter `C`.
pub open spec fn slice_cell_size<C, U>(len: nat) -> nat {
    vstd::layout::size_of::<C>() + len * vstd::layout::size_of::<U>()
}

/// An operation on a handle of a cell.
pub enum RefOp {
    /// A handle is cloned.
    Clone,
    /// A handle is dropped.
    Drop,
}

/// The count of a cell after `op`, if it was `count` before.
pub open spec fn count_after(count: nat, op: RefOp) -> nat {
    match op {
        RefOp::Clone => count + 1,
        RefOp::Drop => (count - 1) as nat,
    }
}

/// `op` on a cell of this count destroys the payload: it is the drop of the
/// only handle.
pub open spec fn destroys(count: nat, op: RefOp) -> bool {
    op is Drop && count == 1
}

/// The count of a cell after the operations `ops` in order.
pub open spec fn count_after_all(count: nat, ops: Seq<RefOp>) -> nat
    decreases ops.len(),
{
    if ops.len() == 0 {
        count
    } else {
        count_after(count_after_all(count, ops.drop_last()), ops.last())
    }
}

/// Every operation of `ops` goes through a handle: the count of the cell is
/// at least one when it is made.
pub open spec fn through_handles(count: nat, ops: Seq<RefOp>) -> bool
    decreases ops.len(),
{
    if ops.len() == 0 {
        true
    } else {
        through_handles(count, ops.drop_last()) && count_after_all(count, ops.drop_last()) >= 1
    }
}

/// How often the operations `ops` in order destroy the payload.
pub open spec fn destructions(count: nat, ops: Seq<RefOp>) -> nat
    decreases ops.len(),
{
    if ops.len() == 0 {
        0
    } else {
        destructions(count, ops.drop_last()) + if destroys(
            count_after_all(count, ops.drop_last()),
            ops.last(),
        ) {
            1nat
        } else {
            0nat
        }
    }
}

/// Whatever is done through the handles of a new cell, its payload has been
/// destroyed once if no handle is left, and not at all while one is.
pub proof fn lemma_destroyed_once(ops: Seq<RefOp>)
    requires
        through_handles(1, ops),
    ensures
        destructions(1, ops) == if count_after_all(1, ops) == 0 {
            1nat
        } else {
            0nat
        },
    decreases ops.len(),
{
    if ops.len() > 0 {
        lemma_destroyed_once(ops.drop_last());
    }
}

/// The payload is destroyed by the very operation that leaves no handle:
/// among the operations made through handles, the one that destroys is the
/// one after which the count is zero, and it is the last.
pub proof fn lemma_destroyed_when_last_handle_goes(ops: Seq<RefOp>, i: int)
    requires
        through_handles(1, ops),
        0 <= i < ops.len(),
    ensures
        destroys(count_after_all(1, ops.take(i)), ops[i]) <==> count_after_all(1, ops.take(i + 1))
            == 0,
        count_after_all(1, ops.take(i + 1)) == 0 ==> i + 1 == ops.len(),
    decreases ops.len(),
{
    if i + 1 < ops.len() {
        lemma_destroyed_when_last_handle_goes(ops.drop_last(), i);
        assert(ops.drop_last().take(i) == ops.take(i));
        lemma_prefix_through_handles(ops, i + 2);
        assert(ops.take(i + 2).drop_last() == ops.take(i + 1));
    } else {
        assert(ops.take(i + 1) == ops);
    }
}

/// A prefix of operations made through handles is made through handles.
pub proof fn lemma_prefix_through_handles(ops: Seq<RefOp>, n: int)
    requires
        through_handles(1, ops),
        0 <= n <= ops.len(),
    ensures
        through_handles(1, ops.take(n)),
    decreases ops.len(),
{
    if n == ops.len() {
        assert(ops.take(n) == ops);
    } else {
        lemma_prefix_through_handles(ops.drop_last(), n);
        assert(ops.drop_last().take(n) == ops.take(n));
    }
}


/// The operation `op`, made through a handle of the cell in `slot`, has
/// taken the heap from `before` to `after` and handed out `out`: a clone
/// adds one to the count and hands out nothing; a drop takes one away, and
/// frees the cell and hands out its payload if and only if that dropped the
/// only handle. The payload of a cell that stays is as it was, and so is
/// every other cell.
pub open spec fn applied<C: Counter, T>(
    before: GrcHeap<C, T>,
    after: GrcHeap<C, T>,
    slot: int,
    op: RefOp,
    out: Option<T>,
) -> bool {
    &&& before.same_but(&after, slot)
    &&& out is Some <==> destroys(before.count(slot), op)
    &&& out is Some <==> !after.live(slot)
    &&& out matches Some(v) ==> v == before.value(slot)
    &&& out is None ==> after.count(slot) == count_after(before.count(slot), op) && after.value(
        slot,
    ) == before.value(slot)
}

/// The cell in `slot` of the first heap is new, and the heaps follow one
/// another by the operations `ops`, each made through a handle of the cell,
/// with `outs` as what they hand out.
pub open spec fn cell_history<C: Counter, T>(
    heaps: Seq<GrcHeap<C, T>>,
    ops: Seq<RefOp>,
    outs: Seq<Option<T>>,
    slot: int,
) -> bool {
    &&& heaps.len() == ops.len() + 1
    &&& outs.len() == ops.len()
    &&& heaps[0].live(slot)
    &&& heaps[0].count(slot) == 1
    &&& forall|i: int|
        0 <= i < ops.len() ==> heaps[i].live(slot) && applied(
            heaps[i],
            heaps[i + 1],
            slot,
            #[trigger] ops[i],
            outs[i],
        )
}

/// Whatever the handles of a new cell are used for, the count of the cell
/// is the number of its handles, the cell is there as long as one handle
/// is, and the payload is handed out to be destroyed by the very operation
/// that leaves no handle, unchanged, and by no other.
pub proof fn lemma_payload_destroyed_with_last_handle<C: Counter, T>(
    heaps: Seq<GrcHeap<C, T>>,
    ops: Seq<RefOp>,
    outs: Seq<Option<T>>,
    slot: int,
    n: int,
)
    requires
        cell_history(heaps, ops, outs, slot),
        0 <= n <= ops.len(),
    ensures
        through_handles(1, ops.take(n)),
        heaps[n].live(slot) <==> count_after_all(1, ops.take(n)) >= 1,
        heaps[n].live(slot) ==> heaps[n].count(slot) == count_after_all(1, ops.take(n))
            && heaps[n].value(slot) == heaps[0].value(slot),
        !heaps[n].live(slot) ==> n == ops.len(),
        forall|i: int|
            0 <= i < n ==> ((#[trigger] outs[i]) is Some <==> count_after_all(1, ops.take(i + 1))
                == 0),
        forall|i: int|
            0 <= i < n ==> ((#[trigger] outs[i]) matches Some(v) ==> v == heaps[0].value(
                slot,
            )),
        destructions(1, ops.take(n)) == if heaps[n].live(slot) {
            0nat
        } else {
            1nat
        },
    decreases n,
{
    if n == 0 {
        assert(ops.take(0) == Seq::<RefOp>::empty());
    } else {
        let m = n - 1;
        lemma_payload_destroyed_with_last_handle(heaps, ops, outs, slot, m);
        let short = ops.take(m);
        let long = ops.take(n);
        assert(long.drop_last() == short);
        assert(long.last() == ops[m]);
        let op = ops[m];
        assert(heaps[m].live(slot) && applied(heaps[m], heaps[m + 1], slot, op, outs[m]));
        assert forall|i: int| 0 <= i < n implies ((#[trigger] outs[i]) is Some <==> count_after_all(
            1,
            ops.take(i + 1),
        ) == 0) by {
            if i == m {
                assert(ops.take(i + 1) == long);
            }
        }
        if !heaps[n].live(slot) {
            if n < ops.len() {
                let next = ops[n];
                assert(heaps[n].live(slot) && applied(
                    heaps[n],
                    heaps[n + 1],
                    slot,
                    ops[n],
                    outs[n],
                ));
            }
        }
    }
}

} // verus!
