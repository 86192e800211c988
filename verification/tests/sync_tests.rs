use kernel_core::interrupts::{bind_gsi, IRQHandle, InterruptTable, LINES};
use kernel_core::sync::{hold_interrupts, LocalInterrupts, Spinlock, SpinlockInner};

#[test]
fn lock_word_follows_its_holder() {
    let mut lock = SpinlockInner::new();
    assert!(!lock.locked());
    lock.inner_lock(3);
    assert!(lock.locked());
    lock.inner_release();
    assert!(!lock.locked());
}

#[test]
fn try_lock_succeeds_on_a_free_lock() {
    let mut lock = SpinlockInner::new();
    assert!(lock.try_inner_lock_cpu(1));
    assert!(lock.locked());
}

#[test]
fn try_lock_succeeds_for_the_holder() {
    let mut lock = SpinlockInner::new();
    lock.inner_lock(1);
    assert!(lock.try_inner_lock_cpu(1));
    assert!(lock.locked());
}

#[test]
fn try_lock_fails_for_another_cpu() {
    let mut lock = SpinlockInner::new();
    lock.inner_lock(1);
    assert!(!lock.try_inner_lock_cpu(2));
    assert!(lock.locked());
    // The holder is still the first CPU.
    assert!(lock.try_inner_lock_cpu(1));
    lock.inner_release();
    assert!(lock.try_inner_lock_cpu(2));
}

#[test]
fn spinlock_lends_its_value() {
    let mut lock = Spinlock::new(vec![1u8]);
    lock.lock(0).push(2);
    assert!(lock.inner.locked());
    assert!(lock.try_lock_cpu(1).is_none());
    lock.try_lock_cpu(0).unwrap().push(3);
    lock.release();
    assert!(!lock.inner.locked());
    assert_eq!(lock.try_lock_cpu(1).unwrap().clone(), vec![1, 2, 3]);
}

#[test]
fn nested_holds_compose() {
    let mut cpu = LocalInterrupts::new();
    assert!(cpu.interrupts_enabled());
    let outer = hold_interrupts(&mut cpu);
    assert!(!cpu.interrupts_enabled());
    let inner = hold_interrupts(&mut cpu);
    assert!(!cpu.interrupts_enabled());
    inner.release(&mut cpu);
    assert!(!cpu.interrupts_enabled());
    outer.release(&mut cpu);
    assert!(cpu.interrupts_enabled());
}

#[test]
fn holds_may_be_released_in_any_order() {
    let mut cpu = LocalInterrupts::new();
    let a = hold_interrupts(&mut cpu);
    let b = hold_interrupts(&mut cpu);
    let c = hold_interrupts(&mut cpu);
    a.release(&mut cpu);
    assert!(!cpu.interrupts_enabled());
    c.release(&mut cpu);
    assert!(!cpu.interrupts_enabled());
    b.release(&mut cpu);
    assert!(cpu.interrupts_enabled());
}

#[test]
fn line_is_bound_once() {
    let mut table = InterruptTable::new();
    assert_eq!(table.cookie(5), None);
    assert!(bind_gsi(&mut table, 5, 77).is_ok());
    assert_eq!(table.cookie(5), Some(77));
    assert!(bind_gsi(&mut table, 5, 78).is_err());
    assert_eq!(table.cookie(5), Some(77));
    assert!(bind_gsi(&mut table, 6, 78).is_ok());
    assert_eq!(table.cookie(6), Some(78));
}

#[test]
fn line_out_of_range_is_refused() {
    let mut table = InterruptTable::new();
    assert!(bind_gsi(&mut table, LINES - 1, 1).is_ok());
    assert!(bind_gsi(&mut table, LINES, 1).is_err());
    assert!(bind_gsi(&mut table, usize::MAX, 1).is_err());
    assert_eq!(table.cookie(LINES), None);
}

#[test]
fn default_handle_is_unbound() {
    let _unbound: IRQHandle = IRQHandle::default();
    let _also: IRQHandle = IRQHandle::unbound();
}
