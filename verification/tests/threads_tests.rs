use kernel_core::threads::SleepObject;

#[test]
fn fresh_object_blocks() {
    let mut s = SleepObject::new("fresh");
    assert_eq!(s.get_name(), "fresh");
    assert!(!s.signal_pending());
    assert!(!s.wait());
}

#[test]
fn one_signal_satisfies_one_wait() {
    let mut s = SleepObject::new("one");
    assert!(!s.signal());
    assert!(s.signal_pending());
    assert!(s.wait());
    assert!(!s.signal_pending());
    assert!(!s.wait());
}

#[test]
fn many_signals_satisfy_one_wait() {
    for n in 1..20 {
        let mut s = SleepObject::new("many");
        for _ in 0..n {
            s.signal();
        }
        assert!(s.wait(), "first wait after {} signals", n);
        assert!(!s.wait(), "second wait after {} signals", n);
    }
}

#[test]
fn signal_before_wait_is_kept() {
    let mut s = SleepObject::new("kept");
    s.signal();
    // Nothing happens in between: the signal is still there.
    assert!(s.signal_pending());
    assert!(s.wait());
}

#[test]
fn signal_reports_blocked_thread() {
    let mut s = SleepObject::new("wake");
    // The wait finds nothing and records the caller as blocked.
    assert!(!s.wait());
    // The signal asks for the blocked thread to be woken.
    assert!(s.signal());
    // The woken thread resumes its wait and consumes the signal.
    assert!(s.wait());
    // Nobody is blocked any more.
    assert!(!s.signal());
}
