use async_semaphore::{Acquisition, Phase, SemState};

fn start(s: &mut SemState<&'static str>) -> Acquisition {
    Acquisition::start(s).expect("tickets left")
}

#[test]
fn acquire_and_release() {
    let mut sema: SemState<&'static str> = SemState::new(1);
    let mut acq = start(&mut sema);
    assert!(acq.poll(&mut sema, "task"));
    assert!(acq.is_granted());
    assert_eq!(sema.available_permits(), 0);
    assert_eq!(sema.release_and_notify(), None);
    assert_eq!(sema.available_permits(), 1);
}

#[test]
fn at_most_n_acquisitions() {
    let mut sema: SemState<&'static str> = SemState::new(1);
    let mut first = start(&mut sema);
    let mut second = start(&mut sema);
    assert!(first.poll(&mut sema, "thread1"), "thread1 didn't acquire.");
    assert!(
        !second.poll(&mut sema, "thread2"),
        "thread2 should not have acquired while thread1 was holding."
    );
    assert_eq!(second.phase(), Phase::Suspended);
    assert!(!second.poll(&mut sema, "thread2"));
    assert_eq!(sema.waiter_count(), 1);
    assert_eq!(sema.release_and_notify(), Some("thread2"));
    assert!(second.poll(&mut sema, "thread2"), "thread2 didn't acquire.");
    assert_eq!(sema.waiter_count(), 0);
}

#[test]
fn drop_while_waiting() {
    let mut sema: SemState<&'static str> = SemState::new(1);
    let mut holder = start(&mut sema);
    assert!(holder.poll(&mut sema, "thread1"), "thread1 didn't acquire.");
    let mut attempt1 = start(&mut sema);
    assert!(!attempt1.poll(&mut sema, "attempt1"));
    assert_eq!(attempt1.abandon(&mut sema), None);
    assert_eq!(sema.waiter_count(), 0);
    let mut attempt2 = start(&mut sema);
    assert!(!attempt2.poll(&mut sema, "attempt2"));
    assert_eq!(sema.release_and_notify(), Some("attempt2"));
    assert!(attempt2.poll(&mut sema, "attempt2"), "thread2 didn't acquire.");
}

#[test]
fn capacity_is_conserved_over_a_sequence() {
    let mut sema: SemState<u32> = SemState::new(3);
    let mut out: usize = 0;
    for round in 0..5u32 {
        if sema.try_claim() {
            out += 1;
        }
        assert_eq!(sema.available_permits() + out, 3);
        if round % 2 == 1 && out > 0 {
            sema.release_and_notify();
            out -= 1;
        }
        assert_eq!(sema.available_permits() + out, 3);
    }
    assert_eq!(out, 3);
    assert!(!sema.try_claim());
    assert_eq!(sema.total_permits(), 3);
}

#[test]
fn single_permit_is_exclusive() {
    let mut sema: SemState<u32> = SemState::new(1);
    assert!(sema.try_claim());
    assert!(!sema.try_claim());
    assert_eq!(sema.available_permits(), 0);
    sema.release_and_notify();
    assert!(sema.try_claim());
}

#[test]
fn waiters_resume_in_arrival_order() {
    let mut sema: SemState<&'static str> = SemState::new(1);
    assert!(sema.try_claim());
    let mut a = start(&mut sema);
    let mut b = start(&mut sema);
    let mut c = start(&mut sema);
    assert!(!a.poll(&mut sema, "a"));
    assert!(!b.poll(&mut sema, "b"));
    assert!(!c.poll(&mut sema, "c"));
    assert_eq!(sema.release_and_notify(), Some("a"));
    assert!(a.poll(&mut sema, "a"));
    assert_eq!(sema.release_and_notify(), Some("b"));
    assert!(b.poll(&mut sema, "b"));
    assert_eq!(sema.release_and_notify(), Some("c"));
    assert!(c.poll(&mut sema, "c"));
    assert_eq!(sema.release_and_notify(), None);
}

#[test]
fn repoll_keeps_place_in_queue() {
    let mut sema: SemState<&'static str> = SemState::new(1);
    assert!(sema.try_claim());
    let mut a = start(&mut sema);
    let mut b = start(&mut sema);
    assert!(!a.poll(&mut sema, "a-first"));
    assert!(!b.poll(&mut sema, "b"));
    assert!(!a.poll(&mut sema, "a-second"));
    assert_eq!(sema.waiter_count(), 2);
    assert_eq!(sema.release_and_notify(), Some("a-second"));
}

#[test]
fn release_before_poll_is_not_missed() {
    let mut sema: SemState<&'static str> = SemState::new(1);
    assert!(sema.try_claim());
    let mut w = start(&mut sema);
    assert_eq!(sema.release_and_notify(), None);
    assert!(w.poll(&mut sema, "w"));
}

#[test]
fn poll_before_release_is_woken() {
    let mut sema: SemState<&'static str> = SemState::new(1);
    assert!(sema.try_claim());
    let mut w = start(&mut sema);
    assert!(!w.poll(&mut sema, "w"));
    assert!(sema.is_waiting(w.ticket()));
    assert_eq!(sema.release_and_notify(), Some("w"));
    assert!(!sema.is_waiting(w.ticket()));
}

#[test]
fn release_without_waiters_returns_one_unit() {
    let mut sema: SemState<u32> = SemState::new(2);
    assert!(sema.try_claim());
    assert!(sema.try_claim());
    assert_eq!(sema.available_permits(), 0);
    assert_eq!(sema.release_and_notify(), None);
    assert_eq!(sema.available_permits(), 1);
    assert_eq!(sema.waiter_count(), 0);
}

#[test]
fn second_thread_acquires_after_release() {
    let mut sema: SemState<&'static str> = SemState::new(1);
    let mut t1 = start(&mut sema);
    let mut t2 = start(&mut sema);
    assert!(t1.poll(&mut sema, "thread1"));
    assert!(!t2.poll(&mut sema, "thread2"));
    assert_eq!(t2.phase(), Phase::Suspended);
    assert_eq!(sema.release_and_notify(), Some("thread2"));
    assert!(t2.poll(&mut sema, "thread2"));
    assert_eq!(t2.phase(), Phase::Granted);
}

#[test]
fn abandoned_wakeup_passes_to_next_waiter() {
    let mut sema: SemState<&'static str> = SemState::new(1);
    assert!(sema.try_claim());
    let mut a = start(&mut sema);
    let mut b = start(&mut sema);
    assert!(!a.poll(&mut sema, "a"));
    assert!(!b.poll(&mut sema, "b"));
    assert_eq!(sema.release_and_notify(), Some("a"));
    assert_eq!(a.abandon(&mut sema), Some("b"));
    assert_eq!(sema.available_permits(), 1);
    assert!(b.poll(&mut sema, "b"));
}

#[test]
fn abandoning_while_queued_removes_entry() {
    let mut sema: SemState<&'static str> = SemState::new(1);
    assert!(sema.try_claim());
    let mut a = start(&mut sema);
    let mut b = start(&mut sema);
    assert!(!a.poll(&mut sema, "a"));
    assert!(!b.poll(&mut sema, "b"));
    assert_eq!(a.abandon(&mut sema), None);
    assert_eq!(sema.waiter_count(), 1);
    assert_eq!(sema.release_and_notify(), Some("b"));
}

#[test]
fn zero_permits_never_grant() {
    let mut sema: SemState<u32> = SemState::new(0);
    assert!(!sema.try_claim());
    let mut a = Acquisition::start(&mut sema).expect("tickets left");
    assert_eq!(a.phase(), Phase::Unpolled);
    assert!(!a.poll(&mut sema, 1));
    assert_eq!(sema.waiter_count(), 1);
}

#[test]
fn tickets_are_fresh_and_enqueue_appends() {
    let mut sema: SemState<u32> = SemState::new(1);
    assert_eq!(sema.issue_ticket(), Some(0));
    assert_eq!(sema.issue_ticket(), Some(1));
    assert!(sema.try_claim());
    sema.enqueue(1, 10);
    sema.enqueue(0, 20);
    assert_eq!(sema.release_and_notify(), Some(10));
    assert_eq!(sema.cancel(0), None);
    assert_eq!(sema.waiter_count(), 0);
}

#[test]
fn only_handed_out_tickets_count_as_issued() {
    let mut sema: SemState<u32> = SemState::new(1);
    assert!(!sema.was_issued(0));
    let a = Acquisition::start(&mut sema).expect("tickets left");
    assert_eq!(a.ticket(), 0);
    assert!(sema.was_issued(0));
    assert!(!sema.was_issued(1));
}
