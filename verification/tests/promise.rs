use planeshift::promise::{AllProgress, AllStep, Promise, Registration};

#[test]
fn new_promise_is_pending() {
    let p: Promise<u32, u32> = Promise::new();
    assert!(p.is_pending());
    assert!(!p.is_resolved());
    assert!(!p.is_rejected());
}

#[test]
fn pending_registration_enqueues() {
    let mut p: Promise<u32, u32> = Promise::new();
    assert!(matches!(p.when_resolved(1), Registration::Enqueued));
    assert!(matches!(p.or_else(2), Registration::Enqueued));
    assert!(p.is_pending());
}

#[test]
fn resolve_delivers_queued_continuations_once_in_order() {
    let mut p: Promise<u32, u32> = Promise::new();
    let _ = p.when_resolved(10);
    let _ = p.when_resolved(11);
    let _ = p.when_resolved(12);
    let drained = p.resolve(99);
    assert_eq!(drained, vec![10, 11, 12]);
    assert!(p.is_resolved());
    assert_eq!(*p.resolved_value(), 99);
    // The queue was drained: nothing is waiting any more, and a second
    // delivery cannot happen because the promise is no longer pending.
    assert!(!p.is_pending());
}

#[test]
fn registration_after_resolution_runs_immediately() {
    let mut p: Promise<u32, u32> = Promise::new();
    let drained = p.resolve(7);
    assert!(drained.is_empty());
    match p.when_resolved(42) {
        Registration::RunNow(c) => {
            // Run the continuation now, synchronously, with the stored
            // value.
            assert_eq!(c, 42);
            assert_eq!(*p.resolved_value(), 7);
        }
        _ => panic!("expected immediate execution"),
    }
}

#[test]
fn rejection_drains_rejection_queue_and_discards_fulfillments() {
    let mut p: Promise<u32, u32> = Promise::new();
    let _ = p.when_resolved(1);
    let _ = p.or_else(2);
    let _ = p.or_else(3);
    let drained = p.reject();
    assert_eq!(drained, vec![2, 3]);
    assert!(p.is_rejected());
    // A fulfillment continuation registered on a rejected promise is
    // handed back unused.
    assert!(matches!(p.when_resolved(4), Registration::Discarded(4)));
    // A rejection continuation registered late runs immediately.
    assert!(matches!(p.or_else(5), Registration::RunNow(5)));
}

#[test]
fn fulfillment_on_rejected_and_rejection_on_resolved_are_discarded() {
    let mut p: Promise<u32, u32> = Promise::new();
    let _ = p.resolve(1);
    assert!(matches!(p.or_else(9), Registration::Discarded(9)));
}

#[test]
fn gathering_awaits_each_promise_in_order_then_finishes_once() {
    let mut g: AllProgress<u32> = AllProgress::new(3);
    assert!(matches!(g.next_step(), AllStep::Pending(0)));
    g.record(10);
    assert!(matches!(g.next_step(), AllStep::Pending(1)));
    g.record(11);
    g.record(12);
    match g.next_step() {
        AllStep::Finished(v) => assert_eq!(v, vec![10, 11, 12]),
        AllStep::Pending(_) => panic!("all results arrived"),
    }
    assert!(g.results.is_empty());
}

#[test]
fn gathering_nothing_finishes_immediately() {
    let mut g: AllProgress<u32> = AllProgress::new(0);
    match g.next_step() {
        AllStep::Finished(v) => assert!(v.is_empty()),
        AllStep::Pending(_) => panic!("nothing was awaited"),
    }
}
