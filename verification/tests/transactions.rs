use planeshift::backend::Connection;
use planeshift::compositor::SoftwareBackend;
use planeshift::context::{EndOutcome, LayerContext};

type Ctx = LayerContext<SoftwareBackend<u32>>;

#[test]
fn nested_transactions_commit_only_at_the_outermost_close() {
    let mut c = Ctx::new(Connection::Native(())).unwrap();
    c.begin_transaction();
    c.begin_transaction();
    c.begin_transaction();
    // Two of three closes stay open: the backend's commit never fires.
    assert!(matches!(c.end_transaction(), EndOutcome::StillOpen));
    assert!(matches!(c.end_transaction(), EndOutcome::StillOpen));
    // The third close commits and resolves the transaction's promise.
    match c.end_transaction() {
        EndOutcome::Committed(outcome, promise) => {
            assert!(promise.is_resolved());
            assert!(outcome.plans.is_empty());
            assert!(outcome.resolved.is_empty());
        }
        EndOutcome::StillOpen => panic!("outermost close must commit"),
    }
    assert!(!c.in_transaction());
}

#[test]
fn commit_delivers_registered_listeners_in_order() {
    let mut c = Ctx::new(Connection::Native(())).unwrap();
    c.begin_transaction();
    c.when_committed(5);
    c.begin_transaction();
    c.when_committed(6);
    assert!(matches!(c.end_transaction(), EndOutcome::StillOpen));
    c.when_committed(7);
    match c.end_transaction() {
        EndOutcome::Committed(outcome, promise) => {
            assert_eq!(outcome.resolved, vec![5, 6, 7]);
            assert!(promise.is_resolved());
        }
        EndOutcome::StillOpen => panic!("outermost close must commit"),
    }
}

#[test]
fn each_transaction_gets_a_fresh_promise() {
    let mut c = Ctx::new(Connection::Native(())).unwrap();
    c.begin_transaction();
    c.when_committed(1);
    match c.end_transaction() {
        EndOutcome::Committed(outcome, _) => assert_eq!(outcome.resolved, vec![1]),
        EndOutcome::StillOpen => panic!("must commit"),
    }
    c.begin_transaction();
    match c.end_transaction() {
        EndOutcome::Committed(outcome, promise) => {
            assert!(outcome.resolved.is_empty());
            assert!(promise.is_resolved());
        }
        EndOutcome::StillOpen => panic!("must commit"),
    }
}
