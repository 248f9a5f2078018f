use planeshift::alternate::{AltBackend, NativeConnection, NativeGLContext};
use planeshift::backend::{Backend, Connection, GLAPI};
use planeshift::compositor::SoftwareBackend;
use planeshift::context::{EndOutcome, LayerContext};

type Soft = SoftwareBackend<u32>;
type Alt = AltBackend<Soft, Soft>;

#[test]
fn composite_constructs_the_selected_backend() {
    let a = Alt::new(Connection::Native(NativeConnection::A(()))).unwrap();
    assert!(matches!(a, AltBackend::A(_)));
    assert_eq!(a.gl_api(), GLAPI::GL);
    let b = Alt::new(Connection::Native(NativeConnection::B(()))).unwrap();
    assert!(matches!(b, AltBackend::B(_)));
}

#[test]
fn composite_rejects_mismatched_native_gl_context() {
    let mut a = Alt::new(Connection::Native(NativeConnection::A(()))).unwrap();
    assert!(a.wrap_gl_context(NativeGLContext::B(())).is_err());
    assert!(a.wrap_gl_context(NativeGLContext::A(())).is_ok());
}

#[test]
fn context_over_composite_commits_through_inner_backend() {
    let mut c: LayerContext<Alt> =
        LayerContext::with_backend_connection(Connection::Native(NativeConnection::A(())))
            .unwrap();
    c.begin_transaction();
    let root = c.add_container_layer();
    c.host_layer_in_window(root).unwrap();
    c.when_committed(3);
    match c.end_transaction() {
        EndOutcome::Committed(outcome, promise) => {
            assert!(promise.is_resolved());
            assert_eq!(outcome.resolved, vec![3]);
        }
        EndOutcome::StillOpen => panic!("outermost close must commit"),
    }
}
