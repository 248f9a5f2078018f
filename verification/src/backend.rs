//! The backend contract the core depends on.
//!
//! Every presentation mechanism implements this trait; the context only
//! ever calls through it and never branches on which backend is active.
//! The commit hook receives the transaction's promise and resolves it,
//! handing back the drained continuations together with whatever render
//! work the caller must carry out.

use crate::components::LayerContainerInfo;
use crate::components::LayerGeometryInfo;
use crate::components::LayerSurfaceInfo;
use crate::components::LayerTreeInfo;
use crate::components::spec_geometry_in_range;
use crate::geometry::Rect;
use crate::layer_map::LayerId;
use crate::layer_map::LayerMap;
use crate::plan::RenderPlan;
use crate::promise::Promise;
use crate::promise::spec_resolve;
use crate::surface::SurfaceOptions;
use vstd::prelude::*;

verus! {

/// Which OpenGL API a backend's contexts expose.
#[derive(Clone, Copy, PartialEq, Eq, Structural, Debug)]
pub enum GLAPI {
    GL,
    GLES,
}

/// A layer bound to a GL context for rendering: the framebuffer to
/// render the layer's content into.
#[derive(Clone, Copy, PartialEq, Eq, Structural, Debug)]
pub struct GLContextLayerBinding {
    pub layer: LayerId,
    pub framebuffer: u32,
}

/// How a context reaches its backend: a native connection value of the
/// backend's choosing.
pub enum Connection<N> {
    Native(N),
}

/// Failure to construct a backend from a connection.
#[derive(Debug)]
pub struct ConnectionError {}

impl ConnectionError {
    /// A fresh connection error.
    pub fn new() -> (r: ConnectionError) {
        ConnectionError {  }
    }
}

/// What a commit hands back to the caller: render work to carry out and
/// the continuations drained from the transaction's promise, to be run
/// now, in registration order.
pub struct CommitOutcome<L> {
    pub plans: Vec<RenderPlan>,
    pub resolved: Vec<L>,
}

/// The contract every presentation mechanism satisfies. The context
/// forwards each structural change to these hooks with read-only views
/// of the component maps; at the close of the outermost transaction the
/// commit hook resolves the transaction's promise.
pub trait Backend: Sized {
    type NativeConnection;

    type GLContext;

    type NativeGLContext;

    type Host;

    type Listener;

    /// Constructs the backend from a connection.
    fn new(connection: Connection<Self::NativeConnection>) -> Result<Self, ConnectionError>;

    /// Creates a GL context able to render surfaces with the options.
    fn create_gl_context(&mut self, surface_options: SurfaceOptions) -> Result<
        Self::GLContext,
        (),
    >;

    /// Wraps an externally created native GL context.
    fn wrap_gl_context(&mut self, native_gl_context: Self::NativeGLContext) -> Result<
        Self::GLContext,
        (),
    >;

    /// Which GL API the backend's contexts expose.
    fn gl_api(&self) -> GLAPI;

    /// Called when the outermost transaction opens.
    fn begin_transaction(&self);

    /// Commits the outermost transaction: resolves the promise, handing
    /// its queued continuations back through the outcome, and returns
    /// the render work the caller must carry out.
    fn end_transaction(
        &mut self,
        promise: &mut Promise<(), Self::Listener>,
        tree_component: &LayerMap<LayerTreeInfo>,
        container_component: &LayerMap<LayerContainerInfo>,
        geometry_component: &LayerMap<LayerGeometryInfo>,
        surface_component: &LayerMap<LayerSurfaceInfo>,
    ) -> (out: CommitOutcome<Self::Listener>)
        requires
            old(promise)@.result is Pending,
            spec_geometry_in_range(*geometry_component),
        ensures
            (final(promise)@, out.resolved@) == spec_resolve(old(promise)@, ()),
    ;

    /// A container layer was created.
    fn add_container_layer(&mut self, new_layer: LayerId);

    /// A surface layer was created.
    fn add_surface_layer(&mut self, new_layer: LayerId);

    /// A detached layer was deleted.
    fn delete_layer(&mut self, layer: LayerId);

    /// `new_child` was linked under `parent`, before `reference` (or at
    /// the end when `reference` is `None`).
    fn insert_before(
        &mut self,
        parent: LayerId,
        new_child: LayerId,
        reference: Option<LayerId>,
        tree_component: &LayerMap<LayerTreeInfo>,
        container_component: &LayerMap<LayerContainerInfo>,
        geometry_component: &LayerMap<LayerGeometryInfo>,
    )
        requires
            spec_geometry_in_range(*geometry_component),
    ;

    /// `layer` is about to be unlinked from `parent`; the tree map no
    /// longer carries its linkage.
    fn remove_from_superlayer(
        &mut self,
        layer: LayerId,
        parent: LayerId,
        tree_component: &LayerMap<LayerTreeInfo>,
        geometry_component: &LayerMap<LayerGeometryInfo>,
    )
        requires
            spec_geometry_in_range(*geometry_component),
    ;

    /// `layer` was anchored under an externally owned presentation
    /// surface.
    fn host_layer(
        &mut self,
        layer: LayerId,
        host: Self::Host,
        tree_component: &LayerMap<LayerTreeInfo>,
        container_component: &LayerMap<LayerContainerInfo>,
        geometry_component: &LayerMap<LayerGeometryInfo>,
    );

    /// A hosted layer was detached from its presentation surface.
    fn unhost_layer(&mut self, layer: LayerId);

    /// `layer`'s bounds were replaced; `old_bounds` is the previous
    /// rectangle, for damage deltas.
    fn set_layer_bounds(
        &mut self,
        layer: LayerId,
        old_bounds: &Rect,
        tree_component: &LayerMap<LayerTreeInfo>,
        container_component: &LayerMap<LayerContainerInfo>,
        geometry_component: &LayerMap<LayerGeometryInfo>,
    )
        requires
            spec_geometry_in_range(*geometry_component),
            old_bounds.spec_in_range(crate::geometry::COORD_LIMIT as int),
    ;

    /// `layer`'s surface options were replaced.
    fn set_layer_surface_options(
        &mut self,
        layer: LayerId,
        surface_component: &LayerMap<LayerSurfaceInfo>,
    );

    /// Binds a surface layer to a GL context for rendering and returns
    /// the framebuffer to render into.
    fn bind_layer_to_gl_context(
        &mut self,
        layer: LayerId,
        context: &mut Self::GLContext,
        geometry_component: &LayerMap<LayerGeometryInfo>,
        surface_component: &LayerMap<LayerSurfaceInfo>,
    ) -> Result<GLContextLayerBinding, ()>;

    /// The bound layer's content changed over `changed_rect`.
    fn present_gl_context(
        &mut self,
        binding: GLContextLayerBinding,
        changed_rect: &Rect,
        tree_component: &LayerMap<LayerTreeInfo>,
        geometry_component: &LayerMap<LayerGeometryInfo>,
    ) -> Result<(), ()>
        requires
            spec_geometry_in_range(*geometry_component),
            changed_rect.spec_in_range(crate::geometry::COORD_LIMIT as int),
    ;

    /// The screen-space bounding box a screenshot of the hosted layer
    /// should capture; the caller schedules the read after the
    /// transaction's promise resolves.
    fn screenshot_hosted_layer(
        &mut self,
        layer: LayerId,
        tree_component: &LayerMap<LayerTreeInfo>,
        container_component: &LayerMap<LayerContainerInfo>,
        geometry_component: &LayerMap<LayerGeometryInfo>,
        surface_component: &LayerMap<LayerSurfaceInfo>,
    ) -> Rect
        requires
            spec_geometry_in_range(*geometry_component),
    ;

    /// Anchors a layer under the backend's own window, where it has one.
    fn host_layer_in_window(
        &mut self,
        layer: LayerId,
        tree_component: &LayerMap<LayerTreeInfo>,
        container_component: &LayerMap<LayerContainerInfo>,
        geometry_component: &LayerMap<LayerGeometryInfo>,
    ) -> Result<(), ()>;
}

} // verus!
