//! A backend over two backends: whichever of the two was constructed
//! handles every call. More than two can be chained by nesting.

use crate::backend::Backend;
use crate::backend::CommitOutcome;
use crate::backend::Connection;
use crate::backend::ConnectionError;
use crate::backend::GLAPI;
use crate::backend::GLContextLayerBinding;
use crate::components::LayerContainerInfo;
use crate::components::LayerGeometryInfo;
use crate::components::LayerSurfaceInfo;
use crate::components::LayerTreeInfo;
use crate::geometry::Rect;
use crate::layer_map::LayerId;
use crate::layer_map::LayerMap;
use crate::promise::Promise;
use crate::surface::SurfaceOptions;
use vstd::prelude::*;

verus! {

/// The composite backend: one of the two inner backends.
pub enum AltBackend<A, B> where A: Backend, B: Backend {
    A(A),
    B(B),
}

/// A native connection for the composite: one for either inner backend.
pub enum NativeConnection<A, B> where A: Backend, B: Backend {
    A(A::NativeConnection),
    B(B::NativeConnection),
}

/// A GL context of the composite.
pub enum GLContext<A, B> where A: Backend, B: Backend {
    A(A::GLContext),
    B(B::GLContext),
}

/// A native GL context of the composite.
pub enum NativeGLContext<A, B> where A: Backend, B: Backend {
    A(A::NativeGLContext),
    B(B::NativeGLContext),
}

/// A host of the composite.
pub enum Host<A, B> where A: Backend, B: Backend {
    A(A::Host),
    B(B::Host),
}

impl<A, B> Backend for AltBackend<A, B> where
    A: Backend,
    B: Backend<Listener = A::Listener>,
 {
    type NativeConnection = NativeConnection<A, B>;

    type GLContext = GLContext<A, B>;

    type NativeGLContext = NativeGLContext<A, B>;

    type Host = Host<A, B>;

    type Listener = A::Listener;

    fn new(connection: Connection<NativeConnection<A, B>>) -> (r: Result<Self, ConnectionError>)
        ensures
            match connection {
                Connection::Native(NativeConnection::A(_)) => r matches Ok(b) ==> b is A,
                Connection::Native(NativeConnection::B(_)) => r matches Ok(b) ==> b is B,
            },
    {
        match connection {
            Connection::Native(NativeConnection::A(native_connection)) => {
                match A::new(Connection::Native(native_connection)) {
                    Ok(backend) => Ok(AltBackend::A(backend)),
                    Err(e) => Err(e),
                }
            }
            Connection::Native(NativeConnection::B(native_connection)) => {
                match B::new(Connection::Native(native_connection)) {
                    Ok(backend) => Ok(AltBackend::B(backend)),
                    Err(e) => Err(e),
                }
            }
        }
    }

    fn create_gl_context(&mut self, surface_options: SurfaceOptions) -> Result<
        GLContext<A, B>,
        (),
    > {
        match self {
            AltBackend::A(this) => match this.create_gl_context(surface_options) {
                Ok(c) => Ok(GLContext::A(c)),
                Err(e) => Err(e),
            },
            AltBackend::B(this) => match this.create_gl_context(surface_options) {
                Ok(c) => Ok(GLContext::B(c)),
                Err(e) => Err(e),
            },
        }
    }

    fn wrap_gl_context(&mut self, native_gl_context: NativeGLContext<A, B>) -> Result<
        GLContext<A, B>,
        (),
    > {
        match self {
            AltBackend::A(this) => match native_gl_context {
                NativeGLContext::A(native) => match this.wrap_gl_context(native) {
                    Ok(c) => Ok(GLContext::A(c)),
                    Err(e) => Err(e),
                },
                NativeGLContext::B(_) => Err(()),
            },
            AltBackend::B(this) => match native_gl_context {
                NativeGLContext::B(native) => match this.wrap_gl_context(native) {
                    Ok(c) => Ok(GLContext::B(c)),
                    Err(e) => Err(e),
                },
                NativeGLContext::A(_) => Err(()),
            },
        }
    }

    fn gl_api(&self) -> GLAPI {
        match self {
            AltBackend::A(this) => this.gl_api(),
            AltBackend::B(this) => this.gl_api(),
        }
    }

    fn begin_transaction(&self) {
        match self {
            AltBackend::A(this) => this.begin_transaction(),
            AltBackend::B(this) => this.begin_transaction(),
        }
    }

    fn end_transaction(
        &mut self,
        promise: &mut Promise<(), A::Listener>,
        tree_component: &LayerMap<LayerTreeInfo>,
        container_component: &LayerMap<LayerContainerInfo>,
        geometry_component: &LayerMap<LayerGeometryInfo>,
        surface_component: &LayerMap<LayerSurfaceInfo>,
    ) -> CommitOutcome<A::Listener> {
        match self {
            AltBackend::A(this) => this.end_transaction(
                promise,
                tree_component,
                container_component,
                geometry_component,
                surface_component,
            ),
            AltBackend::B(this) => this.end_transaction(
                promise,
                tree_component,
                container_component,
                geometry_component,
                surface_component,
            ),
        }
    }

    fn add_container_layer(&mut self, new_layer: LayerId) {
        match self {
            AltBackend::A(this) => this.add_container_layer(new_layer),
            AltBackend::B(this) => this.add_container_layer(new_layer),
        }
    }

    fn add_surface_layer(&mut self, new_layer: LayerId) {
        match self {
            AltBackend::A(this) => this.add_surface_layer(new_layer),
            AltBackend::B(this) => this.add_surface_layer(new_layer),
        }
    }

    fn delete_layer(&mut self, layer: LayerId) {
        match self {
            AltBackend::A(this) => this.delete_layer(layer),
            AltBackend::B(this) => this.delete_layer(layer),
        }
    }

    fn insert_before(
        &mut self,
        parent: LayerId,
        new_child: LayerId,
        reference: Option<LayerId>,
        tree_component: &LayerMap<LayerTreeInfo>,
        container_component: &LayerMap<LayerContainerInfo>,
        geometry_component: &LayerMap<LayerGeometryInfo>,
    ) {
        match self {
            AltBackend::A(this) => this.insert_before(
                parent,
                new_child,
                reference,
                tree_component,
                container_component,
                geometry_component,
            ),
            AltBackend::B(this) => this.insert_before(
                parent,
                new_child,
                reference,
                tree_component,
                container_component,
                geometry_component,
            ),
        }
    }

    fn remove_from_superlayer(
        &mut self,
        layer: LayerId,
        parent: LayerId,
        tree_component: &LayerMap<LayerTreeInfo>,
        geometry_component: &LayerMap<LayerGeometryInfo>,
    ) {
        match self {
            AltBackend::A(this) => this.remove_from_superlayer(
                layer,
                parent,
                tree_component,
                geometry_component,
            ),
            AltBackend::B(this) => this.remove_from_superlayer(
                layer,
                parent,
                tree_component,
                geometry_component,
            ),
        }
    }

    fn host_layer(
        &mut self,
        layer: LayerId,
        host: Host<A, B>,
        tree_component: &LayerMap<LayerTreeInfo>,
        container_component: &LayerMap<LayerContainerInfo>,
        geometry_component: &LayerMap<LayerGeometryInfo>,
    ) {
        match self {
            AltBackend::A(this) => match host {
                Host::A(h) => this.host_layer(
                    layer,
                    h,
                    tree_component,
                    container_component,
                    geometry_component,
                ),
                Host::B(_) => {}
            },
            AltBackend::B(this) => match host {
                Host::B(h) => this.host_layer(
                    layer,
                    h,
                    tree_component,
                    container_component,
                    geometry_component,
                ),
                Host::A(_) => {}
            },
        }
    }

    fn unhost_layer(&mut self, layer: LayerId) {
        match self {
            AltBackend::A(this) => this.unhost_layer(layer),
            AltBackend::B(this) => this.unhost_layer(layer),
        }
    }

    fn set_layer_bounds(
        &mut self,
        layer: LayerId,
        old_bounds: &Rect,
        tree_component: &LayerMap<LayerTreeInfo>,
        container_component: &LayerMap<LayerContainerInfo>,
        geometry_component: &LayerMap<LayerGeometryInfo>,
    ) {
        match self {
            AltBackend::A(this) => this.set_layer_bounds(
                layer,
                old_bounds,
                tree_component,
                container_component,
                geometry_component,
            ),
            AltBackend::B(this) => this.set_layer_bounds(
                layer,
                old_bounds,
                tree_component,
                container_component,
                geometry_component,
            ),
        }
    }

    fn set_layer_surface_options(
        &mut self,
        layer: LayerId,
        surface_component: &LayerMap<LayerSurfaceInfo>,
    ) {
        match self {
            AltBackend::A(this) => this.set_layer_surface_options(layer, surface_component),
            AltBackend::B(this) => this.set_layer_surface_options(layer, surface_component),
        }
    }

    fn bind_layer_to_gl_context(
        &mut self,
        layer: LayerId,
        context: &mut GLContext<A, B>,
        geometry_component: &LayerMap<LayerGeometryInfo>,
        surface_component: &LayerMap<LayerSurfaceInfo>,
    ) -> Result<GLContextLayerBinding, ()> {
        match self {
            AltBackend::A(this) => match context {
                GLContext::A(c) => this.bind_layer_to_gl_context(
                    layer,
                    c,
                    geometry_component,
                    surface_component,
                ),
                GLContext::B(_) => Err(()),
            },
            AltBackend::B(this) => match context {
                GLContext::B(c) => this.bind_layer_to_gl_context(
                    layer,
                    c,
                    geometry_component,
                    surface_component,
                ),
                GLContext::A(_) => Err(()),
            },
        }
    }

    fn present_gl_context(
        &mut self,
        binding: GLContextLayerBinding,
        changed_rect: &Rect,
        tree_component: &LayerMap<LayerTreeInfo>,
        geometry_component: &LayerMap<LayerGeometryInfo>,
    ) -> Result<(), ()> {
        match self {
            AltBackend::A(this) => this.present_gl_context(
                binding,
                changed_rect,
                tree_component,
                geometry_component,
            ),
            AltBackend::B(this) => this.present_gl_context(
                binding,
                changed_rect,
                tree_component,
                geometry_component,
            ),
        }
    }

    fn screenshot_hosted_layer(
        &mut self,
        layer: LayerId,
        tree_component: &LayerMap<LayerTreeInfo>,
        container_component: &LayerMap<LayerContainerInfo>,
        geometry_component: &LayerMap<LayerGeometryInfo>,
        surface_component: &LayerMap<LayerSurfaceInfo>,
    ) -> Rect {
        match self {
            AltBackend::A(this) => this.screenshot_hosted_layer(
                layer,
                tree_component,
                container_component,
                geometry_component,
                surface_component,
            ),
            AltBackend::B(this) => this.screenshot_hosted_layer(
                layer,
                tree_component,
                container_component,
                geometry_component,
                surface_component,
            ),
        }
    }

    fn host_layer_in_window(
        &mut self,
        layer: LayerId,
        tree_component: &LayerMap<LayerTreeInfo>,
        container_component: &LayerMap<LayerContainerInfo>,
        geometry_component: &LayerMap<LayerGeometryInfo>,
    ) -> Result<(), ()> {
        match self {
            AltBackend::A(this) => this.host_layer_in_window(
                layer,
                tree_component,
                container_component,
                geometry_component,
            ),
            AltBackend::B(this) => this.host_layer_in_window(
                layer,
                tree_component,
                container_component,
                geometry_component,
            ),
        }
    }
}

} // verus!
