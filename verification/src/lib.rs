//! A layer-compositing core: an entity-component layer tree, a nested
//! transaction protocol, a one-shot completion promise, and a software
//! compositor that turns the tree into an ordered list of draw commands
//! with damage tracking.

pub mod alternate;
pub mod backend;
pub mod components;
pub mod compositor;
pub mod context;
pub mod geometry;
pub mod layer_map;
pub mod plan;
pub mod promise;
pub mod surface;

pub use backend::Backend;
pub use backend::Connection;
pub use backend::ConnectionError;
pub use backend::GLAPI;
pub use backend::GLContextLayerBinding;
pub use components::LayerContainerInfo;
pub use context::LayerContext;
pub use components::LayerGeometryInfo;
pub use components::LayerParent;
pub use components::LayerSurfaceInfo;
pub use components::LayerTreeInfo;
pub use geometry::Rect;
pub use layer_map::LayerId;
pub use layer_map::LayerMap;
pub use promise::Promise;
pub use surface::SurfaceOptions;
