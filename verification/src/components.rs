//! The per-layer component records of the layer tree.
//!
//! Every created layer is either a container (it has a
//! `LayerContainerInfo`) or a surface (it has a `LayerSurfaceInfo`),
//! never both. A layer that has been attached somewhere additionally has
//! a `LayerTreeInfo`; bounds live in an optional `LayerGeometryInfo`
//! that reads as the zero rectangle while absent.

use crate::geometry::Rect;
use crate::layer_map::LayerId;
use crate::layer_map::LayerMap;
use crate::surface::SurfaceOptions;
use vstd::prelude::*;

verus! {

/// Where an attached layer hangs: under another layer, or anchored to an
/// externally owned presentation surface (a window).
#[derive(Clone, Copy, PartialEq, Eq, Structural, Debug)]
pub enum LayerParent {
    Layer(LayerId),
    NativeHost,
}

/// Tree linkage of an attached layer: its parent and its two neighbours
/// in the parent's sibling list.
#[derive(Clone, Copy, PartialEq, Eq, Structural, Debug)]
pub struct LayerTreeInfo {
    pub parent: LayerParent,
    pub prev_sibling: Option<LayerId>,
    pub next_sibling: Option<LayerId>,
}

/// The child list of a container layer: both ends of its doubly linked
/// sibling list.
#[derive(Clone, Copy, PartialEq, Eq, Structural, Debug)]
pub struct LayerContainerInfo {
    pub first_child: Option<LayerId>,
    pub last_child: Option<LayerId>,
}

/// The parent-relative bounds of a layer.
#[derive(Clone, Copy, PartialEq, Eq, Structural, Debug)]
pub struct LayerGeometryInfo {
    pub bounds: Rect,
}

/// The flags of a surface layer.
#[derive(Clone, Copy, PartialEq, Eq, Structural, Debug)]
pub struct LayerSurfaceInfo {
    pub options: SurfaceOptions,
}

/// Whether every stored bounds rectangle stays within the coordinate
/// limit. The context keeps this true; damage walks rely on it.
pub open spec fn spec_geometry_in_range(geometry: LayerMap<LayerGeometryInfo>) -> bool {
    forall|id: LayerId|
        (#[trigger] geometry.spec_get(id)) matches Some(g) ==> g.bounds.spec_in_range(
            crate::geometry::COORD_LIMIT as int,
        )
}

/// The bounds stored for a layer, or the zero rectangle while absent.
pub open spec fn spec_bounds_of(geometry: LayerMap<LayerGeometryInfo>, id: LayerId) -> Rect {
    match geometry.spec_get(id) {
        Some(g) => g.bounds,
        None => Rect { x: 0, y: 0, width: 0, height: 0 },
    }
}

} // verus!
