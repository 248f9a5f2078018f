//! The software compositor: the reference backend.
//!
//! It renders the layer tree itself: it tracks one pending damage
//! rectangle per hosted root, keeps a cached framebuffer per surface
//! layer, and turns each commit into a `RenderPlan` — the depth-ordered
//! opaque and back-to-front transparent draw lists the caller executes
//! with its GL connection. GPU objects appear here as surrogate handles;
//! the queued `GlAction`s tell the caller which objects to create and
//! release, each exactly once.

use crate::backend::Backend;
use crate::backend::CommitOutcome;
use crate::backend::Connection;
use crate::backend::ConnectionError;
use crate::backend::GLAPI;
use crate::backend::GLContextLayerBinding;
use crate::components::LayerContainerInfo;
use crate::components::LayerGeometryInfo;
use crate::components::LayerSurfaceInfo;
use crate::components::LayerTreeInfo;
use crate::components::LayerParent;
use crate::components::spec_bounds_of;
use crate::components::spec_geometry_in_range;
use crate::geometry::ACC_LIMIT;
use crate::geometry::COORD_LIMIT;
use crate::geometry::Rect;
use crate::geometry::spec_accumulate;
use crate::layer_map::LayerId;
use crate::layer_map::LayerMap;
use crate::plan::DrawCommand;
use crate::plan::PlanView;
use crate::plan::RenderPlan;
use crate::promise::Promise;
use crate::surface::SurfaceOptions;
use vstd::prelude::*;

verus! {

/// The cached framebuffer of a surface layer: a surrogate handle for
/// the GPU objects, the size it was made for, and whether it carries a
/// combined depth/stencil attachment.
#[derive(Clone, Copy, PartialEq, Eq, Structural, Debug)]
pub struct CachedFramebuffer {
    pub framebuffer: u32,
    pub width: i64,
    pub height: i64,
    pub depth_stencil: bool,
}

/// The compositor's own per-surface record: the cached framebuffer, if
/// one is live.
#[derive(Clone, Copy, PartialEq, Eq, Structural, Debug)]
pub struct LayerNativeInfo {
    pub framebuffer: Option<CachedFramebuffer>,
}

/// GPU work the caller must carry out, in queue order. Each handle is
/// allocated once and released once.
#[derive(Clone, Copy, PartialEq, Eq, Structural, Debug)]
pub enum GlAction {
    AllocateFramebuffer { framebuffer: u32, width: i64, height: i64, depth_stencil: bool },
    ReleaseFramebuffer { framebuffer: u32 },
}

/// One surface reached by the compositing traversal: its screen-space
/// rectangle and whether it is flagged opaque. Its position in the
/// visit sequence is its depth slot.
#[derive(Clone, Copy, PartialEq, Eq, Structural, Debug)]
pub struct SurfaceVisit {
    pub layer: LayerId,
    pub rect: Rect,
    pub opaque: bool,
}

/// The fuel a traversal of these tree components can need: enough for
/// every node and sibling step of any tree the id space can hold.
pub open spec fn spec_fuel(tree: LayerMap<LayerTreeInfo>) -> int {
    if tree.0@.len() > 0x1_0000_0000 {
        0x2_0000_0002
    } else {
        2 * (tree.0@.len() as int) + 2
    }
}

/// The cached framebuffer recorded for a layer, if any.
pub open spec fn spec_cached(native: LayerMap<LayerNativeInfo>, id: LayerId) -> Option<
    CachedFramebuffer,
> {
    match native.spec_get(id) {
        Some(ni) => ni.framebuffer,
        None => None,
    }
}

/// Where a damage rectangle in `layer`'s local space ends up: the walk
/// adds each layer's own origin while stepping to its parent, until it
/// reaches a layer anchored to the native host; a detached layer or an
/// exhausted walk records nothing.
pub open spec fn spec_propagate(
    tree: LayerMap<LayerTreeInfo>,
    geometry: LayerMap<LayerGeometryInfo>,
    layer: LayerId,
    rect: Rect,
    fuel: nat,
) -> Option<(LayerId, Rect)>
    decreases fuel,
{
    match tree.spec_get(layer) {
        None => None,
        Some(t) => match t.parent {
            LayerParent::NativeHost => Some((layer, rect)),
            LayerParent::Layer(p) => if fuel == 0 {
                None
            } else {
                let b = spec_bounds_of(geometry, layer);
                spec_propagate(
                    tree,
                    geometry,
                    p,
                    rect.spec_translate(b.x as int, b.y as int),
                    (fuel - 1) as nat,
                )
            },
        },
    }
}

/// One recording of damage at a hosted root: fresh damage starts the
/// pending rectangle, later damage is unioned into it. A pending entry
/// that is out of accumulation range (which recording never produces)
/// is replaced rather than unioned.
pub open spec fn spec_record_damage(acc: Option<Rect>, r: Rect) -> Option<Rect> {
    match acc {
        Some(d) => if d.spec_in_range(ACC_LIMIT as int) {
            Some(d.spec_union(r))
        } else {
            Some(r)
        },
        None => Some(r),
    }
}

/// Damage recording is order-independent: recording rectangle `a` then
/// `b` at a root leaves the same pending rectangle as `b` then `a`.
pub proof fn lemma_record_damage_order_independent(acc: Option<Rect>, a: Rect, b: Rect)
    requires
        a.spec_in_range(ACC_LIMIT as int),
        b.spec_in_range(ACC_LIMIT as int),
        acc matches Some(d) ==> d.spec_in_range(ACC_LIMIT as int),
    ensures
        spec_record_damage(spec_record_damage(acc, a), b) == spec_record_damage(
            spec_record_damage(acc, b),
            a,
        ),
{
    match acc {
        Some(d) => {
            crate::geometry::lemma_union_in_range(d, a, ACC_LIMIT as int);
            crate::geometry::lemma_union_in_range(d, b, ACC_LIMIT as int);
            crate::geometry::lemma_accumulate_order_independent(acc, a, b);
            assert(spec_record_damage(acc, a) == spec_accumulate(acc, a));
            assert(spec_record_damage(acc, b) == spec_accumulate(acc, b));
        }
        None => {
            crate::geometry::lemma_accumulate_order_independent(acc, a, b);
        }
    }
}

/// The pending damage stored for `id` after one damage walk whose
/// outcome was `hit`: the walk's rectangle is recorded at the root it
/// reached; every other id's pending damage is untouched, as is
/// everything when the walk recorded nothing.
pub open spec fn spec_damage_at(
    acc: Option<Rect>,
    id: LayerId,
    hit: Option<(LayerId, Rect)>,
) -> Option<Rect> {
    match hit {
        Some(pair) => if id == pair.0 {
            spec_record_damage(acc, pair.1)
        } else {
            acc
        },
        None => acc,
    }
}

/// Two damage walks leave the same pending damage in either order: the
/// hooks' dirty-state contracts are all stated over `spec_damage_at`,
/// so any two mutations' damage recordings commute pointwise.
pub proof fn lemma_damage_at_order_independent(
    acc: Option<Rect>,
    id: LayerId,
    first: Option<(LayerId, Rect)>,
    second: Option<(LayerId, Rect)>,
)
    requires
        acc matches Some(d) ==> d.spec_in_range(ACC_LIMIT as int),
        first matches Some(pair) ==> pair.1.spec_in_range(ACC_LIMIT as int),
        second matches Some(pair) ==> pair.1.spec_in_range(ACC_LIMIT as int),
    ensures
        spec_damage_at(spec_damage_at(acc, id, first), id, second) == spec_damage_at(
            spec_damage_at(acc, id, second),
            id,
            first,
        ),
{
    match (first, second) {
        (Some(a), Some(b)) => {
            if a.0 == id && b.0 == id {
                lemma_record_damage_order_independent(acc, a.1, b.1);
            }
        }
        _ => {}
    }
}

/// The outcome of the damage walk a mutation of `layer` triggers: where
/// a rectangle in `layer`'s local space lands, with the walk's standard
/// fuel.
pub open spec fn spec_damage_hit(
    tree: LayerMap<LayerTreeInfo>,
    geometry: LayerMap<LayerGeometryInfo>,
    layer: LayerId,
    rect: Rect,
) -> Option<(LayerId, Rect)> {
    spec_propagate(tree, geometry, layer, rect, spec_damage_fuel(tree) as nat)
}

/// The rectangle covering a layer's own extent at its local origin.
pub open spec fn spec_size_rect(geometry: LayerMap<LayerGeometryInfo>, layer: LayerId) -> Rect {
    let b = spec_bounds_of(geometry, layer);
    Rect { x: 0, y: 0, width: b.width, height: b.height }
}

/// The surfaces below one node in pre-order, with accumulated origins:
/// a container contributes nothing itself and recurses over its
/// children; any other node is a surface. `None` means the fuel ran out
/// before the walk finished.
pub open spec fn spec_collect_node(
    tree: LayerMap<LayerTreeInfo>,
    container: LayerMap<LayerContainerInfo>,
    geometry: LayerMap<LayerGeometryInfo>,
    surface: LayerMap<LayerSurfaceInfo>,
    layer: LayerId,
    ox: int,
    oy: int,
    fuel: nat,
) -> Option<Seq<SurfaceVisit>>
    decreases fuel, 1int,
{
    let b = spec_bounds_of(geometry, layer);
    match container.spec_get(layer) {
        Some(ci) => spec_collect_chain(
            tree,
            container,
            geometry,
            surface,
            ci.first_child,
            ox + b.x,
            oy + b.y,
            fuel,
        ),
        None => {
            let opaque = match surface.spec_get(layer) {
                Some(si) => si.options.opaque,
                None => false,
            };
            Some(
                seq![
                    SurfaceVisit {
                        layer,
                        rect: Rect {
                            x: (ox + b.x) as i64,
                            y: (oy + b.y) as i64,
                            width: b.width,
                            height: b.height,
                        },
                        opaque,
                    }
                ],
            )
        },
    }
}

/// The surfaces below a sibling chain, in order, following
/// `next_sibling` links.
pub open spec fn spec_collect_chain(
    tree: LayerMap<LayerTreeInfo>,
    container: LayerMap<LayerContainerInfo>,
    geometry: LayerMap<LayerGeometryInfo>,
    surface: LayerMap<LayerSurfaceInfo>,
    cur: Option<LayerId>,
    ox: int,
    oy: int,
    fuel: nat,
) -> Option<Seq<SurfaceVisit>>
    decreases fuel, 0int,
{
    match cur {
        None => Some(Seq::empty()),
        Some(k) => if fuel == 0 {
            None
        } else {
            let head = spec_collect_node(
                tree,
                container,
                geometry,
                surface,
                k,
                ox,
                oy,
                (fuel - 1) as nat,
            );
            let next = match tree.spec_get(k) {
                Some(t) => t.next_sibling,
                None => None,
            };
            let tail = spec_collect_chain(
                tree,
                container,
                geometry,
                surface,
                next,
                ox,
                oy,
                (fuel - 1) as nat,
            );
            match (head, tail) {
                (Some(a), Some(b)) => Some(a + b),
                _ => None,
            }
        },
    }
}

/// The opaque pass of a visit sequence: surfaces flagged opaque whose
/// layer has a cached framebuffer, in document order, each at its
/// pre-order depth slot.
pub open spec fn spec_opaque_cmds(s: Seq<SurfaceVisit>, native: LayerMap<LayerNativeInfo>) -> Seq<
    DrawCommand,
>
    decreases s.len(),
{
    if s.len() == 0 {
        Seq::empty()
    } else {
        let pre = spec_opaque_cmds(s.drop_last(), native);
        let v = s.last();
        match spec_cached(native, v.layer) {
            Some(fb) => if v.opaque {
                pre.push(
                    DrawCommand {
                        layer: v.layer,
                        framebuffer: fb.framebuffer,
                        rect: v.rect,
                        depth_slot: (s.len() - 1) as u64,
                    },
                )
            } else {
                pre
            },
            None => pre,
        }
    }
}

/// The transparent pass of a visit sequence: surfaces not flagged
/// opaque whose layer has a cached framebuffer, in reverse document
/// order (back to front), each at its pre-order depth slot.
pub open spec fn spec_transparent_cmds(
    s: Seq<SurfaceVisit>,
    native: LayerMap<LayerNativeInfo>,
) -> Seq<DrawCommand>
    decreases s.len(),
{
    if s.len() == 0 {
        Seq::empty()
    } else {
        let tail = spec_transparent_cmds(s.drop_last(), native);
        let v = s.last();
        match spec_cached(native, v.layer) {
            Some(fb) => if !v.opaque {
                seq![
                    DrawCommand {
                        layer: v.layer,
                        framebuffer: fb.framebuffer,
                        rect: v.rect,
                        depth_slot: (s.len() - 1) as u64,
                    }
                ] + tail
            } else {
                tail
            },
            None => tail,
        }
    }
}

/// The fuel a damage walk of these tree components can need: one step
/// per stored tree record.
pub open spec fn spec_damage_fuel(tree: LayerMap<LayerTreeInfo>) -> int {
    if tree.0@.len() > 0x1_0000_0000 {
        0x1_0000_0000
    } else {
        tree.0@.len() as int
    }
}

/// The pending damage stored at an id of a dirty state.
pub open spec fn spec_dirty_get(state: Seq<Option<Rect>>, id: LayerId) -> Option<Rect> {
    if id.0 < state.len() {
        state[id.0 as int]
    } else {
        None
    }
}

/// The dirty state with the entry of one id cleared.
pub open spec fn spec_dirty_clear(state: Seq<Option<Rect>>, id: LayerId) -> Seq<Option<Rect>> {
    if id.0 < state.len() {
        state.update(id.0 as int, None)
    } else {
        state
    }
}

/// The render plan of one hosted root with pending damage `d`: the
/// pre-order surface visits below it turned into the two passes. A
/// traversal that runs out of fuel contributes no draw commands.
pub open spec fn spec_plan_view(
    root: LayerId,
    d: Rect,
    tree: LayerMap<LayerTreeInfo>,
    container: LayerMap<LayerContainerInfo>,
    geometry: LayerMap<LayerGeometryInfo>,
    surface: LayerMap<LayerSurfaceInfo>,
    native: LayerMap<LayerNativeInfo>,
) -> PlanView {
    let visits = match spec_collect_node(
        tree,
        container,
        geometry,
        surface,
        root,
        0,
        0,
        spec_fuel(tree) as nat,
    ) {
        Some(v) => v,
        None => Seq::empty(),
    };
    PlanView {
        root,
        dirty: d,
        opaque: spec_opaque_cmds(visits, native),
        transparent: spec_transparent_cmds(visits, native),
    }
}

/// The plans a commit produces: one per hosted root with pending
/// damage, in hosting order, clearing each root's damage as it goes.
pub open spec fn spec_commit_plans(
    hosted: Seq<LayerId>,
    dirty: Seq<Option<Rect>>,
    tree: LayerMap<LayerTreeInfo>,
    container: LayerMap<LayerContainerInfo>,
    geometry: LayerMap<LayerGeometryInfo>,
    surface: LayerMap<LayerSurfaceInfo>,
    native: LayerMap<LayerNativeInfo>,
) -> Seq<PlanView>
    decreases hosted.len(),
{
    if hosted.len() == 0 {
        Seq::empty()
    } else {
        let root = hosted[0];
        let rest = hosted.drop_first();
        match spec_dirty_get(dirty, root) {
            Some(d) => seq![
                spec_plan_view(root, d, tree, container, geometry, surface, native)
            ] + spec_commit_plans(
                rest,
                spec_dirty_clear(dirty, root),
                tree,
                container,
                geometry,
                surface,
                native,
            ),
            None => spec_commit_plans(rest, dirty, tree, container, geometry, surface, native),
        }
    }
}

/// The accumulated screen-space box of a hosted layer: its size,
/// translated by its own origin and every ancestor's origin.
pub open spec fn spec_screenshot_walk(
    tree: LayerMap<LayerTreeInfo>,
    geometry: LayerMap<LayerGeometryInfo>,
    layer: LayerId,
    acc: Rect,
    fuel: nat,
) -> Rect
    decreases fuel,
{
    let b = spec_bounds_of(geometry, layer);
    let moved = acc.spec_translate(b.x as int, b.y as int);
    match tree.spec_get(layer) {
        Some(t) => match t.parent {
            LayerParent::Layer(p) => if fuel == 0 {
                moved
            } else {
                spec_screenshot_walk(tree, geometry, p, moved, (fuel - 1) as nat)
            },
            LayerParent::NativeHost => moved,
        },
        None => moved,
    }
}

/// The opaque pass is depth-ordered: commands appear in document order
/// with strictly increasing depth slots, all below the visit count, so
/// a later sibling draws in front of an earlier one.
pub proof fn lemma_opaque_cmds_depth_ordered(s: Seq<SurfaceVisit>, native: LayerMap<LayerNativeInfo>)
    requires
        s.len() <= u64::MAX,
    ensures
        forall|i: int|
            0 <= i < spec_opaque_cmds(s, native).len() ==> (#[trigger] spec_opaque_cmds(s, native)[i]).depth_slot
                < s.len(),
        forall|i: int, j: int|
            0 <= i < j < spec_opaque_cmds(s, native).len() ==> spec_opaque_cmds(s, native)[i].depth_slot
                < spec_opaque_cmds(s, native)[j].depth_slot,
    decreases s.len(),
{
    if s.len() > 0 {
        lemma_opaque_cmds_depth_ordered(s.drop_last(), native);
        let pre = spec_opaque_cmds(s.drop_last(), native);
        let cmds = spec_opaque_cmds(s, native);
        assert forall|i: int| 0 <= i < cmds.len() implies (#[trigger] cmds[i]).depth_slot
            < s.len() by {
            if i < pre.len() {
                assert(cmds[i] == pre[i]);
            }
        }
        assert forall|i: int, j: int|
            0 <= i < j < cmds.len() implies cmds[i].depth_slot < cmds[j].depth_slot by {
            if j < pre.len() {
                assert(cmds[i] == pre[i] && cmds[j] == pre[j]);
            } else {
                assert(cmds[i] == pre[i]);
                assert(pre[i].depth_slot < s.drop_last().len());
                assert(cmds[j] == cmds.last());
                assert(cmds[j].depth_slot == s.len() - 1);
            }
        }
    }
}

/// The transparent pass is back-to-front: commands appear in reverse
/// document order with strictly decreasing depth slots.
pub proof fn lemma_transparent_cmds_depth_ordered(
    s: Seq<SurfaceVisit>,
    native: LayerMap<LayerNativeInfo>,
)
    requires
        s.len() <= u64::MAX,
    ensures
        forall|i: int|
            0 <= i < spec_transparent_cmds(s, native).len() ==> (#[trigger] spec_transparent_cmds(
                s,
                native,
            )[i]).depth_slot < s.len(),
        forall|i: int, j: int|
            0 <= i < j < spec_transparent_cmds(s, native).len() ==> spec_transparent_cmds(
                s,
                native,
            )[i].depth_slot > spec_transparent_cmds(s, native)[j].depth_slot,
    decreases s.len(),
{
    if s.len() > 0 {
        lemma_transparent_cmds_depth_ordered(s.drop_last(), native);
        let tail = spec_transparent_cmds(s.drop_last(), native);
        let cmds = spec_transparent_cmds(s, native);
        let lead = cmds.len() - tail.len();
        assert forall|i: int| 0 <= i < cmds.len() implies (#[trigger] cmds[i]).depth_slot
            < s.len() by {
            if i >= lead {
                assert(cmds[i] == tail[i - lead]);
                assert(tail[i - lead].depth_slot < s.drop_last().len());
            }
        }
        assert forall|i: int, j: int|
            0 <= i < j < cmds.len() implies cmds[i].depth_slot > cmds[j].depth_slot by {
            if i >= lead {
                assert(cmds[i] == tail[i - lead] && cmds[j] == tail[j - lead]);
            } else {
                assert(cmds[j] == tail[j - lead]);
                assert(tail[j - lead].depth_slot < s.drop_last().len());
                assert(cmds[i] == cmds[0]);
                assert(cmds[i].depth_slot == s.len() - 1);
            }
        }
    }
}

/// The bounds stored for a layer, or the zero rectangle while absent.
fn bounds_of(geometry: &LayerMap<LayerGeometryInfo>, layer: LayerId) -> (r: Rect)
    ensures
        r == spec_bounds_of(*geometry, layer),
{
    match geometry.get(layer) {
        Some(g) => g.bounds,
        None => Rect::zero(),
    }
}

/// Walks a damage rectangle from a layer's local space up to its hosted
/// root.
fn propagate_damage(
    tree: &LayerMap<LayerTreeInfo>,
    geometry: &LayerMap<LayerGeometryInfo>,
    layer: LayerId,
    rect: Rect,
    fuel: u64,
) -> (r: Option<(LayerId, Rect)>)
    requires
        spec_geometry_in_range(*geometry),
        fuel <= 0x2_0000_0002,
        rect.spec_in_range(ACC_LIMIT as int - COORD_LIMIT as int * (fuel as int + 1)),
    ensures
        r == spec_propagate(*tree, *geometry, layer, rect, fuel as nat),
        r matches Some(pair) ==> pair.1.spec_in_range(ACC_LIMIT as int),
    decreases fuel,
{
    match tree.get(layer) {
        None => None,
        Some(t) => match t.parent {
            LayerParent::NativeHost => Some((layer, rect)),
            LayerParent::Layer(p) => {
                if fuel == 0 {
                    None
                } else {
                    let b = bounds_of(geometry, layer);
                    let moved = rect.translate(b.x, b.y);
                    propagate_damage(tree, geometry, p, moved, fuel - 1)
                }
            }
        },
    }
}

/// Collects the surfaces below one node in pre-order.
fn collect_node(
    tree: &LayerMap<LayerTreeInfo>,
    container: &LayerMap<LayerContainerInfo>,
    geometry: &LayerMap<LayerGeometryInfo>,
    surface: &LayerMap<LayerSurfaceInfo>,
    layer: LayerId,
    ox: i64,
    oy: i64,
    fuel: u64,
) -> (r: Option<Vec<SurfaceVisit>>)
    requires
        spec_geometry_in_range(*geometry),
        fuel <= 0x2_0000_0002,
        -(ACC_LIMIT as int) + COORD_LIMIT as int * (fuel as int + 1) <= ox as int,
        ox as int + COORD_LIMIT as int * (fuel as int + 1) <= ACC_LIMIT as int,
        -(ACC_LIMIT as int) + COORD_LIMIT as int * (fuel as int + 1) <= oy as int,
        oy as int + COORD_LIMIT as int * (fuel as int + 1) <= ACC_LIMIT as int,
    ensures
        match r {
            Some(v) => spec_collect_node(
                *tree,
                *container,
                *geometry,
                *surface,
                layer,
                ox as int,
                oy as int,
                fuel as nat,
            ) == Some(v@),
            None => spec_collect_node(
                *tree,
                *container,
                *geometry,
                *surface,
                layer,
                ox as int,
                oy as int,
                fuel as nat,
            ) is None,
        },
    decreases fuel, 1int,
{
    let b = bounds_of(geometry, layer);
    match container.get(layer) {
        Some(ci) => collect_chain(
            tree,
            container,
            geometry,
            surface,
            ci.first_child,
            ox + b.x,
            oy + b.y,
            fuel,
        ),
        None => {
            let opaque = match surface.get(layer) {
                Some(si) => si.options.opaque,
                None => false,
            };
            let mut v: Vec<SurfaceVisit> = Vec::new();
            v.push(
                SurfaceVisit {
                    layer,
                    rect: Rect { x: ox + b.x, y: oy + b.y, width: b.width, height: b.height },
                    opaque,
                },
            );
            Some(v)
        }
    }
}

/// Collects the surfaces below a sibling chain, in order.
fn collect_chain(
    tree: &LayerMap<LayerTreeInfo>,
    container: &LayerMap<LayerContainerInfo>,
    geometry: &LayerMap<LayerGeometryInfo>,
    surface: &LayerMap<LayerSurfaceInfo>,
    cur: Option<LayerId>,
    ox: i64,
    oy: i64,
    fuel: u64,
) -> (r: Option<Vec<SurfaceVisit>>)
    requires
        spec_geometry_in_range(*geometry),
        fuel <= 0x2_0000_0002,
        -(ACC_LIMIT as int) + COORD_LIMIT as int * (fuel as int) <= ox as int,
        ox as int + COORD_LIMIT as int * (fuel as int) <= ACC_LIMIT as int,
        -(ACC_LIMIT as int) + COORD_LIMIT as int * (fuel as int) <= oy as int,
        oy as int + COORD_LIMIT as int * (fuel as int) <= ACC_LIMIT as int,
    ensures
        match r {
            Some(v) => spec_collect_chain(
                *tree,
                *container,
                *geometry,
                *surface,
                cur,
                ox as int,
                oy as int,
                fuel as nat,
            ) == Some(v@),
            None => spec_collect_chain(
                *tree,
                *container,
                *geometry,
                *surface,
                cur,
                ox as int,
                oy as int,
                fuel as nat,
            ) is None,
        },
    decreases fuel, 0int,
{
    match cur {
        None => Some(Vec::new()),
        Some(k) => {
            if fuel == 0 {
                None
            } else {
                match collect_node(tree, container, geometry, surface, k, ox, oy, fuel - 1) {
                    None => None,
                    Some(mut a) => {
                        let next = match tree.get(k) {
                            Some(t) => t.next_sibling,
                            None => None,
                        };
                        match collect_chain(tree, container, geometry, surface, next, ox, oy, fuel
                            - 1) {
                            None => None,
                            Some(mut b) => {
                                a.append(&mut b);
                                Some(a)
                            }
                        }
                    }
                }
            }
        }
    }
}

/// Builds the opaque pass of a visit sequence.
fn build_opaque_cmds(visits: &Vec<SurfaceVisit>, native: &LayerMap<LayerNativeInfo>) -> (r: Vec<
    DrawCommand,
>)
    ensures
        r@ == spec_opaque_cmds(visits@, *native),
{
    let mut r: Vec<DrawCommand> = Vec::new();
    let mut i: usize = 0;
    while i < visits.len()
        invariant
            0 <= i <= visits@.len(),
            r@ == spec_opaque_cmds(visits@.take(i as int), *native),
        decreases visits@.len() - i,
    {
        let v = visits[i];
        if v.opaque {
            match native.get(v.layer) {
                Some(ni) => match &ni.framebuffer {
                    Some(fb) => {
                        r.push(
                            DrawCommand {
                                layer: v.layer,
                                framebuffer: fb.framebuffer,
                                rect: v.rect,
                                depth_slot: i as u64,
                            },
                        );
                    }
                    None => {}
                },
                None => {}
            }
        }
        proof {
            assert(visits@.take(i + 1).drop_last() =~= visits@.take(i as int));
            assert(visits@.take(i + 1).last() == visits@[i as int]);
        }
        i = i + 1;
    }
    proof {
        assert(visits@.take(visits@.len() as int) =~= visits@);
    }
    r
}

/// Builds the transparent pass of a visit sequence, back to front.
fn build_transparent_cmds(visits: &Vec<SurfaceVisit>, native: &LayerMap<LayerNativeInfo>) -> (r:
    Vec<DrawCommand>)
    ensures
        r@ == spec_transparent_cmds(visits@, *native),
{
    let mut r: Vec<DrawCommand> = Vec::new();
    let mut k: usize = visits.len();
    proof {
        assert(visits@.take(visits@.len() as int) =~= visits@);
    }
    while k > 0
        invariant
            0 <= k <= visits@.len(),
            spec_transparent_cmds(visits@, *native) == r@ + spec_transparent_cmds(
                visits@.take(k as int),
                *native,
            ),
        decreases k,
    {
        let v = visits[k - 1];
        proof {
            assert(visits@.take(k as int).drop_last() =~= visits@.take(k - 1));
            assert(visits@.take(k as int).last() == visits@[k - 1]);
        }
        if !v.opaque {
            match native.get(v.layer) {
                Some(ni) => match &ni.framebuffer {
                    Some(fb) => {
                        r.push(
                            DrawCommand {
                                layer: v.layer,
                                framebuffer: fb.framebuffer,
                                rect: v.rect,
                                depth_slot: (k - 1) as u64,
                            },
                        );
                    }
                    None => {}
                },
                None => {}
            }
        }
        k = k - 1;
    }
    proof {
        assert(visits@.take(0) =~= Seq::<SurfaceVisit>::empty());
        assert(r@ + spec_transparent_cmds(visits@.take(0), *native) =~= r@);
    }
    r
}

/// The fuel a traversal of these tree components can need.
fn traversal_fuel(tree: &LayerMap<LayerTreeInfo>) -> (r: u64)
    ensures
        r as int == spec_fuel(*tree),
        r <= 0x2_0000_0002,
{
    let l = tree.0.len() as u64;
    if l > 0x1_0000_0000 {
        0x2_0000_0002
    } else {
        2 * l + 2
    }
}

/// The fuel a damage walk of these tree components can need.
fn damage_fuel(tree: &LayerMap<LayerTreeInfo>) -> (r: u64)
    ensures
        r as int == spec_damage_fuel(*tree),
        r <= 0x1_0000_0000,
{
    let l = tree.0.len() as u64;
    if l > 0x1_0000_0000 {
        0x1_0000_0000
    } else {
        l
    }
}

/// How one bind call changes the compositor: the cached framebuffer is
/// reused while its size still matches the layer's bounds; otherwise a
/// release for the stale one and an allocation sized to the current
/// bounds are queued and a fresh handle is cached. A layer the
/// compositor does not know as a surface, or an exhausted handle space,
/// fails and changes nothing.
pub open spec fn spec_bind_transition<L>(
    pre: SoftwareBackend<L>,
    post: SoftwareBackend<L>,
    layer: LayerId,
    geometry: LayerMap<LayerGeometryInfo>,
    surface: LayerMap<LayerSurfaceInfo>,
    r: Result<GLContextLayerBinding, ()>,
) -> bool {
    let b = spec_bounds_of(geometry, layer);
    let ds = match surface.spec_get(layer) {
        Some(si) => si.options.depth || si.options.stencil,
        None => false,
    };
    match pre.native_component.spec_get(layer) {
        None => r is Err && post == pre,
        Some(ni) => {
            if ni.framebuffer matches Some(fb) && fb.width == b.width && fb.height == b.height {
                &&& r == Ok::<GLContextLayerBinding, ()>(
                    GLContextLayerBinding {
                        layer,
                        framebuffer: ni.framebuffer->Some_0.framebuffer,
                    },
                )
                &&& post == pre
            } else if pre.next_handle == u32::MAX {
                r is Err && post == pre
            } else {
                &&& r == Ok::<GLContextLayerBinding, ()>(
                    GLContextLayerBinding { layer, framebuffer: pre.next_handle },
                )
                &&& post.native_component.spec_get(layer) == Some(
                    LayerNativeInfo {
                        framebuffer: Some(
                            CachedFramebuffer {
                                framebuffer: pre.next_handle,
                                width: b.width,
                                height: b.height,
                                depth_stencil: ds,
                            },
                        ),
                    },
                )
                &&& forall|id: LayerId|
                    id != layer ==> #[trigger] post.native_component.spec_get(id)
                        == pre.native_component.spec_get(id)
                &&& post.next_handle == pre.next_handle + 1
                &&& post.pending_actions@ == pre.pending_actions@ + (match ni.framebuffer {
                    Some(fb) => seq![
                        GlAction::ReleaseFramebuffer { framebuffer: fb.framebuffer }
                    ],
                    None => Seq::empty(),
                }).push(
                    GlAction::AllocateFramebuffer {
                        framebuffer: pre.next_handle,
                        width: b.width,
                        height: b.height,
                        depth_stencil: ds,
                    },
                )
                &&& post.hosted == pre.hosted
                &&& post.dirty == pre.dirty
            }
        },
    }
}

/// The software compositor. It consumes the component maps the context
/// hands to its hooks, keeps its own per-surface framebuffer cache and
/// per-host pending damage, and emits render plans and GPU actions for
/// the caller to carry out.
pub struct SoftwareBackend<L> {
    /// Per-surface cached framebuffers.
    pub native_component: LayerMap<LayerNativeInfo>,
    /// The hosted roots, in hosting order, each at most once.
    pub hosted: Vec<LayerId>,
    /// Pending damage per hosted root, in the root's local space.
    pub dirty: LayerMap<Rect>,
    /// GPU work queued for the caller, in order.
    pub pending_actions: Vec<GlAction>,
    /// The next surrogate framebuffer handle to hand out.
    pub next_handle: u32,
    /// The transaction-listener type this backend is used with.
    pub listener: core::marker::PhantomData<L>,
}

impl<L> SoftwareBackend<L> {
    /// Records damage at a hosted root: fresh damage starts the pending
    /// rectangle, later damage is unioned into it.
    fn record_damage(&mut self, root: LayerId, rect: Rect)
        requires
            rect.spec_in_range(ACC_LIMIT as int),
        ensures
            final(self).dirty.spec_get(root) == spec_record_damage(
                old(self).dirty.spec_get(root),
                rect,
            ),
            forall|id: LayerId|
                id != root ==> #[trigger] final(self).dirty.spec_get(id) == old(
                    self,
                ).dirty.spec_get(id),
            final(self).native_component == old(self).native_component,
            final(self).hosted == old(self).hosted,
            final(self).pending_actions == old(self).pending_actions,
            final(self).next_handle == old(self).next_handle,
    {
        let updated = match self.dirty.get(root) {
            Some(d) => {
                if d.in_acc_range() {
                    d.union(&rect)
                } else {
                    rect
                }
            }
            None => rect,
        };
        if self.dirty.has(root) {
            self.dirty.set(root, updated);
        } else {
            self.dirty.add(root, updated);
        }
    }

    /// Walks a damage rectangle in `layer`'s local space up to its
    /// hosted root and records it there; damage under a detached
    /// subtree records nothing.
    fn invalidate_layer(
        &mut self,
        layer: LayerId,
        rect: Rect,
        tree: &LayerMap<LayerTreeInfo>,
        geometry: &LayerMap<LayerGeometryInfo>,
    )
        requires
            spec_geometry_in_range(*geometry),
            rect.spec_in_range(2 * COORD_LIMIT as int),
        ensures
            forall|id: LayerId|
                #[trigger] final(self).dirty.spec_get(id) == spec_damage_at(
                    old(self).dirty.spec_get(id),
                    id,
                    spec_damage_hit(*tree, *geometry, layer, rect),
                ),
            final(self).native_component == old(self).native_component,
            final(self).hosted == old(self).hosted,
            final(self).pending_actions == old(self).pending_actions,
            final(self).next_handle == old(self).next_handle,
    {
        let fuel = damage_fuel(tree);
        match propagate_damage(tree, geometry, layer, rect, fuel) {
            None => {}
            Some((root, moved)) => {
                self.record_damage(root, moved);
            }
        }
    }

    /// Whether a layer is among the hosted roots.
    fn hosted_contains(&self, layer: LayerId) -> (r: bool)
        ensures
            r == self.hosted@.contains(layer),
    {
        let mut i: usize = 0;
        while i < self.hosted.len()
            invariant
                0 <= i <= self.hosted@.len(),
                forall|j: int| 0 <= j < i ==> self.hosted@[j] != layer,
            decreases self.hosted@.len() - i,
        {
            if self.hosted[i] == layer {
                return true;
            }
            i = i + 1;
        }
        false
    }

    /// Binds a surface layer for rendering: reuses the cached
    /// framebuffer while its size still matches the layer's bounds,
    /// otherwise releases it and allocates a fresh one sized to the
    /// current bounds, with a depth/stencil attachment when the surface
    /// options ask for one. Fails on a layer the compositor does not
    /// know as a surface, or when the handle space is exhausted.
    pub fn bind_layer(
        &mut self,
        layer: LayerId,
        geometry: &LayerMap<LayerGeometryInfo>,
        surface: &LayerMap<LayerSurfaceInfo>,
    ) -> (r: Result<GLContextLayerBinding, ()>)
        ensures
            spec_bind_transition(*old(self), *final(self), layer, *geometry, *surface, r),
    {
        let b = bounds_of(geometry, layer);
        let ds = match surface.get(layer) {
            Some(si) => si.options.depth || si.options.stencil,
            None => false,
        };
        let cached: Option<CachedFramebuffer> = match self.native_component.get(layer) {
            Some(ni) => ni.framebuffer,
            None => {
                return Err(());
            }
        };
        match cached {
            Some(fb) if fb.width == b.width && fb.height == b.height => {
                Ok(GLContextLayerBinding { layer, framebuffer: fb.framebuffer })
            }
            _ => {
                if self.next_handle == u32::MAX {
                    return Err(());
                }
                let handle = self.next_handle;
                self.next_handle = handle + 1;
                match cached {
                    Some(fb) => {
                        self.pending_actions.push(
                            GlAction::ReleaseFramebuffer { framebuffer: fb.framebuffer },
                        );
                    }
                    None => {}
                }
                self.pending_actions.push(
                    GlAction::AllocateFramebuffer {
                        framebuffer: handle,
                        width: b.width,
                        height: b.height,
                        depth_stencil: ds,
                    },
                );
                self.native_component.set(
                    layer,
                    LayerNativeInfo {
                        framebuffer: Some(
                            CachedFramebuffer {
                                framebuffer: handle,
                                width: b.width,
                                height: b.height,
                                depth_stencil: ds,
                            },
                        ),
                    },
                );
                proof {
                    assert(self.pending_actions@ =~= old(self).pending_actions@ + (match cached {
                        Some(fb) => seq![
                            GlAction::ReleaseFramebuffer { framebuffer: fb.framebuffer }
                        ],
                        None => Seq::empty(),
                    }).push(
                        GlAction::AllocateFramebuffer {
                            framebuffer: handle,
                            width: b.width,
                            height: b.height,
                            depth_stencil: ds,
                        },
                    ));
                }
                Ok(GLContextLayerBinding { layer, framebuffer: handle })
            }
        }
    }

    /// Commits the tree: turns every hosted root with pending damage
    /// into a render plan, in hosting order, and clears the damage.
    pub fn commit(
        &mut self,
        tree: &LayerMap<LayerTreeInfo>,
        container: &LayerMap<LayerContainerInfo>,
        geometry: &LayerMap<LayerGeometryInfo>,
        surface: &LayerMap<LayerSurfaceInfo>,
    ) -> (plans: Vec<RenderPlan>)
        requires
            spec_geometry_in_range(*geometry),
        ensures
            plans@.map_values(|p: RenderPlan| p@) == spec_commit_plans(
                old(self).hosted@,
                old(self).dirty.0@,
                *tree,
                *container,
                *geometry,
                *surface,
                old(self).native_component,
            ),
            forall|id: LayerId|
                old(self).hosted@.contains(id) ==> #[trigger] final(self).dirty.spec_get(
                    id,
                ) is None,
            forall|id: LayerId|
                !old(self).hosted@.contains(id) ==> #[trigger] final(self).dirty.spec_get(id)
                    == old(self).dirty.spec_get(id),
            final(self).hosted == old(self).hosted,
            final(self).native_component == old(self).native_component,
            final(self).pending_actions == old(self).pending_actions,
            final(self).next_handle == old(self).next_handle,
    {
        let fuel = traversal_fuel(tree);
        let mut plans: Vec<RenderPlan> = Vec::new();
        let mut i: usize = 0;
        proof {
            assert(self.hosted@.skip(0) =~= self.hosted@);
            assert(plans@.map_values(|p: RenderPlan| p@) =~= Seq::<PlanView>::empty());
            assert(Seq::<PlanView>::empty() + spec_commit_plans(
                old(self).hosted@,
                old(self).dirty.0@,
                *tree,
                *container,
                *geometry,
                *surface,
                old(self).native_component,
            ) =~= spec_commit_plans(
                old(self).hosted@,
                old(self).dirty.0@,
                *tree,
                *container,
                *geometry,
                *surface,
                old(self).native_component,
            ));
        }
        while i < self.hosted.len()
            invariant
                0 <= i <= self.hosted@.len(),
                self.hosted == old(self).hosted,
                self.native_component == old(self).native_component,
                self.pending_actions == old(self).pending_actions,
                self.next_handle == old(self).next_handle,
                spec_geometry_in_range(*geometry),
                fuel as int == spec_fuel(*tree),
                fuel <= 0x2_0000_0002,
                spec_commit_plans(
                    old(self).hosted@,
                    old(self).dirty.0@,
                    *tree,
                    *container,
                    *geometry,
                    *surface,
                    old(self).native_component,
                ) == plans@.map_values(|p: RenderPlan| p@) + spec_commit_plans(
                    self.hosted@.skip(i as int),
                    self.dirty.0@,
                    *tree,
                    *container,
                    *geometry,
                    *surface,
                    old(self).native_component,
                ),
                forall|id: LayerId|
                    self.hosted@.take(i as int).contains(id) ==> #[trigger] self.dirty.spec_get(
                        id,
                    ) is None,
                forall|id: LayerId|
                    !self.hosted@.take(i as int).contains(id) ==> #[trigger] self.dirty.spec_get(
                        id,
                    ) == old(self).dirty.spec_get(id),
            decreases self.hosted@.len() - i,
        {
            let root = self.hosted[i];
            let ghost pre_state = self.dirty.0@;
            let ghost pre_views = plans@.map_values(|p: RenderPlan| p@);
            let ghost spec_all = spec_commit_plans(
                old(self).hosted@,
                old(self).dirty.0@,
                *tree,
                *container,
                *geometry,
                *surface,
                old(self).native_component,
            );
            if self.dirty.has(root) {
                let d = *self.dirty.get(root).unwrap();
                let visits = match collect_node(tree, container, geometry, surface, root, 0, 0, fuel) {
                    Some(v) => v,
                    None => Vec::new(),
                };
                let opaque = build_opaque_cmds(&visits, &self.native_component);
                let transparent = build_transparent_cmds(&visits, &self.native_component);
                let ghost old_plans = plans@;
                plans.push(RenderPlan { root, dirty: d, opaque, transparent });
                proof {
                    assert(plans@.map_values(|p: RenderPlan| p@) =~= pre_views.push(
                        spec_plan_view(
                            root,
                            d,
                            *tree,
                            *container,
                            *geometry,
                            *surface,
                            old(self).native_component,
                        ),
                    ));
                }
            }
            self.dirty.remove_if_present(root);
            proof {
                let s_i = self.hosted@.skip(i as int);
                let s_next = self.hosted@.skip(i + 1);
                assert(s_i[0] == root);
                assert(s_i.drop_first() =~= s_next);
                assert(self.dirty.0@ == (if (root.0 as int) < pre_state.len() {
                    pre_state.update(root.0 as int, None)
                } else {
                    pre_state
                }));
                assert(self.dirty.0@ == spec_dirty_clear(pre_state, root));
                let rest_pre = spec_commit_plans(
                    s_i,
                    pre_state,
                    *tree,
                    *container,
                    *geometry,
                    *surface,
                    old(self).native_component,
                );
                let rest_next = spec_commit_plans(
                    s_next,
                    self.dirty.0@,
                    *tree,
                    *container,
                    *geometry,
                    *surface,
                    old(self).native_component,
                );
                match spec_dirty_get(pre_state, root) {
                    Some(d0) => {
                        assert(rest_pre == seq![
                            spec_plan_view(
                                root,
                                d0,
                                *tree,
                                *container,
                                *geometry,
                                *surface,
                                old(self).native_component,
                            )
                        ] + spec_commit_plans(
                            s_next,
                            spec_dirty_clear(pre_state, root),
                            *tree,
                            *container,
                            *geometry,
                            *surface,
                            old(self).native_component,
                        ));
                        assert(spec_all =~= plans@.map_values(|p: RenderPlan| p@) + rest_next) by {
                            assert(spec_all == pre_views + rest_pre);
                            assert(plans@.map_values(|p: RenderPlan| p@) =~= pre_views.push(
                                spec_plan_view(
                                    root,
                                    d0,
                                    *tree,
                                    *container,
                                    *geometry,
                                    *surface,
                                    old(self).native_component,
                                ),
                            ));
                        }
                    }
                    None => {
                        assert(rest_pre == spec_commit_plans(
                            s_next,
                            pre_state,
                            *tree,
                            *container,
                            *geometry,
                            *surface,
                            old(self).native_component,
                        ));
                        assert(self.dirty.0@ =~= pre_state);
                        assert(spec_all == plans@.map_values(|p: RenderPlan| p@) + rest_next);
                    }
                }
                assert(self.hosted@.take(i + 1) =~= self.hosted@.take(i as int).push(root));
                assert forall|id: LayerId|
                    self.hosted@.take(i + 1).contains(id) implies #[trigger] self.dirty.spec_get(
                    id,
                ) is None by {
                    if id != root {
                        let j = choose|j: int|
                            0 <= j < self.hosted@.take(i + 1).len() && #[trigger] self.hosted@.take(
                                i + 1,
                            )[j] == id;
                        assert(self.hosted@.take(i as int)[j] == id);
                        assert(self.hosted@.take(i as int).contains(id));
                    }
                }
                assert forall|id: LayerId|
                    !self.hosted@.take(i + 1).contains(id) implies #[trigger] self.dirty.spec_get(
                    id,
                ) == old(self).dirty.spec_get(id) by {
                    assert(self.hosted@.take(i + 1)[i as int] == root);
                    assert(id != root);
                    if self.hosted@.take(i as int).contains(id) {
                        let j = choose|j: int|
                            0 <= j < self.hosted@.take(i as int).len() && #[trigger] self.hosted@.take(
                                i as int,
                            )[j] == id;
                        assert(self.hosted@.take(i + 1)[j] == id);
                        assert(false);
                    }
                }
            }
            i = i + 1;
        }
        proof {
            assert(self.hosted@.skip(self.hosted@.len() as int) =~= Seq::<LayerId>::empty());
            assert(self.hosted@.take(self.hosted@.len() as int) =~= self.hosted@);
            assert(plans@.map_values(|p: RenderPlan| p@) + Seq::<PlanView>::empty()
                =~= plans@.map_values(|p: RenderPlan| p@));
            assert forall|id: LayerId|
                old(self).hosted@.contains(id) implies #[trigger] self.dirty.spec_get(
                id,
            ) is None by {
                assert(self.hosted@.take(self.hosted@.len() as int).contains(id));
            }
        }
        plans
    }

    /// Adds a root to the hosted list if it is not yet there.
    fn host_root(&mut self, layer: LayerId)
        ensures
            old(self).hosted@.contains(layer) ==> *final(self) == *old(self),
            !old(self).hosted@.contains(layer) ==> {
                &&& final(self).hosted@ == old(self).hosted@.push(layer)
                &&& final(self).native_component == old(self).native_component
                &&& final(self).dirty == old(self).dirty
                &&& final(self).pending_actions == old(self).pending_actions
                &&& final(self).next_handle == old(self).next_handle
            },
    {
        if !self.hosted_contains(layer) {
            self.hosted.push(layer);
        }
    }

    /// Removes a root from the hosted list (its first occurrence) and
    /// drops its pending damage.
    fn unhost_root(&mut self, layer: LayerId)
        ensures
            final(self).hosted@ == old(self).hosted@.remove_value(layer),
            final(self).dirty.spec_get(layer) is None,
            forall|id: LayerId|
                id != layer ==> #[trigger] final(self).dirty.spec_get(id) == old(
                    self,
                ).dirty.spec_get(id),
            final(self).native_component == old(self).native_component,
            final(self).pending_actions == old(self).pending_actions,
            final(self).next_handle == old(self).next_handle,
    {
        let mut i: usize = 0;
        let mut found: Option<usize> = None;
        while i < self.hosted.len()
            invariant
                0 <= i <= self.hosted@.len(),
                match found {
                    Some(idx) => 0 <= idx < i && self.hosted@[idx as int] == layer && (forall|
                        j: int,
                    |
                        0 <= j < idx ==> self.hosted@[j] != layer),
                    None => forall|j: int| 0 <= j < i ==> self.hosted@[j] != layer,
                },
            decreases self.hosted@.len() - i,
        {
            if found.is_none() && self.hosted[i] == layer {
                found = Some(i);
            }
            i = i + 1;
        }
        proof {
            self.hosted@.index_of_first_ensures(layer);
        }
        match found {
            Some(idx) => {
                let _ = self.hosted.remove(idx);
                proof {
                    assert(old(self).hosted@.index_of_first(layer) == Some(idx as int));
                }
            }
            None => {
                proof {
                    assert(!old(self).hosted@.contains(layer)) by {
                        if old(self).hosted@.contains(layer) {
                            let j = choose|j: int|
                                0 <= j < old(self).hosted@.len() && #[trigger] old(
                                    self,
                                ).hosted@[j] == layer;
                            assert(false);
                        }
                    }
                }
            }
        }
        self.dirty.remove_if_present(layer);
    }

    /// The screen-space box a screenshot of the layer should capture:
    /// the layer's size, translated by its own origin and the origin of
    /// every ancestor up to its hosted root.
    pub fn screenshot_bounds(
        &self,
        layer: LayerId,
        tree: &LayerMap<LayerTreeInfo>,
        geometry: &LayerMap<LayerGeometryInfo>,
    ) -> (r: Rect)
        requires
            spec_geometry_in_range(*geometry),
        ensures
            ({
                let b = spec_bounds_of(*geometry, layer);
                r == spec_screenshot_walk(
                    *tree,
                    *geometry,
                    layer,
                    Rect { x: 0, y: 0, width: b.width, height: b.height },
                    spec_damage_fuel(*tree) as nat,
                )
            }),
            r.spec_in_range(ACC_LIMIT as int),
    {
        let b = bounds_of(geometry, layer);
        let acc = Rect { x: 0, y: 0, width: b.width, height: b.height };
        let fuel = damage_fuel(tree);
        screenshot_walk(tree, geometry, layer, acc, fuel)
    }

    /// Drains the queued GPU work for the caller to carry out.
    pub fn take_pending_actions(&mut self) -> (r: Vec<GlAction>)
        ensures
            r == old(self).pending_actions,
            final(self).pending_actions@ == Seq::<GlAction>::empty(),
            final(self).native_component == old(self).native_component,
            final(self).hosted == old(self).hosted,
            final(self).dirty == old(self).dirty,
            final(self).next_handle == old(self).next_handle,
    {
        let mut r: Vec<GlAction> = Vec::new();
        core::mem::swap(&mut r, &mut self.pending_actions);
        r
    }
}

/// Walks a screen-space box from a layer up through its ancestors,
/// adding each layer's own origin.
fn screenshot_walk(
    tree: &LayerMap<LayerTreeInfo>,
    geometry: &LayerMap<LayerGeometryInfo>,
    layer: LayerId,
    acc: Rect,
    fuel: u64,
) -> (r: Rect)
    requires
        spec_geometry_in_range(*geometry),
        fuel <= 0x1_0000_0000,
        acc.spec_in_range(ACC_LIMIT as int - COORD_LIMIT as int * (fuel as int + 1)),
    ensures
        r == spec_screenshot_walk(*tree, *geometry, layer, acc, fuel as nat),
        r.spec_in_range(ACC_LIMIT as int),
    decreases fuel,
{
    let b = bounds_of(geometry, layer);
    let moved = acc.translate(b.x, b.y);
    match tree.get(layer) {
        Some(t) => match t.parent {
            LayerParent::Layer(p) => {
                if fuel == 0 {
                    moved
                } else {
                    screenshot_walk(tree, geometry, p, moved, fuel - 1)
                }
            }
            LayerParent::NativeHost => moved,
        },
        None => moved,
    }
}

impl<L> Backend for SoftwareBackend<L> {
    type NativeConnection = ();

    type GLContext = ();

    type NativeGLContext = ();

    type Host = ();

    type Listener = L;

    fn new(connection: Connection<()>) -> (r: Result<Self, ConnectionError>)
        ensures
            r matches Ok(b) && {
                &&& forall|id: LayerId| #[trigger] b.native_component.spec_get(id) is None
                &&& b.hosted@ == Seq::<LayerId>::empty()
                &&& forall|id: LayerId| #[trigger] b.dirty.spec_get(id) is None
                &&& b.pending_actions@ == Seq::<GlAction>::empty()
                &&& b.next_handle == 1
            },
    {
        let Connection::Native(_) = connection;
        Ok(
            SoftwareBackend {
                native_component: LayerMap::new(),
                hosted: Vec::new(),
                dirty: LayerMap::new(),
                pending_actions: Vec::new(),
                next_handle: 1,
                listener: core::marker::PhantomData,
            },
        )
    }

    fn create_gl_context(&mut self, surface_options: SurfaceOptions) -> (r: Result<(), ()>)
        ensures
            r == Ok::<(), ()>(()),
            *final(self) == *old(self),
    {
        let _ = surface_options;
        Ok(())
    }

    fn wrap_gl_context(&mut self, native_gl_context: ()) -> (r: Result<(), ()>)
        ensures
            r == Ok::<(), ()>(()),
            *final(self) == *old(self),
    {
        let _ = native_gl_context;
        Ok(())
    }

    fn gl_api(&self) -> (r: GLAPI)
        ensures
            r == GLAPI::GL,
    {
        GLAPI::GL
    }

    fn begin_transaction(&self) {
    }

    fn end_transaction(
        &mut self,
        promise: &mut Promise<(), L>,
        tree_component: &LayerMap<LayerTreeInfo>,
        container_component: &LayerMap<LayerContainerInfo>,
        geometry_component: &LayerMap<LayerGeometryInfo>,
        surface_component: &LayerMap<LayerSurfaceInfo>,
    ) -> (out: CommitOutcome<L>)
        ensures
            out.plans@.map_values(|p: RenderPlan| p@) == spec_commit_plans(
                old(self).hosted@,
                old(self).dirty.0@,
                *tree_component,
                *container_component,
                *geometry_component,
                *surface_component,
                old(self).native_component,
            ),
            forall|id: LayerId|
                old(self).hosted@.contains(id) ==> #[trigger] final(self).dirty.spec_get(
                    id,
                ) is None,
            forall|id: LayerId|
                !old(self).hosted@.contains(id) ==> #[trigger] final(self).dirty.spec_get(id)
                    == old(self).dirty.spec_get(id),
            final(self).hosted == old(self).hosted,
            final(self).native_component == old(self).native_component,
            final(self).pending_actions == old(self).pending_actions,
            final(self).next_handle == old(self).next_handle,
    {
        let plans = self.commit(
            tree_component,
            container_component,
            geometry_component,
            surface_component,
        );
        let resolved = promise.resolve(());
        CommitOutcome { plans, resolved }
    }

    fn add_container_layer(&mut self, new_layer: LayerId)
        ensures
            *final(self) == *old(self),
    {
        let _ = new_layer;
    }

    fn add_surface_layer(&mut self, new_layer: LayerId)
        ensures
            old(self).native_component.spec_has(new_layer) ==> *final(self) == *old(self),
            !old(self).native_component.spec_has(new_layer) ==> {
                &&& final(self).native_component.spec_get(new_layer) == Some(
                    LayerNativeInfo { framebuffer: None },
                )
                &&& forall|id: LayerId|
                    id != new_layer ==> #[trigger] final(self).native_component.spec_get(id)
                        == old(self).native_component.spec_get(id)
                &&& final(self).hosted == old(self).hosted
                &&& final(self).dirty == old(self).dirty
                &&& final(self).pending_actions == old(self).pending_actions
                &&& final(self).next_handle == old(self).next_handle
            },
    {
        if !self.native_component.has(new_layer) {
            self.native_component.add(new_layer, LayerNativeInfo { framebuffer: None });
        }
    }

    fn delete_layer(&mut self, layer: LayerId)
        ensures
            final(self).native_component.spec_get(layer) is None,
            forall|id: LayerId|
                id != layer ==> #[trigger] final(self).native_component.spec_get(id) == old(
                    self,
                ).native_component.spec_get(id),
            final(self).pending_actions@ == old(self).pending_actions@ + (match spec_cached(
                old(self).native_component,
                layer,
            ) {
                Some(fb) => seq![GlAction::ReleaseFramebuffer { framebuffer: fb.framebuffer }],
                None => Seq::empty(),
            }),
            final(self).hosted == old(self).hosted,
            final(self).dirty == old(self).dirty,
            final(self).next_handle == old(self).next_handle,
    {
        let cached: Option<CachedFramebuffer> = match self.native_component.get(layer) {
            Some(ni) => ni.framebuffer,
            None => None,
        };
        match cached {
            Some(fb) => {
                self.pending_actions.push(
                    GlAction::ReleaseFramebuffer { framebuffer: fb.framebuffer },
                );
            }
            None => {}
        }
        self.native_component.remove_if_present(layer);
    }

    fn insert_before(
        &mut self,
        parent: LayerId,
        new_child: LayerId,
        reference: Option<LayerId>,
        tree_component: &LayerMap<LayerTreeInfo>,
        container_component: &LayerMap<LayerContainerInfo>,
        geometry_component: &LayerMap<LayerGeometryInfo>,
    )
        ensures
            forall|id: LayerId|
                #[trigger] final(self).dirty.spec_get(id) == spec_damage_at(
                    old(self).dirty.spec_get(id),
                    id,
                    spec_damage_hit(
                        *tree_component,
                        *geometry_component,
                        new_child,
                        spec_size_rect(*geometry_component, new_child),
                    ),
                ),
            final(self).native_component == old(self).native_component,
            final(self).hosted == old(self).hosted,
            final(self).pending_actions == old(self).pending_actions,
            final(self).next_handle == old(self).next_handle,
    {
        let _ = parent;
        let _ = reference;
        let _ = container_component;
        let b = bounds_of(geometry_component, new_child);
        let rect = Rect { x: 0, y: 0, width: b.width, height: b.height };
        self.invalidate_layer(new_child, rect, tree_component, geometry_component);
    }

    fn remove_from_superlayer(
        &mut self,
        layer: LayerId,
        parent: LayerId,
        tree_component: &LayerMap<LayerTreeInfo>,
        geometry_component: &LayerMap<LayerGeometryInfo>,
    )
        ensures
            forall|id: LayerId|
                #[trigger] final(self).dirty.spec_get(id) == spec_damage_at(
                    old(self).dirty.spec_get(id),
                    id,
                    spec_damage_hit(
                        *tree_component,
                        *geometry_component,
                        parent,
                        spec_bounds_of(*geometry_component, layer),
                    ),
                ),
            final(self).native_component == old(self).native_component,
            final(self).hosted == old(self).hosted,
            final(self).pending_actions == old(self).pending_actions,
            final(self).next_handle == old(self).next_handle,
    {
        let rect = bounds_of(geometry_component, layer);
        self.invalidate_layer(parent, rect, tree_component, geometry_component);
    }

    fn host_layer(
        &mut self,
        layer: LayerId,
        host: (),
        tree_component: &LayerMap<LayerTreeInfo>,
        container_component: &LayerMap<LayerContainerInfo>,
        geometry_component: &LayerMap<LayerGeometryInfo>,
    )
        ensures
            old(self).hosted@.contains(layer) ==> *final(self) == *old(self),
            !old(self).hosted@.contains(layer) ==> {
                &&& final(self).hosted@ == old(self).hosted@.push(layer)
                &&& final(self).native_component == old(self).native_component
                &&& final(self).dirty == old(self).dirty
                &&& final(self).pending_actions == old(self).pending_actions
                &&& final(self).next_handle == old(self).next_handle
            },
    {
        let _ = host;
        let _ = tree_component;
        let _ = container_component;
        let _ = geometry_component;
        self.host_root(layer);
    }

    fn unhost_layer(&mut self, layer: LayerId)
        ensures
            final(self).hosted@ == old(self).hosted@.remove_value(layer),
            final(self).dirty.spec_get(layer) is None,
            forall|id: LayerId|
                id != layer ==> #[trigger] final(self).dirty.spec_get(id) == old(
                    self,
                ).dirty.spec_get(id),
            final(self).native_component == old(self).native_component,
            final(self).pending_actions == old(self).pending_actions,
            final(self).next_handle == old(self).next_handle,
    {
        self.unhost_root(layer);
    }

    fn set_layer_bounds(
        &mut self,
        layer: LayerId,
        old_bounds: &Rect,
        tree_component: &LayerMap<LayerTreeInfo>,
        container_component: &LayerMap<LayerContainerInfo>,
        geometry_component: &LayerMap<LayerGeometryInfo>,
    )
        ensures
            // Damage: the old rectangle walks up from the parent (when the
            // layer hangs under one), then the new-size rectangle walks up
            // from the layer itself.
            ({
                let hit_old = match tree_component.spec_get(layer) {
                    Some(t) => match t.parent {
                        LayerParent::Layer(p) => spec_damage_hit(
                            *tree_component,
                            *geometry_component,
                            p,
                            *old_bounds,
                        ),
                        LayerParent::NativeHost => None,
                    },
                    None => None,
                };
                let hit_new = spec_damage_hit(
                    *tree_component,
                    *geometry_component,
                    layer,
                    spec_size_rect(*geometry_component, layer),
                );
                forall|id: LayerId|
                    #[trigger] final(self).dirty.spec_get(id) == spec_damage_at(
                        spec_damage_at(old(self).dirty.spec_get(id), id, hit_old),
                        id,
                        hit_new,
                    )
            }),
            // Cache: the cached framebuffer is dropped, with a release
            // queued, exactly when its size differs from the new bounds.
            ({
                let b = spec_bounds_of(*geometry_component, layer);
                match spec_cached(old(self).native_component, layer) {
                    Some(fb) => if fb.width != b.width || fb.height != b.height {
                        &&& final(self).native_component.spec_get(layer) == Some(
                            LayerNativeInfo { framebuffer: None },
                        )
                        &&& forall|id: LayerId|
                            id != layer ==> #[trigger] final(self).native_component.spec_get(id)
                                == old(self).native_component.spec_get(id)
                        &&& final(self).pending_actions@ == old(self).pending_actions@.push(
                            GlAction::ReleaseFramebuffer { framebuffer: fb.framebuffer },
                        )
                    } else {
                        &&& final(self).native_component == old(self).native_component
                        &&& final(self).pending_actions == old(self).pending_actions
                    },
                    None => {
                        &&& final(self).native_component == old(self).native_component
                        &&& final(self).pending_actions == old(self).pending_actions
                    },
                }
            }),
            final(self).hosted == old(self).hosted,
            final(self).next_handle == old(self).next_handle,
    {
        let _ = container_component;
        match tree_component.get(layer) {
            Some(ti) => match ti.parent {
                LayerParent::Layer(parent_layer) => {
                    let p = parent_layer;
                    self.invalidate_layer(p, *old_bounds, tree_component, geometry_component);
                }
                LayerParent::NativeHost => {}
            },
            None => {}
        }
        let nb = bounds_of(geometry_component, layer);
        let cached: Option<CachedFramebuffer> = match self.native_component.get(layer) {
            Some(ni) => ni.framebuffer,
            None => None,
        };
        match cached {
            Some(fb) => {
                if fb.width != nb.width || fb.height != nb.height {
                    self.pending_actions.push(
                        GlAction::ReleaseFramebuffer { framebuffer: fb.framebuffer },
                    );
                    self.native_component.set(layer, LayerNativeInfo { framebuffer: None });
                }
            }
            None => {}
        }
        let rect = Rect { x: 0, y: 0, width: nb.width, height: nb.height };
        self.invalidate_layer(layer, rect, tree_component, geometry_component);
    }

    fn set_layer_surface_options(
        &mut self,
        layer: LayerId,
        surface_component: &LayerMap<LayerSurfaceInfo>,
    )
        ensures
            *final(self) == *old(self),
    {
        let _ = layer;
        let _ = surface_component;
    }

    fn bind_layer_to_gl_context(
        &mut self,
        layer: LayerId,
        context: &mut (),
        geometry_component: &LayerMap<LayerGeometryInfo>,
        surface_component: &LayerMap<LayerSurfaceInfo>,
    ) -> (r: Result<GLContextLayerBinding, ()>)
        ensures
            spec_bind_transition(
                *old(self),
                *final(self),
                layer,
                *geometry_component,
                *surface_component,
                r,
            ),
    {
        let _ = context;
        self.bind_layer(layer, geometry_component, surface_component)
    }

    fn present_gl_context(
        &mut self,
        binding: GLContextLayerBinding,
        changed_rect: &Rect,
        tree_component: &LayerMap<LayerTreeInfo>,
        geometry_component: &LayerMap<LayerGeometryInfo>,
    ) -> (r: Result<(), ()>)
        ensures
            r == Ok::<(), ()>(()),
            forall|id: LayerId|
                #[trigger] final(self).dirty.spec_get(id) == spec_damage_at(
                    old(self).dirty.spec_get(id),
                    id,
                    spec_damage_hit(
                        *tree_component,
                        *geometry_component,
                        binding.layer,
                        *changed_rect,
                    ),
                ),
            final(self).native_component == old(self).native_component,
            final(self).hosted == old(self).hosted,
            final(self).pending_actions == old(self).pending_actions,
            final(self).next_handle == old(self).next_handle,
    {
        self.invalidate_layer(binding.layer, *changed_rect, tree_component, geometry_component);
        Ok(())
    }

    fn screenshot_hosted_layer(
        &mut self,
        layer: LayerId,
        tree_component: &LayerMap<LayerTreeInfo>,
        container_component: &LayerMap<LayerContainerInfo>,
        geometry_component: &LayerMap<LayerGeometryInfo>,
        surface_component: &LayerMap<LayerSurfaceInfo>,
    ) -> (r: Rect)
        ensures
            r == spec_screenshot_walk(
                *tree_component,
                *geometry_component,
                layer,
                spec_size_rect(*geometry_component, layer),
                spec_damage_fuel(*tree_component) as nat,
            ),
            *final(self) == *old(self),
    {
        let _ = container_component;
        let _ = surface_component;
        self.screenshot_bounds(layer, tree_component, geometry_component)
    }

    fn host_layer_in_window(
        &mut self,
        layer: LayerId,
        tree_component: &LayerMap<LayerTreeInfo>,
        container_component: &LayerMap<LayerContainerInfo>,
        geometry_component: &LayerMap<LayerGeometryInfo>,
    ) -> (r: Result<(), ()>)
        ensures
            r == Ok::<(), ()>(()),
            old(self).hosted@.contains(layer) ==> *final(self) == *old(self),
            !old(self).hosted@.contains(layer) ==> {
                &&& final(self).hosted@ == old(self).hosted@.push(layer)
                &&& final(self).native_component == old(self).native_component
                &&& final(self).dirty == old(self).dirty
                &&& final(self).pending_actions == old(self).pending_actions
                &&& final(self).next_handle == old(self).next_handle
            },
    {
        let _ = tree_component;
        let _ = container_component;
        let _ = geometry_component;
        self.host_root(layer);
        Ok(())
    }
}

impl<L> crate::context::LayerContext<SoftwareBackend<L>> {
    /// Builds a context over the software compositor.
    pub fn new(connection: Connection<()>) -> (r: Result<
        crate::context::LayerContext<SoftwareBackend<L>>,
        ConnectionError,
    >)
        ensures
            r matches Ok(ctx) ==> {
                &&& ctx.wf()
                &&& !ctx.in_txn()
                &&& ctx.next_layer_id.0 == 0
                &&& forall|id: LayerId| #[trigger] ctx.tree_component.spec_get(id) is None
                &&& forall|id: LayerId| #[trigger] ctx.container_component.spec_get(id) is None
                &&& forall|id: LayerId| #[trigger] ctx.geometry_component.spec_get(id) is None
                &&& forall|id: LayerId| #[trigger] ctx.surface_component.spec_get(id) is None
            },
    {
        crate::context::LayerContext::with_backend_connection(connection)
    }

    /// Closes one transaction level, like `end_transaction`, with the
    /// software compositor's commit pinned by contract: the outcome's
    /// plans are exactly `spec_commit_plans` of the tree at the close,
    /// and every hosted root's pending damage is cleared.
    pub fn commit_transaction(&mut self) -> (r: crate::context::EndOutcome<L>)
        requires
            old(self).wf(),
            old(self).in_txn(),
        ensures
            final(self).wf(),
            final(self).txn_level() == old(self).txn_level() - 1,
            final(self).next_layer_id == old(self).next_layer_id,
            final(self).tree_component == old(self).tree_component,
            final(self).container_component == old(self).container_component,
            final(self).geometry_component == old(self).geometry_component,
            final(self).surface_component == old(self).surface_component,
            final(self).children == old(self).children,
            old(self).txn_level() > 1 ==> {
                &&& r is StillOpen
                &&& final(self).backend == old(self).backend
                &&& final(self).transaction->Some_0.promise == old(
                    self,
                ).transaction->Some_0.promise
            },
            old(self).txn_level() == 1 ==> {
                &&& !final(self).in_txn()
                &&& r matches crate::context::EndOutcome::Committed(out, promise) && {
                    &&& (promise@, out.resolved@) == crate::promise::spec_resolve(
                        old(self).transaction->Some_0.promise@,
                        (),
                    )
                    &&& out.plans@.map_values(|p: RenderPlan| p@) == spec_commit_plans(
                        old(self).backend.hosted@,
                        old(self).backend.dirty.0@,
                        old(self).tree_component,
                        old(self).container_component,
                        old(self).geometry_component,
                        old(self).surface_component,
                        old(self).backend.native_component,
                    )
                    &&& forall|id: LayerId|
                        old(self).backend.hosted@.contains(id)
                            ==> #[trigger] final(self).backend.dirty.spec_get(id) is None
                    &&& forall|id: LayerId|
                        !old(self).backend.hosted@.contains(id)
                            ==> #[trigger] final(self).backend.dirty.spec_get(id) == old(
                            self,
                        ).backend.dirty.spec_get(id)
                    &&& final(self).backend.hosted == old(self).backend.hosted
                    &&& final(self).backend.native_component == old(self).backend.native_component
                    &&& final(self).backend.pending_actions == old(self).backend.pending_actions
                    &&& final(self).backend.next_handle == old(self).backend.next_handle
                }
            },
    {
        let nested = match &self.transaction {
            Some(t) => t.level > 1,
            None => false,
        };
        if nested {
            match &mut self.transaction {
                Some(t) => {
                    t.level = t.level - 1;
                }
                None => {}
            }
            crate::context::EndOutcome::StillOpen
        } else {
            let t = self.transaction.take().unwrap();
            let mut promise = t.promise;
            let plans = self.backend.commit(
                &self.tree_component,
                &self.container_component,
                &self.geometry_component,
                &self.surface_component,
            );
            let resolved = promise.resolve(());
            crate::context::EndOutcome::Committed(CommitOutcome { plans, resolved }, promise)
        }
    }

    /// Binds a surface layer for rendering through the software
    /// compositor, with the full cache behaviour pinned by contract.
    pub fn bind_surface_layer(&mut self, layer: LayerId) -> (r: Result<GLContextLayerBinding, ()>)
        requires
            old(self).wf(),
            old(self).in_txn(),
            !old(self).container_component.spec_has(layer),
        ensures
            final(self).wf(),
            spec_bind_transition(
                old(self).backend,
                final(self).backend,
                layer,
                old(self).geometry_component,
                old(self).surface_component,
                r,
            ),
            final(self).next_layer_id == old(self).next_layer_id,
            final(self).tree_component == old(self).tree_component,
            final(self).container_component == old(self).container_component,
            final(self).geometry_component == old(self).geometry_component,
            final(self).surface_component == old(self).surface_component,
            final(self).children == old(self).children,
            final(self).transaction == old(self).transaction,
    {
        self.backend.bind_layer(layer, &self.geometry_component, &self.surface_component)
    }
}

} // verus!
