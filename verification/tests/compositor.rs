use planeshift::backend::Connection;
use planeshift::compositor::{GlAction, SoftwareBackend};
use planeshift::context::{EndOutcome, LayerContext};
use planeshift::geometry::Rect;
use planeshift::layer_map::{LayerId, LayerMap};
use planeshift::plan::{composite_at, Color, RenderPlan};
use planeshift::surface::SurfaceOptions;

type Ctx = LayerContext<SoftwareBackend<u32>>;

fn rect(x: i64, y: i64, width: i64, height: i64) -> Rect {
    Rect { x, y, width, height }
}

fn opaque_options() -> SurfaceOptions {
    SurfaceOptions { opaque: true, depth: false, stencil: false }
}

fn commit(c: &mut Ctx) -> (Vec<RenderPlan>, Vec<u32>) {
    match c.end_transaction() {
        EndOutcome::Committed(outcome, promise) => {
            assert!(promise.is_resolved());
            (outcome.plans, outcome.resolved)
        }
        EndOutcome::StillOpen => panic!("outermost close must commit"),
    }
}

/// Opens a context with a hosted container root.
fn hosted_root(c: &mut Ctx) -> LayerId {
    c.begin_transaction();
    let root = c.add_container_layer();
    c.host_layer_in_window(root).unwrap();
    root
}

fn add_bound_surface(c: &mut Ctx, root: LayerId, bounds: Rect, opts: SurfaceOptions) -> LayerId {
    let s = c.add_surface_layer();
    c.set_layer_surface_options(s, opts);
    c.set_layer_bounds(s, &bounds);
    c.append_child(root, s);
    let mut gl = ();
    let binding = c.bind_layer_to_gl_context(s, &mut gl).unwrap();
    assert_eq!(binding.layer, s);
    s
}

#[test]
fn end_to_end_blend_and_opaque_pixel() {
    let mut c = Ctx::new(Connection::Native(())).unwrap();
    let root = hosted_root(&mut c);
    // Opaque surface A at (0,0,100,100), translucent red B at
    // (50,50,100,100) appended after it.
    let a = add_bound_surface(&mut c, root, rect(0, 0, 100, 100), opaque_options());
    let b = add_bound_surface(&mut c, root, rect(50, 50, 100, 100), SurfaceOptions::empty());
    let (plans, _) = commit(&mut c);
    assert_eq!(plans.len(), 1);
    let plan = &plans[0];
    assert_eq!(plan.root, root);
    assert_eq!(plan.dirty, rect(0, 0, 150, 150));
    assert_eq!(plan.opaque.len(), 1);
    assert_eq!(plan.opaque[0].layer, a);
    assert_eq!(plan.opaque[0].depth_slot, 0);
    assert_eq!(plan.transparent.len(), 1);
    assert_eq!(plan.transparent[0].layer, b);
    assert_eq!(plan.transparent[0].depth_slot, 1);

    // A renders opaque blue, B translucent red (premultiplied, half
    // alpha).
    let blue = Color { r: 0, g: 0, b: 255, a: 255 };
    let red_half = Color { r: 128, g: 0, b: 0, a: 128 };
    let mut colors: LayerMap<Color> = LayerMap::new();
    colors.add(a, blue);
    colors.add(b, red_half);
    let backdrop = Color { r: 0, g: 0, b: 0, a: 255 };

    // (75,75) is covered by both: a blend of A's and B's colors.
    let blended = composite_at(plan, &colors, 75, 75, backdrop);
    assert_eq!(blended, Color { r: 128, g: 0, b: 127, a: 255 });

    // (10,10) is covered by A alone: exactly A's opaque color.
    let solid = composite_at(plan, &colors, 10, 10, backdrop);
    assert_eq!(solid, blue);
}

#[test]
fn later_opaque_sibling_wins_where_all_overlap() {
    let mut c = Ctx::new(Connection::Native(())).unwrap();
    let root = hosted_root(&mut c);
    let l1 = add_bound_surface(&mut c, root, rect(0, 0, 100, 100), opaque_options());
    let l2 = add_bound_surface(&mut c, root, rect(10, 10, 100, 100), opaque_options());
    let l3 = add_bound_surface(&mut c, root, rect(20, 20, 100, 100), opaque_options());
    let (plans, _) = commit(&mut c);
    let plan = &plans[0];
    // Document order with strictly increasing depth slots.
    assert_eq!(
        plan.opaque.iter().map(|cmd| (cmd.layer, cmd.depth_slot)).collect::<Vec<_>>(),
        vec![(l1, 0), (l2, 1), (l3, 2)]
    );
    assert!(plan.transparent.is_empty());

    let c1 = Color { r: 255, g: 0, b: 0, a: 255 };
    let c2 = Color { r: 0, g: 255, b: 0, a: 255 };
    let c3 = Color { r: 0, g: 0, b: 255, a: 255 };
    let mut colors: LayerMap<Color> = LayerMap::new();
    colors.add(l1, c1);
    colors.add(l2, c2);
    colors.add(l3, c3);
    let backdrop = Color { r: 0, g: 0, b: 0, a: 255 };
    // (50,50) is covered by all three: the later-inserted sibling wins,
    // not a blend.
    assert_eq!(composite_at(plan, &colors, 50, 50, backdrop), c3);
    // (5,5) is covered only by the first.
    assert_eq!(composite_at(plan, &colors, 5, 5, backdrop), c1);
}

#[test]
fn no_pending_damage_produces_no_plan() {
    let mut c = Ctx::new(Connection::Native(())).unwrap();
    let _root = hosted_root(&mut c);
    let (plans, _) = commit(&mut c);
    // Hosting alone dirties nothing: the commit resolves immediately
    // with no render work.
    assert!(plans.is_empty());
}

#[test]
fn damage_accumulates_across_mutations_and_clears_at_commit() {
    let mut c = Ctx::new(Connection::Native(())).unwrap();
    let root = hosted_root(&mut c);
    let _a = add_bound_surface(&mut c, root, rect(0, 0, 10, 10), opaque_options());
    let _b = add_bound_surface(&mut c, root, rect(40, 40, 10, 10), opaque_options());
    assert_eq!(c.backend.dirty.get(root), Some(&rect(0, 0, 50, 50)));
    let (plans, _) = commit(&mut c);
    assert_eq!(plans[0].dirty, rect(0, 0, 50, 50));
    assert!(!c.backend.dirty.has(root));
    // A second transaction with no mutations has nothing to draw.
    c.begin_transaction();
    let (plans, _) = commit(&mut c);
    assert!(plans.is_empty());
}

#[test]
fn nested_container_origins_accumulate_into_screen_rects() {
    let mut c = Ctx::new(Connection::Native(())).unwrap();
    let root = hosted_root(&mut c);
    let group = c.add_container_layer();
    c.set_layer_bounds(group, &rect(100, 200, 500, 500));
    c.append_child(root, group);
    let s = add_bound_surface(&mut c, group, rect(7, 8, 20, 20), opaque_options());
    let (plans, _) = commit(&mut c);
    let plan = &plans[0];
    assert_eq!(plan.opaque.len(), 1);
    assert_eq!(plan.opaque[0].layer, s);
    assert_eq!(plan.opaque[0].rect, rect(107, 208, 20, 20));
}

#[test]
fn bind_reuses_cache_until_resize() {
    let mut c = Ctx::new(Connection::Native(())).unwrap();
    let root = hosted_root(&mut c);
    let s = add_bound_surface(&mut c, root, rect(0, 0, 64, 32), opaque_options());
    let first = c.backend.take_pending_actions();
    assert_eq!(
        first,
        vec![GlAction::AllocateFramebuffer {
            framebuffer: 1,
            width: 64,
            height: 32,
            depth_stencil: false
        }]
    );
    // Binding again at the same size reuses the cached framebuffer.
    let mut gl = ();
    let binding = c.bind_layer_to_gl_context(s, &mut gl).unwrap();
    assert_eq!(binding.framebuffer, 1);
    assert!(c.backend.take_pending_actions().is_empty());
    // Resizing invalidates the cache; rebinding allocates a fresh one.
    c.set_layer_bounds(s, &rect(0, 0, 128, 32));
    assert_eq!(
        c.backend.take_pending_actions(),
        vec![GlAction::ReleaseFramebuffer { framebuffer: 1 }]
    );
    let binding = c.bind_layer_to_gl_context(s, &mut gl).unwrap();
    assert_eq!(binding.framebuffer, 2);
    assert_eq!(
        c.backend.take_pending_actions(),
        vec![GlAction::AllocateFramebuffer {
            framebuffer: 2,
            width: 128,
            height: 32,
            depth_stencil: false
        }]
    );
}

#[test]
fn depth_or_stencil_options_request_an_attachment() {
    let mut c = Ctx::new(Connection::Native(())).unwrap();
    let root = hosted_root(&mut c);
    let opts = SurfaceOptions { opaque: true, depth: true, stencil: false };
    let _s = add_bound_surface(&mut c, root, rect(0, 0, 16, 16), opts);
    assert_eq!(
        c.backend.take_pending_actions(),
        vec![GlAction::AllocateFramebuffer {
            framebuffer: 1,
            width: 16,
            height: 16,
            depth_stencil: true
        }]
    );
}

#[test]
fn binding_a_container_fails() {
    let mut c = Ctx::new(Connection::Native(())).unwrap();
    c.begin_transaction();
    let _root = c.add_container_layer();
    let surface_less = c.add_container_layer();
    // The compositor knows no surface under this id.
    let r = c.backend.bind_layer(
        surface_less,
        &c.geometry_component,
        &c.surface_component,
    );
    assert_eq!(r, Err(()));
}

#[test]
fn deleting_a_bound_surface_releases_its_framebuffer() {
    let mut c = Ctx::new(Connection::Native(())).unwrap();
    let root = hosted_root(&mut c);
    let s = add_bound_surface(&mut c, root, rect(0, 0, 8, 8), opaque_options());
    let _ = c.backend.take_pending_actions();
    c.remove_from_parent(s);
    c.delete_layer(s);
    assert_eq!(
        c.backend.take_pending_actions(),
        vec![GlAction::ReleaseFramebuffer { framebuffer: 1 }]
    );
}

#[test]
fn present_gl_context_records_damage() {
    let mut c = Ctx::new(Connection::Native(())).unwrap();
    let root = hosted_root(&mut c);
    let s = add_bound_surface(&mut c, root, rect(10, 10, 50, 50), opaque_options());
    let (_plans, _) = commit(&mut c);
    c.begin_transaction();
    let mut gl = ();
    let binding = c.bind_layer_to_gl_context(s, &mut gl).unwrap();
    c.present_gl_context(binding, &rect(0, 0, 5, 5)).unwrap();
    // The changed rectangle is translated into the root's space.
    assert_eq!(c.backend.dirty.get(root), Some(&rect(10, 10, 5, 5)));
}

#[test]
fn unhosting_drops_pending_damage() {
    let mut c = Ctx::new(Connection::Native(())).unwrap();
    let root = hosted_root(&mut c);
    let _s = add_bound_surface(&mut c, root, rect(0, 0, 10, 10), opaque_options());
    assert!(c.backend.dirty.has(root));
    c.remove_from_parent(root);
    assert!(c.backend.dirty.get(root).is_none());
    assert!(c.backend.hosted.is_empty());
    let (plans, _) = commit(&mut c);
    assert!(plans.is_empty());
}

#[test]
fn screenshot_box_accumulates_ancestor_origins() {
    let mut c = Ctx::new(Connection::Native(())).unwrap();
    c.begin_transaction();
    let root = c.add_container_layer();
    c.set_layer_bounds(root, &rect(5, 7, 200, 150));
    c.host_layer_in_window(root).unwrap();
    let shot = c.screenshot_hosted_layer(root);
    assert_eq!(shot, rect(5, 7, 200, 150));
}

#[test]
fn multiple_hosts_each_get_their_own_plan() {
    let mut c = Ctx::new(Connection::Native(())).unwrap();
    c.begin_transaction();
    let r1 = c.add_container_layer();
    let r2 = c.add_container_layer();
    c.host_layer_in_window(r1).unwrap();
    c.host_layer_in_window(r2).unwrap();
    let _a = add_bound_surface(&mut c, r1, rect(0, 0, 10, 10), opaque_options());
    let _b = add_bound_surface(&mut c, r2, rect(5, 5, 10, 10), opaque_options());
    let (plans, _) = commit(&mut c);
    assert_eq!(plans.len(), 2);
    assert_eq!(plans[0].root, r1);
    assert_eq!(plans[1].root, r2);
    assert_eq!(plans[0].dirty, rect(0, 0, 10, 10));
    assert_eq!(plans[1].dirty, rect(5, 5, 10, 10));
}

#[test]
fn binding_without_bounds_caches_a_zero_size_framebuffer() {
    let mut c = Ctx::new(Connection::Native(())).unwrap();
    c.begin_transaction();
    let s = c.add_surface_layer();
    let mut gl = ();
    let binding = c.bind_layer_to_gl_context(s, &mut gl).unwrap();
    assert_eq!(binding.framebuffer, 1);
    assert_eq!(
        c.backend.take_pending_actions(),
        vec![GlAction::AllocateFramebuffer {
            framebuffer: 1,
            width: 0,
            height: 0,
            depth_stencil: false
        }]
    );
}

#[test]
fn damage_is_order_independent_across_mutations() {
    // Inserting the same two surfaces in either order leaves the same
    // pending damage rectangle.
    let mut first = Ctx::new(Connection::Native(())).unwrap();
    let r1 = hosted_root(&mut first);
    let _ = add_bound_surface(&mut first, r1, rect(-5, -5, 20, 20), opaque_options());
    let _ = add_bound_surface(&mut first, r1, rect(30, 40, 6, 6), SurfaceOptions::empty());

    let mut second = Ctx::new(Connection::Native(())).unwrap();
    let r2 = hosted_root(&mut second);
    let _ = add_bound_surface(&mut second, r2, rect(30, 40, 6, 6), SurfaceOptions::empty());
    let _ = add_bound_surface(&mut second, r2, rect(-5, -5, 20, 20), opaque_options());

    assert_eq!(first.backend.dirty.get(r1), second.backend.dirty.get(r2));
    assert_eq!(first.backend.dirty.get(r1), Some(&rect(-5, -5, 41, 51)));
}

#[test]
fn commit_transaction_matches_end_transaction() {
    // The software-specialized close produces the same observable
    // commit as the generic one: one plan for the dirty hosted root,
    // listeners delivered, promise resolved.
    let mut c = Ctx::new(Connection::Native(())).unwrap();
    let root = hosted_root(&mut c);
    let a = add_bound_surface(&mut c, root, rect(0, 0, 30, 30), opaque_options());
    c.when_committed(9);
    c.begin_transaction();
    assert!(matches!(c.commit_transaction(), EndOutcome::StillOpen));
    match c.commit_transaction() {
        EndOutcome::Committed(outcome, promise) => {
            assert!(promise.is_resolved());
            assert_eq!(outcome.resolved, vec![9]);
            assert_eq!(outcome.plans.len(), 1);
            assert_eq!(outcome.plans[0].root, root);
            assert_eq!(outcome.plans[0].opaque[0].layer, a);
        }
        EndOutcome::StillOpen => panic!("outermost close must commit"),
    }
    assert!(!c.in_transaction());
}

#[test]
fn bind_surface_layer_reports_the_cached_handle() {
    let mut c = Ctx::new(Connection::Native(())).unwrap();
    let root = hosted_root(&mut c);
    let s = add_bound_surface(&mut c, root, rect(0, 0, 12, 12), opaque_options());
    let binding = c.bind_surface_layer(s).unwrap();
    assert_eq!(binding.layer, s);
    assert_eq!(binding.framebuffer, 1);
}

#[test]
fn flip_vertically_reverses_row_order() {
    // A 2x2 RGBA image: rows [p q] / [r s], bottom-up from the
    // framebuffer, flips to [r s] / [p q].
    let pixels: Vec<u8> = vec![
        1, 2, 3, 4, 5, 6, 7, 8, // row 0: p, q
        9, 10, 11, 12, 13, 14, 15, 16, // row 1: r, s
    ];
    let flipped = planeshift::plan::flip_vertically(&pixels, 2, 2);
    assert_eq!(
        flipped,
        vec![9, 10, 11, 12, 13, 14, 15, 16, 1, 2, 3, 4, 5, 6, 7, 8]
    );
}
