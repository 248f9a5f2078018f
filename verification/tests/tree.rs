use planeshift::backend::Connection;
use planeshift::compositor::SoftwareBackend;
use planeshift::components::LayerParent;
use planeshift::context::LayerContext;
use planeshift::layer_map::LayerId;

type Ctx = LayerContext<SoftwareBackend<u32>>;

fn ctx() -> Ctx {
    let mut c = Ctx::new(Connection::Native(())).unwrap();
    c.begin_transaction();
    c
}

#[test]
fn append_builds_consistent_sibling_list() {
    let mut c = ctx();
    let root = c.add_container_layer();
    let a = c.add_surface_layer();
    let b = c.add_surface_layer();
    let d = c.add_surface_layer();
    c.append_child(root, a);
    c.append_child(root, b);
    c.append_child(root, d);
    assert_eq!(c.children_of(root), vec![a, b, d]);
    assert_eq!(c.children_of_reverse(root), vec![d, b, a]);
    assert_eq!(c.parent_of(a), Some(&LayerParent::Layer(root)));
    assert_eq!(c.parent_of(b), Some(&LayerParent::Layer(root)));
    assert_eq!(c.parent_of(d), Some(&LayerParent::Layer(root)));
}

#[test]
fn insert_before_places_child_before_reference() {
    let mut c = ctx();
    let root = c.add_container_layer();
    let a = c.add_surface_layer();
    let b = c.add_surface_layer();
    let mid = c.add_surface_layer();
    c.append_child(root, a);
    c.append_child(root, b);
    c.insert_before(root, mid, Some(b));
    assert_eq!(c.children_of(root), vec![a, mid, b]);
    assert_eq!(c.children_of_reverse(root), vec![b, mid, a]);
}

#[test]
fn insert_before_first_child_updates_head() {
    let mut c = ctx();
    let root = c.add_container_layer();
    let a = c.add_surface_layer();
    let front = c.add_surface_layer();
    c.append_child(root, a);
    c.insert_before(root, front, Some(a));
    assert_eq!(c.children_of(root), vec![front, a]);
}

#[test]
fn remove_from_parent_splices_middle_front_and_back() {
    let mut c = ctx();
    let root = c.add_container_layer();
    let a = c.add_surface_layer();
    let b = c.add_surface_layer();
    let d = c.add_surface_layer();
    c.append_child(root, a);
    c.append_child(root, b);
    c.append_child(root, d);

    c.remove_from_parent(b);
    assert_eq!(c.children_of(root), vec![a, d]);
    assert!(c.parent_of(b).is_none());

    c.remove_from_parent(a);
    assert_eq!(c.children_of(root), vec![d]);

    c.remove_from_parent(d);
    assert_eq!(c.children_of(root), Vec::<LayerId>::new());
    assert_eq!(c.children_of_reverse(root), Vec::<LayerId>::new());
}

#[test]
fn removal_keeps_other_components() {
    let mut c = ctx();
    let root = c.add_container_layer();
    let a = c.add_surface_layer();
    c.append_child(root, a);
    c.remove_from_parent(a);
    // Only the tree linkage is gone; the surface component survives.
    assert!(c.surface_component.has(a));
    assert!(!c.tree_component.has(a));
}

#[test]
fn no_layer_is_both_container_and_surface() {
    let mut c = ctx();
    let root = c.add_container_layer();
    let a = c.add_surface_layer();
    for id in [root, a] {
        assert!(!(c.container_component.has(id) && c.surface_component.has(id)));
    }
    assert!(c.container_component.has(root));
    assert!(c.surface_component.has(a));
}

#[test]
fn delete_after_removal_purges_all_components() {
    let mut c = ctx();
    let root = c.add_container_layer();
    let a = c.add_surface_layer();
    c.append_child(root, a);
    c.set_layer_bounds(a, &planeshift::geometry::Rect { x: 1, y: 2, width: 3, height: 4 });
    c.remove_from_parent(a);
    c.delete_layer(a);
    assert!(!c.tree_component.has(a));
    assert!(!c.container_component.has(a));
    assert!(!c.geometry_component.has(a));
    assert!(!c.surface_component.has(a));
}

#[test]
fn hosted_layer_has_native_host_parent() {
    let mut c = ctx();
    let root = c.add_container_layer();
    c.host_layer((), root);
    assert_eq!(c.parent_of(root), Some(&LayerParent::NativeHost));
    c.remove_from_parent(root);
    assert!(c.parent_of(root).is_none());
}

#[test]
fn host_layer_in_window_anchors_root() {
    let mut c = ctx();
    let root = c.add_container_layer();
    assert_eq!(c.host_layer_in_window(root), Ok(()));
    assert_eq!(c.parent_of(root), Some(&LayerParent::NativeHost));
    assert_eq!(c.backend.hosted, vec![root]);
}

#[test]
fn layer_bounds_default_to_zero() {
    let mut c = ctx();
    let a = c.add_surface_layer();
    let z = c.layer_bounds(a);
    assert_eq!(z, planeshift::geometry::Rect { x: 0, y: 0, width: 0, height: 0 });
    let r = planeshift::geometry::Rect { x: 9, y: 8, width: 7, height: 6 };
    c.set_layer_bounds(a, &r);
    assert_eq!(c.layer_bounds(a), r);
}

#[test]
fn surface_options_can_be_replaced() {
    let mut c = ctx();
    let a = c.add_surface_layer();
    let opts = planeshift::surface::SurfaceOptions { opaque: true, depth: true, stencil: false };
    c.set_layer_surface_options(a, opts);
    assert_eq!(c.surface_component.get(a).unwrap().options, opts);
}

#[test]
fn ids_are_handed_out_in_increasing_order() {
    let mut c = ctx();
    let a = c.add_container_layer();
    let b = c.add_surface_layer();
    let d = c.add_container_layer();
    assert_eq!(a, LayerId(0));
    assert_eq!(b, LayerId(1));
    assert_eq!(d, LayerId(2));
}
