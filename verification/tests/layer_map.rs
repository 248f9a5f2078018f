use planeshift::layer_map::{LayerId, LayerMap};

#[test]
fn new_map_is_empty() {
    let m: LayerMap<u32> = LayerMap::new();
    assert!(!m.has(LayerId(0)));
    assert!(m.get(LayerId(7)).is_none());
}

#[test]
fn add_then_get() {
    let mut m: LayerMap<u32> = LayerMap::new();
    m.add(LayerId(0), 10);
    m.add(LayerId(2), 30);
    assert_eq!(m.get(LayerId(0)), Some(&10));
    assert!(!m.has(LayerId(1)));
    assert_eq!(m.get(LayerId(2)), Some(&30));
}

#[test]
fn add_grows_sparse_storage() {
    let mut m: LayerMap<&str> = LayerMap::new();
    m.add(LayerId(5), "five");
    assert!(m.has(LayerId(5)));
    for i in 0..5 {
        assert!(!m.has(LayerId(i)));
    }
}

#[test]
fn take_removes_and_returns() {
    let mut m: LayerMap<u32> = LayerMap::new();
    m.add(LayerId(3), 42);
    let v = m.take(LayerId(3));
    assert_eq!(v, 42);
    assert!(!m.has(LayerId(3)));
}

#[test]
fn remove_if_present_tolerates_absence() {
    let mut m: LayerMap<u32> = LayerMap::new();
    m.remove_if_present(LayerId(9));
    m.add(LayerId(9), 1);
    m.remove_if_present(LayerId(9));
    assert!(!m.has(LayerId(9)));
}

#[test]
fn get_mut_updates_in_place() {
    let mut m: LayerMap<u32> = LayerMap::new();
    m.add(LayerId(1), 5);
    if let Some(v) = m.get_mut(LayerId(1)) {
        *v = 6;
    }
    assert_eq!(m.get(LayerId(1)), Some(&6));
    assert!(m.get_mut(LayerId(0)).is_none());
}

#[test]
fn set_replaces_existing() {
    let mut m: LayerMap<u32> = LayerMap::new();
    m.add(LayerId(4), 8);
    m.set(LayerId(4), 9);
    assert_eq!(m.get(LayerId(4)), Some(&9));
}
