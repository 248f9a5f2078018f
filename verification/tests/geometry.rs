use planeshift::geometry::{Rect, ACC_LIMIT, COORD_LIMIT};

fn rect(x: i64, y: i64, width: i64, height: i64) -> Rect {
    Rect { x, y, width, height }
}

#[test]
fn zero_rect_is_empty_at_origin() {
    let z = Rect::zero();
    assert_eq!(z, rect(0, 0, 0, 0));
}

#[test]
fn union_is_bounding_box() {
    let a = rect(0, 0, 100, 100);
    let b = rect(50, 50, 100, 100);
    assert_eq!(a.union(&b), rect(0, 0, 150, 150));
}

#[test]
fn union_of_disjoint_rects_spans_both() {
    let a = rect(-10, -20, 5, 5);
    let b = rect(100, 200, 10, 10);
    assert_eq!(a.union(&b), rect(-10, -20, 120, 230));
}

#[test]
fn union_is_order_independent() {
    let a = rect(3, -7, 40, 9);
    let b = rect(-11, 2, 8, 60);
    assert_eq!(a.union(&b), b.union(&a));
}

#[test]
fn accumulation_is_order_independent() {
    // Accumulating damage A then B into pending damage d equals B then A.
    let d = rect(0, 0, 10, 10);
    let a = rect(-5, 3, 20, 20);
    let b = rect(7, -9, 4, 40);
    let ab = d.union(&a).union(&b);
    let ba = d.union(&b).union(&a);
    assert_eq!(ab, ba);
}

#[test]
fn translate_moves_origin_only() {
    let a = rect(10, 20, 30, 40);
    assert_eq!(a.translate(-15, 5), rect(-5, 25, 30, 40));
}

#[test]
fn covers_is_half_open() {
    let a = rect(10, 10, 5, 5);
    assert!(a.covers(10, 10));
    assert!(a.covers(14, 14));
    assert!(!a.covers(15, 10));
    assert!(!a.covers(10, 15));
    assert!(!a.covers(9, 10));
}

#[test]
fn in_acc_range_rejects_degenerate_rects() {
    assert!(rect(0, 0, 100, 100).in_acc_range());
    assert!(!rect(0, 0, -1, 5).in_acc_range());
    assert!(!rect(-ACC_LIMIT - 1, 0, 1, 1).in_acc_range());
    assert!(rect(-COORD_LIMIT, -COORD_LIMIT, COORD_LIMIT, COORD_LIMIT).in_acc_range());
}
