//! Integer rectangle geometry for the layer tree.
//!
//! Layer bounds are parent-relative rectangles in logical pixels. Damage
//! tracking accumulates rectangles by translating them into ancestor
//! coordinate spaces and taking minimal bounding unions, so the operations
//! here come with exact contracts and closure lemmas for the coordinate
//! ranges those walks can produce.

use vstd::math::{max, min};
use vstd::prelude::*;

verus! {

/// Largest magnitude a stored layer coordinate (origin component or size)
/// may have. Small enough that a damage rectangle translated through any
/// chain of ancestors stays far inside `i64`.
pub const COORD_LIMIT: i64 = 0x400_0000;

/// Magnitude bound under which rectangle unions are guaranteed free of
/// overflow. Every rectangle a damage walk can build stays within it.
pub const ACC_LIMIT: i64 = 0x2000_0000_0000_0000;

/// An axis-aligned rectangle: origin plus size, both in logical pixels.
#[derive(Clone, Copy, PartialEq, Eq, Structural, Debug)]
pub struct Rect {
    pub x: i64,
    pub y: i64,
    pub width: i64,
    pub height: i64,
}

impl Rect {
    /// Sizes are non-negative and both corners lie within magnitude `m`.
    pub open spec fn spec_in_range(self, m: int) -> bool {
        &&& 0 <= self.width
        &&& 0 <= self.height
        &&& -m <= self.x
        &&& self.x + self.width <= m
        &&& -m <= self.y
        &&& self.y + self.height <= m
    }

    /// The minimal bounding box of two rectangles.
    pub open spec fn spec_union(self, other: Rect) -> Rect {
        let x0 = min(self.x as int, other.x as int);
        let y0 = min(self.y as int, other.y as int);
        let x1 = max(self.x + self.width, other.x + other.width);
        let y1 = max(self.y + self.height, other.y + other.height);
        Rect { x: x0 as i64, y: y0 as i64, width: (x1 - x0) as i64, height: (y1 - y0) as i64 }
    }

    /// The same rectangle moved by `(dx, dy)`.
    pub open spec fn spec_translate(self, dx: int, dy: int) -> Rect {
        Rect { x: (self.x + dx) as i64, y: (self.y + dy) as i64, width: self.width, height: self.height }
    }

    /// Whether the point `(px, py)` lies inside the rectangle.
    pub open spec fn spec_covers(self, px: int, py: int) -> bool {
        &&& self.x <= px < self.x + self.width
        &&& self.y <= py < self.y + self.height
    }

    /// The empty rectangle at the origin.
    pub fn zero() -> (r: Rect)
        ensures
            r == (Rect { x: 0, y: 0, width: 0, height: 0 }),
    {
        Rect { x: 0, y: 0, width: 0, height: 0 }
    }

    /// Minimal bounding box of `self` and `other`.
    pub fn union(&self, other: &Rect) -> (r: Rect)
        requires
            self.spec_in_range(ACC_LIMIT as int),
            other.spec_in_range(ACC_LIMIT as int),
        ensures
            r == self.spec_union(*other),
            r.spec_in_range(ACC_LIMIT as int),
    {
        let x0 = if self.x <= other.x { self.x } else { other.x };
        let y0 = if self.y <= other.y { self.y } else { other.y };
        let self_x1 = self.x + self.width;
        let self_y1 = self.y + self.height;
        let other_x1 = other.x + other.width;
        let other_y1 = other.y + other.height;
        let x1 = if self_x1 >= other_x1 { self_x1 } else { other_x1 };
        let y1 = if self_y1 >= other_y1 { self_y1 } else { other_y1 };
        Rect { x: x0, y: y0, width: x1 - x0, height: y1 - y0 }
    }

    /// The rectangle moved by `(dx, dy)`.
    pub fn translate(&self, dx: i64, dy: i64) -> (r: Rect)
        requires
            i64::MIN <= self.x + dx <= i64::MAX,
            i64::MIN <= self.y + dy <= i64::MAX,
        ensures
            r == self.spec_translate(dx as int, dy as int),
    {
        Rect { x: self.x + dx, y: self.y + dy, width: self.width, height: self.height }
    }

    /// Whether the rectangle stays within the accumulation magnitude.
    pub fn in_acc_range(&self) -> (r: bool)
        ensures
            r == self.spec_in_range(ACC_LIMIT as int),
    {
        if self.width < 0 || self.height < 0 {
            false
        } else if self.x < -ACC_LIMIT || self.y < -ACC_LIMIT {
            false
        } else {
            self.width <= ACC_LIMIT - self.x && self.height <= ACC_LIMIT - self.y
        }
    }

    /// Whether the point `(px, py)` lies inside the rectangle.
    pub fn covers(&self, px: i64, py: i64) -> (r: bool)
        requires
            self.spec_in_range(ACC_LIMIT as int),
        ensures
            r == self.spec_covers(px as int, py as int),
    {
        self.x <= px && px < self.x + self.width && self.y <= py && py < self.y + self.height
    }
}

/// One step of damage accumulation: a fresh rectangle starts the pending
/// damage, a later one is unioned into it.
pub open spec fn spec_accumulate(acc: Option<Rect>, r: Rect) -> Option<Rect> {
    match acc {
        None => Some(r),
        Some(d) => Some(d.spec_union(r)),
    }
}

/// The bounding union of two rectangles does not depend on their order.
pub proof fn lemma_union_commutative(a: Rect, b: Rect)
    ensures
        a.spec_union(b) == b.spec_union(a),
{
}

/// The bounding union is associative.
pub proof fn lemma_union_associative(a: Rect, b: Rect, c: Rect)
    requires
        a.spec_in_range(ACC_LIMIT as int),
        b.spec_in_range(ACC_LIMIT as int),
        c.spec_in_range(ACC_LIMIT as int),
    ensures
        a.spec_union(b).spec_union(c) == a.spec_union(b.spec_union(c)),
{
}

/// A union of rectangles within magnitude `m` stays within magnitude `m`.
pub proof fn lemma_union_in_range(a: Rect, b: Rect, m: int)
    requires
        0 <= m <= ACC_LIMIT as int,
        a.spec_in_range(m),
        b.spec_in_range(m),
    ensures
        a.spec_union(b).spec_in_range(m),
{
}

/// Damage accumulation is order-independent: accumulating rectangle `a`
/// then `b` into any pending damage yields the same result as `b` then `a`.
pub proof fn lemma_accumulate_order_independent(acc: Option<Rect>, a: Rect, b: Rect)
    requires
        a.spec_in_range(ACC_LIMIT as int),
        b.spec_in_range(ACC_LIMIT as int),
        acc matches Some(d) ==> d.spec_in_range(ACC_LIMIT as int),
    ensures
        spec_accumulate(spec_accumulate(acc, a), b) == spec_accumulate(spec_accumulate(acc, b), a),
{
    match acc {
        None => {
            lemma_union_commutative(a, b);
        }
        Some(d) => {
            lemma_union_associative(d, a, b);
            lemma_union_associative(d, b, a);
            lemma_union_commutative(a, b);
        }
    }
}

} // verus!
