//! The sparse per-layer component store.
//!
//! A `LayerMap` maps layer ids to optional per-aspect records, backed by a
//! growable vector indexed by the id's integer value. Insertions grow the
//! backing storage as needed; lookups past the end read as absent.

use vstd::prelude::*;

verus! {

/// An opaque handle for a layer: ids are handed out in increasing order by
/// the context and never reused within its lifetime.
#[derive(Clone, Copy, PartialEq, Eq, PartialOrd, Ord, Hash, Debug, Structural)]
pub struct LayerId(pub u32);

/// A sparse map from layer ids to per-layer records of one aspect.
#[derive(Debug)]
pub struct LayerMap<T>(pub Vec<Option<T>>);

impl<T> LayerMap<T> {
    /// The record stored for `layer_id`, or `None` when absent.
    pub open spec fn spec_get(&self, layer_id: LayerId) -> Option<T> {
        if layer_id.0 < self.0@.len() {
            self.0@[layer_id.0 as int]
        } else {
            None
        }
    }

    /// Whether a record is stored for `layer_id`.
    pub open spec fn spec_has(&self, layer_id: LayerId) -> bool {
        self.spec_get(layer_id) is Some
    }

    /// An empty store.
    pub fn new() -> (r: LayerMap<T>)
        ensures
            forall|id: LayerId| #[trigger] r.spec_get(id) is None,
    {
        LayerMap(Vec::new())
    }

    /// Inserts a record for a layer that has none, growing the backing
    /// storage as needed.
    pub fn add(&mut self, layer_id: LayerId, element: T)
        requires
            !old(self).spec_has(layer_id),
        ensures
            final(self).spec_get(layer_id) == Some(element),
            forall|id: LayerId|
                id != layer_id ==> #[trigger] final(self).spec_get(id) == old(self).spec_get(id),
    {
        while self.0.len() <= (layer_id.0 as usize)
            invariant
                old(self).0@.len() <= self.0@.len(),
                forall|i: int|
                    0 <= i < old(self).0@.len() ==> self.0@[i] == old(self).0@[i],
                forall|i: int| old(self).0@.len() <= i < self.0@.len() ==> self.0@[i] is None,
            decreases layer_id.0 + 1 - self.0.len(),
        {
            self.0.push(None);
        }
        self.0[layer_id.0 as usize] = Some(element);
        proof {
            assert forall|id: LayerId|
                id != layer_id implies #[trigger] self.spec_get(id) == old(self).spec_get(id) by {
                if id.0 < old(self).0@.len() {
                } else {
                }
            }
        }
    }

    /// Whether a record is stored for `layer_id`.
    pub fn has(&self, layer_id: LayerId) -> (r: bool)
        ensures
            r == self.spec_has(layer_id),
    {
        (layer_id.0 as usize) < self.0.len() && self.0[layer_id.0 as usize].is_some()
    }

    /// Removes and returns the record of a layer that has one.
    pub fn take(&mut self, layer_id: LayerId) -> (r: T)
        requires
            old(self).spec_has(layer_id),
        ensures
            old(self).spec_get(layer_id) == Some(r),
            final(self).spec_get(layer_id) is None,
            forall|id: LayerId|
                id != layer_id ==> #[trigger] final(self).spec_get(id) == old(self).spec_get(id),
            final(self).0@ == old(self).0@.update(layer_id.0 as int, None),
    {
        let slot = &mut self.0[layer_id.0 as usize];
        let r = slot.take();
        r.unwrap()
    }

    /// Removes the record of a layer that has one.
    pub fn remove(&mut self, layer_id: LayerId)
        requires
            old(self).spec_has(layer_id),
        ensures
            final(self).spec_get(layer_id) is None,
            forall|id: LayerId|
                id != layer_id ==> #[trigger] final(self).spec_get(id) == old(self).spec_get(id),
            final(self).0@ == old(self).0@.update(layer_id.0 as int, None),
    {
        let _ = self.take(layer_id);
    }

    /// Removes the record for `layer_id` if there is one.
    pub fn remove_if_present(&mut self, layer_id: LayerId)
        ensures
            final(self).spec_get(layer_id) is None,
            forall|id: LayerId|
                id != layer_id ==> #[trigger] final(self).spec_get(id) == old(self).spec_get(id),
            final(self).0@ == (if (layer_id.0 as int) < old(self).0@.len() {
                old(self).0@.update(layer_id.0 as int, None)
            } else {
                old(self).0@
            }),
    {
        if self.has(layer_id) {
            self.remove(layer_id);
        } else {
            proof {
                if (layer_id.0 as int) < self.0@.len() {
                    assert(self.0@.update(layer_id.0 as int, None) =~= self.0@);
                }
            }
        }
    }

    /// The record for `layer_id`, if any.
    pub fn get(&self, layer_id: LayerId) -> (r: Option<&T>)
        ensures
            match r {
                Some(v) => self.spec_get(layer_id) == Some(*v),
                None => self.spec_get(layer_id) is None,
            },
    {
        if (layer_id.0 as usize) >= self.0.len() {
            None
        } else {
            self.0[layer_id.0 as usize].as_ref()
        }
    }

    /// Mutable access to the record for `layer_id`, if any.
    pub fn get_mut(&mut self, layer_id: LayerId) -> (r: Option<&mut T>)
        ensures
            match r {
                Some(v) => {
                    &&& old(self).spec_get(layer_id) == Some(*v)
                    &&& final(self).spec_get(layer_id) == Some(*final(v))
                    &&& forall|id: LayerId|
                        id != layer_id ==> #[trigger] final(self).spec_get(id) == old(self).spec_get(
                            id,
                        )
                },
                None => {
                    &&& old(self).spec_get(layer_id) is None
                    &&& forall|id: LayerId|
                        #[trigger] final(self).spec_get(id) == old(self).spec_get(id)
                },
            },
    {
        if (layer_id.0 as usize) >= self.0.len() {
            None
        } else {
            let slot = &mut self.0[layer_id.0 as usize];
            match slot {
                Some(v) => Some(v),
                None => None,
            }
        }
    }

    /// Replaces the record of a layer that has one.
    pub fn set(&mut self, layer_id: LayerId, element: T)
        requires
            old(self).spec_has(layer_id),
        ensures
            final(self).spec_get(layer_id) == Some(element),
            forall|id: LayerId|
                id != layer_id ==> #[trigger] final(self).spec_get(id) == old(self).spec_get(id),
    {
        self.0[layer_id.0 as usize] = Some(element);
    }
}

} // verus!
