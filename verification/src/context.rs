//! The layer context: the entity-component layer tree and its mutation
//! API, plus the nested transaction protocol.
//!
//! The tree is stored as sparse component maps keyed by layer id. A
//! ghost map records, for every container, the sequence of its children;
//! well-formedness ties the stored sibling pointers and child-list ends
//! to that sequence, so every mutation is proved to keep the doubly
//! linked sibling lists consistent.

use crate::backend::Backend;
use crate::backend::CommitOutcome;
use crate::backend::Connection;
use crate::backend::ConnectionError;
use crate::backend::GLAPI;
use crate::backend::GLContextLayerBinding;
use crate::components::LayerContainerInfo;
use crate::components::LayerGeometryInfo;
use crate::components::LayerParent;
use crate::components::LayerSurfaceInfo;
use crate::components::LayerTreeInfo;
use crate::geometry::COORD_LIMIT;
use crate::geometry::Rect;
use crate::layer_map::LayerId;
use crate::layer_map::LayerMap;
use crate::promise::Promise;
use crate::promise::spec_resolve;
use crate::surface::SurfaceOptions;
use vstd::prelude::*;

verus! {

/// Where `insert_before` places the new child in the parent's child
/// sequence: at the index of the reference sibling, or at the end.
pub open spec fn spec_insert_position(s: Seq<LayerId>, reference: Option<LayerId>) -> int {
    match reference {
        Some(r) => s.index_of(r),
        None => s.len() as int,
    }
}

/// The open transaction: its nesting level and its completion promise.
pub struct TransactionInfo<L> {
    pub level: u32,
    pub promise: Promise<(), L>,
}

/// What closing a transaction level did.
pub enum EndOutcome<L> {
    /// An enclosing transaction level is still open; the backend was not
    /// involved.
    StillOpen,
    /// The outermost level closed: the backend committed and resolved
    /// the promise, which is handed back together with the outcome.
    Committed(CommitOutcome<L>, Promise<(), L>),
}

/// The core object: component maps for the layer tree, the transaction
/// state, and the active backend.
pub struct LayerContext<B> where B: Backend {
    pub next_layer_id: LayerId,
    pub transaction: Option<TransactionInfo<B::Listener>>,
    pub tree_component: LayerMap<LayerTreeInfo>,
    pub container_component: LayerMap<LayerContainerInfo>,
    pub geometry_component: LayerMap<LayerGeometryInfo>,
    pub surface_component: LayerMap<LayerSurfaceInfo>,
    pub backend: B,
    /// For every container, the sequence of its children in sibling
    /// order: the mathematical shape the sibling pointers must mirror.
    pub children: Ghost<Map<LayerId, Seq<LayerId>>>,
}

impl<B> LayerContext<B> where B: Backend {
    /// The nesting level of the open transaction, or zero.
    pub open spec fn txn_level(&self) -> int {
        match self.transaction {
            None => 0,
            Some(t) => t.level as int,
        }
    }

    /// Whether a transaction is open.
    pub open spec fn in_txn(&self) -> bool {
        self.transaction is Some
    }

    /// The parent of an attached layer.
    pub open spec fn spec_parent_of(&self, id: LayerId) -> Option<LayerParent> {
        match self.tree_component.spec_get(id) {
            Some(t) => Some(t.parent),
            None => None,
        }
    }

    /// The bounds of a layer: the zero rectangle while none are set.
    pub open spec fn spec_bounds(&self, id: LayerId) -> Rect {
        match self.geometry_component.spec_get(id) {
            Some(g) => g.bounds,
            None => Rect { x: 0, y: 0, width: 0, height: 0 },
        }
    }

    /// Whether the id belongs to a created layer: a container or a
    /// surface.
    pub open spec fn spec_created(&self, id: LayerId) -> bool {
        self.container_component.spec_has(id) || self.surface_component.spec_has(id)
    }

    /// The children of a container, in sibling order.
    pub open spec fn kids(&self, c: LayerId) -> Seq<LayerId> {
        self.children@[c]
    }

    /// The ghost child map lists exactly the containers.
    pub open spec fn wf_children_dom(&self) -> bool {
        forall|c: LayerId|
            #![trigger self.children@.dom().contains(c)]
            #![trigger self.container_component.spec_has(c)]
            self.children@.dom().contains(c) <==> self.container_component.spec_has(c)
    }

    /// The stored ends and sibling pointers of one container mirror its
    /// child sequence.
    pub open spec fn container_entry_ok(&self, c: LayerId) -> bool {
        let s = self.children@[c];
        let info = self.container_component.spec_get(c)->Some_0;
        &&& s.no_duplicates()
        &&& info.first_child == (if s.len() == 0 {
            None
        } else {
            Some(s[0])
        })
        &&& info.last_child == (if s.len() == 0 {
            None
        } else {
            Some(s[s.len() - 1])
        })
        &&& forall|i: int|
            0 <= i < s.len() ==> #[trigger] self.tree_component.spec_get(s[i]) == Some(
                LayerTreeInfo {
                    parent: LayerParent::Layer(c),
                    prev_sibling: if i == 0 {
                        None
                    } else {
                        Some(s[i - 1])
                    },
                    next_sibling: if i == s.len() - 1 {
                        None
                    } else {
                        Some(s[i + 1])
                    },
                },
            )
    }

    /// Every container's stored linkage mirrors its child sequence.
    pub open spec fn wf_containers(&self) -> bool {
        forall|c: LayerId|
            #[trigger] self.container_component.spec_has(c) ==> self.container_entry_ok(c)
    }

    /// Every attached layer's parent is the container whose child list
    /// carries it, or the native host.
    pub open spec fn wf_parents(&self) -> bool {
        forall|id: LayerId|
            match #[trigger] self.tree_component.spec_get(id) {
                Some(t) => match t.parent {
                    LayerParent::Layer(p) => self.container_component.spec_has(p)
                        && self.children@[p].contains(id),
                    LayerParent::NativeHost => true,
                },
                None => true,
            }
    }

    /// No layer is both a container and a surface.
    pub open spec fn wf_exclusive(&self) -> bool {
        forall|id: LayerId|
            #![trigger self.container_component.spec_has(id)]
            #![trigger self.surface_component.spec_has(id)]
            !(self.container_component.spec_has(id) && self.surface_component.spec_has(id))
    }

    /// Components exist only for ids already handed out.
    pub open spec fn wf_fresh(&self) -> bool {
        &&& forall|id: LayerId|
            #[trigger] self.tree_component.spec_get(id) is Some ==> id.0 < self.next_layer_id.0
        &&& forall|id: LayerId|
            #[trigger] self.container_component.spec_get(id) is Some ==> id.0
                < self.next_layer_id.0
        &&& forall|id: LayerId|
            #[trigger] self.geometry_component.spec_get(id) is Some ==> id.0
                < self.next_layer_id.0
        &&& forall|id: LayerId|
            #[trigger] self.surface_component.spec_get(id) is Some ==> id.0
                < self.next_layer_id.0
    }

    /// Every attached layer is a created one.
    pub open spec fn wf_created(&self) -> bool {
        forall|id: LayerId|
            #[trigger] self.tree_component.spec_get(id) is Some ==> self.spec_created(id)
    }

    /// Stored bounds stay within the coordinate limit.
    pub open spec fn wf_geometry(&self) -> bool {
        forall|id: LayerId|
            (#[trigger] self.geometry_component.spec_get(id)) matches Some(g)
                ==> g.bounds.spec_in_range(COORD_LIMIT as int)
    }

    /// An open transaction has a positive level and a pending promise.
    pub open spec fn wf_txn(&self) -> bool {
        match self.transaction {
            Some(t) => t.level >= 1 && t.promise@.result is Pending,
            None => true,
        }
    }

    /// Well-formedness of the whole context.
    pub open spec fn wf(&self) -> bool {
        &&& self.wf_children_dom()
        &&& self.wf_containers()
        &&& self.wf_parents()
        &&& self.wf_exclusive()
        &&& self.wf_fresh()
        &&& self.wf_created()
        &&& self.wf_geometry()
        &&& self.wf_txn()
    }

    /// Builds a context over a backend constructed from the connection.
    pub fn with_backend_connection(connection: Connection<B::NativeConnection>) -> (r: Result<
        LayerContext<B>,
        ConnectionError,
    >)
        ensures
            r matches Ok(ctx) ==> {
                &&& ctx.wf()
                &&& !ctx.in_txn()
                &&& ctx.next_layer_id.0 == 0
                &&& forall|id: LayerId| #[trigger] ctx.tree_component.spec_get(id) is None
                &&& forall|id: LayerId| #[trigger] ctx.container_component.spec_get(id) is None
                &&& forall|id: LayerId| #[trigger] ctx.geometry_component.spec_get(id) is None
                &&& forall|id: LayerId| #[trigger] ctx.surface_component.spec_get(id) is None
            },
    {
        let backend = match B::new(connection) {
            Ok(b) => b,
            Err(e) => {
                return Err(e);
            }
        };
        Ok(
            LayerContext {
                backend,
                next_layer_id: LayerId(0),
                transaction: None,
                tree_component: LayerMap::new(),
                container_component: LayerMap::new(),
                geometry_component: LayerMap::new(),
                surface_component: LayerMap::new(),
                children: Ghost(Map::empty()),
            },
        )
    }

    /// Whether a transaction is open.
    pub fn in_transaction(&self) -> (r: bool)
        ensures
            r == self.in_txn(),
    {
        self.transaction.is_some()
    }

    /// The GL API the active backend exposes.
    pub fn gl_api(&self) -> GLAPI {
        self.backend.gl_api()
    }

    /// Opens a transaction, or deepens the open one by one level. Only
    /// the outermost open reaches the backend.
    pub fn begin_transaction(&mut self)
        requires
            old(self).wf(),
            old(self).txn_level() < u32::MAX,
        ensures
            final(self).wf(),
            final(self).txn_level() == old(self).txn_level() + 1,
            final(self).next_layer_id == old(self).next_layer_id,
            final(self).tree_component == old(self).tree_component,
            final(self).container_component == old(self).container_component,
            final(self).geometry_component == old(self).geometry_component,
            final(self).surface_component == old(self).surface_component,
            final(self).children == old(self).children,
            final(self).backend == old(self).backend,
            old(self).in_txn() ==> final(self).transaction->Some_0.promise == old(
                self,
            ).transaction->Some_0.promise,
            !old(self).in_txn() ==> {
                &&& final(self).transaction->Some_0.promise@.result is Pending
                &&& final(self).transaction->Some_0.promise@.fulfilled == Seq::<B::Listener>::empty()
                &&& final(self).transaction->Some_0.promise@.rejected == Seq::<B::Listener>::empty()
            },
    {
        match &mut self.transaction {
            Some(t) => {
                t.level = t.level + 1;
            }
            None => {
                self.transaction = Some(TransactionInfo { level: 1, promise: Promise::new() });
                self.backend.begin_transaction();
            }
        }
    }

    /// Closes one transaction level. Closing the outermost level hands
    /// the component maps to the backend, which commits and resolves the
    /// transaction's promise; the resolved promise and the drained
    /// continuations come back in the outcome. Closing a nested level
    /// only decrements and never reaches the backend.
    pub fn end_transaction(&mut self) -> (r: EndOutcome<B::Listener>)
        requires
            old(self).wf(),
            old(self).in_txn(),
        ensures
            final(self).wf(),
            final(self).txn_level() == old(self).txn_level() - 1,
            final(self).next_layer_id == old(self).next_layer_id,
            final(self).tree_component == old(self).tree_component,
            final(self).container_component == old(self).container_component,
            final(self).geometry_component == old(self).geometry_component,
            final(self).surface_component == old(self).surface_component,
            final(self).children == old(self).children,
            old(self).txn_level() > 1 ==> {
                &&& r is StillOpen
                &&& final(self).backend == old(self).backend
                &&& final(self).transaction->Some_0.promise == old(
                    self,
                ).transaction->Some_0.promise
            },
            old(self).txn_level() == 1 ==> {
                &&& !final(self).in_txn()
                &&& r matches EndOutcome::Committed(out, promise) && (promise@, out.resolved@)
                    == spec_resolve(old(self).transaction->Some_0.promise@, ())
            },
    {
        let nested = match &self.transaction {
            Some(t) => t.level > 1,
            None => false,
        };
        if nested {
            match &mut self.transaction {
                Some(t) => {
                    t.level = t.level - 1;
                }
                None => {}
            }
            EndOutcome::StillOpen
        } else {
            let t = self.transaction.take().unwrap();
            let mut promise = t.promise;
            let out = self.backend.end_transaction(
                &mut promise,
                &self.tree_component,
                &self.container_component,
                &self.geometry_component,
                &self.surface_component,
            );
            EndOutcome::Committed(out, promise)
        }
    }

    /// Registers a continuation on the open transaction's promise; it
    /// is handed back by the commit's outcome, to be run once the
    /// transaction's effects have reached the display.
    pub fn when_committed(&mut self, listener: B::Listener)
        requires
            old(self).wf(),
            old(self).in_txn(),
        ensures
            final(self).wf(),
            final(self).txn_level() == old(self).txn_level(),
            final(self).next_layer_id == old(self).next_layer_id,
            final(self).tree_component == old(self).tree_component,
            final(self).container_component == old(self).container_component,
            final(self).geometry_component == old(self).geometry_component,
            final(self).surface_component == old(self).surface_component,
            final(self).children == old(self).children,
            final(self).backend == old(self).backend,
            final(self).transaction->Some_0.promise@.fulfilled == old(
                self,
            ).transaction->Some_0.promise@.fulfilled.push(listener),
            final(self).transaction->Some_0.promise@.result is Pending,
    {
        match &mut self.transaction {
            Some(t) => {
                let _ = t.promise.when_resolved(listener);
            }
            None => {}
        }
    }

    /// Allocates a fresh container layer and reports it to the backend.
    pub fn add_container_layer(&mut self) -> (r: LayerId)
        requires
            old(self).wf(),
            old(self).in_txn(),
            old(self).next_layer_id.0 < u32::MAX,
        ensures
            final(self).wf(),
            r == old(self).next_layer_id,
            final(self).next_layer_id.0 == old(self).next_layer_id.0 + 1,
            final(self).container_component.spec_get(r) == Some(
                LayerContainerInfo { first_child: None, last_child: None },
            ),
            forall|id: LayerId|
                id != r ==> #[trigger] final(self).container_component.spec_get(id) == old(
                    self,
                ).container_component.spec_get(id),
            final(self).tree_component == old(self).tree_component,
            final(self).geometry_component == old(self).geometry_component,
            final(self).surface_component == old(self).surface_component,
            final(self).children@ == old(self).children@.insert(r, Seq::<LayerId>::empty()),
            final(self).transaction == old(self).transaction,
    {
        let layer = self.next_layer_id;
        self.next_layer_id = LayerId(layer.0 + 1);
        self.container_component.add(
            layer,
            LayerContainerInfo { first_child: None, last_child: None },
        );
        self.children = Ghost(self.children@.insert(layer, Seq::empty()));
        proof {
            assert forall|c: LayerId|
                #[trigger] self.container_component.spec_has(c) implies self.container_entry_ok(
                c,
            ) by {
                if c != layer {
                    assert(old(self).container_component.spec_has(c));
                    assert(old(self).container_entry_ok(c));
                    assert(self.children@[c] == old(self).children@[c]);
                }
            }
        }
        self.backend.add_container_layer(layer);
        layer
    }

    /// Allocates a fresh surface layer with empty options and reports it
    /// to the backend.
    pub fn add_surface_layer(&mut self) -> (r: LayerId)
        requires
            old(self).wf(),
            old(self).in_txn(),
            old(self).next_layer_id.0 < u32::MAX,
        ensures
            final(self).wf(),
            r == old(self).next_layer_id,
            final(self).next_layer_id.0 == old(self).next_layer_id.0 + 1,
            final(self).surface_component.spec_get(r) == Some(
                LayerSurfaceInfo { options: SurfaceOptions { opaque: false, depth: false, stencil: false } },
            ),
            forall|id: LayerId|
                id != r ==> #[trigger] final(self).surface_component.spec_get(id) == old(
                    self,
                ).surface_component.spec_get(id),
            final(self).tree_component == old(self).tree_component,
            final(self).container_component == old(self).container_component,
            final(self).geometry_component == old(self).geometry_component,
            final(self).children == old(self).children,
            final(self).transaction == old(self).transaction,
    {
        let layer = self.next_layer_id;
        self.next_layer_id = LayerId(layer.0 + 1);
        self.surface_component.add(layer, LayerSurfaceInfo { options: SurfaceOptions::empty() });
        proof {
            assert forall|c: LayerId|
                #[trigger] self.container_component.spec_has(c) implies self.container_entry_ok(
                c,
            ) by {
                assert(old(self).container_entry_ok(c));
            }
        }
        self.backend.add_surface_layer(layer);
        layer
    }

    /// Anchors a detached layer under an externally owned presentation
    /// surface.
    pub fn host_layer(&mut self, host: B::Host, layer: LayerId)
        requires
            old(self).wf(),
            old(self).in_txn(),
            !old(self).tree_component.spec_has(layer),
            old(self).spec_created(layer),
        ensures
            final(self).wf(),
            final(self).tree_component.spec_get(layer) == Some(
                LayerTreeInfo {
                    parent: LayerParent::NativeHost,
                    prev_sibling: None,
                    next_sibling: None,
                },
            ),
            forall|id: LayerId|
                id != layer ==> #[trigger] final(self).tree_component.spec_get(id) == old(
                    self,
                ).tree_component.spec_get(id),
            final(self).container_component == old(self).container_component,
            final(self).geometry_component == old(self).geometry_component,
            final(self).surface_component == old(self).surface_component,
            final(self).children == old(self).children,
            final(self).transaction == old(self).transaction,
            final(self).next_layer_id == old(self).next_layer_id,
    {
        self.tree_component.add(
            layer,
            LayerTreeInfo {
                parent: LayerParent::NativeHost,
                prev_sibling: None,
                next_sibling: None,
            },
        );
        proof {
            self.lemma_wf_after_tree_add(*old(self), layer);
        }
        self.backend.host_layer(
            layer,
            host,
            &self.tree_component,
            &self.container_component,
            &self.geometry_component,
        );
    }

    /// Anchors a detached layer under the backend's own window.
    pub fn host_layer_in_window(&mut self, layer: LayerId) -> (r: Result<(), ()>)
        requires
            old(self).wf(),
            old(self).in_txn(),
            !old(self).tree_component.spec_has(layer),
            old(self).spec_created(layer),
        ensures
            final(self).wf(),
            final(self).tree_component.spec_get(layer) == Some(
                LayerTreeInfo {
                    parent: LayerParent::NativeHost,
                    prev_sibling: None,
                    next_sibling: None,
                },
            ),
            forall|id: LayerId|
                id != layer ==> #[trigger] final(self).tree_component.spec_get(id) == old(
                    self,
                ).tree_component.spec_get(id),
            final(self).container_component == old(self).container_component,
            final(self).geometry_component == old(self).geometry_component,
            final(self).surface_component == old(self).surface_component,
            final(self).children == old(self).children,
            final(self).transaction == old(self).transaction,
            final(self).next_layer_id == old(self).next_layer_id,
    {
        self.tree_component.add(
            layer,
            LayerTreeInfo {
                parent: LayerParent::NativeHost,
                prev_sibling: None,
                next_sibling: None,
            },
        );
        proof {
            self.lemma_wf_after_tree_add(*old(self), layer);
        }
        self.backend.host_layer_in_window(
            layer,
            &self.tree_component,
            &self.container_component,
            &self.geometry_component,
        )
    }

    /// After adding a `NativeHost` tree record for a detached created
    /// layer, the context stays well formed.
    proof fn lemma_wf_after_tree_add(&self, pre: Self, layer: LayerId)
        requires
            pre.wf(),
            pre.in_txn(),
            !pre.tree_component.spec_has(layer),
            pre.spec_created(layer),
            self.tree_component.spec_get(layer) == Some(
                LayerTreeInfo {
                    parent: LayerParent::NativeHost,
                    prev_sibling: None,
                    next_sibling: None,
                },
            ),
            forall|id: LayerId|
                id != layer ==> #[trigger] self.tree_component.spec_get(id)
                    == pre.tree_component.spec_get(id),
            self.container_component == pre.container_component,
            self.geometry_component == pre.geometry_component,
            self.surface_component == pre.surface_component,
            self.children == pre.children,
            self.transaction == pre.transaction,
            self.next_layer_id == pre.next_layer_id,
        ensures
            self.wf(),
    {
        assert forall|c: LayerId|
            #[trigger] self.container_component.spec_has(c) implies self.container_entry_ok(
            c,
        ) by {
            assert(pre.container_entry_ok(c));
            let s = self.children@[c];
            assert forall|i: int|
                0 <= i < s.len() implies #[trigger] self.tree_component.spec_get(s[i]) == Some(
                LayerTreeInfo {
                    parent: LayerParent::Layer(c),
                    prev_sibling: if i == 0 {
                        None
                    } else {
                        Some(s[i - 1])
                    },
                    next_sibling: if i == s.len() - 1 {
                        None
                    } else {
                        Some(s[i + 1])
                    },
                },
            ) by {
                assert(pre.tree_component.spec_get(s[i]) is Some);
                assert(s[i] != layer);
            }
        }
        assert(self.wf_fresh()) by {
            assert(self.spec_created(layer));
            assert(self.surface_component.spec_get(layer) is Some
                || self.container_component.spec_get(layer) is Some);
        }
    }

    /// Replaces a layer's bounds, handing the previous rectangle to the
    /// backend for its damage delta.
    pub fn set_layer_bounds(&mut self, layer: LayerId, new_bounds: &Rect)
        requires
            old(self).wf(),
            old(self).in_txn(),
            old(self).spec_created(layer),
            new_bounds.spec_in_range(COORD_LIMIT as int),
        ensures
            final(self).wf(),
            final(self).geometry_component.spec_get(layer) == Some(
                LayerGeometryInfo { bounds: *new_bounds },
            ),
            forall|id: LayerId|
                id != layer ==> #[trigger] final(self).geometry_component.spec_get(id) == old(
                    self,
                ).geometry_component.spec_get(id),
            final(self).tree_component == old(self).tree_component,
            final(self).container_component == old(self).container_component,
            final(self).surface_component == old(self).surface_component,
            final(self).children == old(self).children,
            final(self).transaction == old(self).transaction,
            final(self).next_layer_id == old(self).next_layer_id,
    {
        let old_bounds = match self.geometry_component.get(layer) {
            Some(g) => g.bounds,
            None => Rect::zero(),
        };
        if self.geometry_component.has(layer) {
            self.geometry_component.set(layer, LayerGeometryInfo { bounds: *new_bounds });
        } else {
            self.geometry_component.add(layer, LayerGeometryInfo { bounds: *new_bounds });
        }
        proof {
            assert forall|c: LayerId|
                #[trigger] self.container_component.spec_has(c) implies self.container_entry_ok(
                c,
            ) by {
                assert(old(self).container_entry_ok(c));
            }
        }
        self.backend.set_layer_bounds(
            layer,
            &old_bounds,
            &self.tree_component,
            &self.container_component,
            &self.geometry_component,
        );
    }

    /// Replaces a surface layer's options.
    pub fn set_layer_surface_options(&mut self, layer: LayerId, surface_options: SurfaceOptions)
        requires
            old(self).wf(),
            old(self).in_txn(),
            old(self).surface_component.spec_has(layer),
        ensures
            final(self).wf(),
            final(self).surface_component.spec_get(layer) == Some(
                LayerSurfaceInfo { options: surface_options },
            ),
            forall|id: LayerId|
                id != layer ==> #[trigger] final(self).surface_component.spec_get(id) == old(
                    self,
                ).surface_component.spec_get(id),
            final(self).tree_component == old(self).tree_component,
            final(self).container_component == old(self).container_component,
            final(self).geometry_component == old(self).geometry_component,
            final(self).children == old(self).children,
            final(self).transaction == old(self).transaction,
            final(self).next_layer_id == old(self).next_layer_id,
    {
        self.surface_component.set(layer, LayerSurfaceInfo { options: surface_options });
        proof {
            assert forall|c: LayerId|
                #[trigger] self.container_component.spec_has(c) implies self.container_entry_ok(
                c,
            ) by {
                assert(old(self).container_entry_ok(c));
            }
        }
        self.backend.set_layer_surface_options(layer, &self.surface_component);
    }

    /// Links a detached layer under a container: before `reference`, or
    /// at the end of the child list when `reference` is `None`. The
    /// sibling pointers and the container's child-list ends are spliced
    /// so that the doubly linked list mirrors the new child sequence.
    pub fn insert_before(&mut self, parent: LayerId, new_child: LayerId, reference: Option<LayerId>)
        requires
            old(self).wf(),
            old(self).in_txn(),
            old(self).container_component.spec_has(parent),
            !old(self).tree_component.spec_has(new_child),
            old(self).spec_created(new_child),
            match reference {
                Some(r) => old(self).tree_component.spec_get(r) matches Some(t) && t.parent
                    == LayerParent::Layer(parent),
                None => true,
            },
        ensures
            final(self).wf(),
            final(self).children@ == old(self).children@.insert(
                parent,
                old(self).children@[parent].insert(
                    spec_insert_position(old(self).children@[parent], reference),
                    new_child,
                ),
            ),
            final(self).spec_parent_of(new_child) == Some(LayerParent::Layer(parent)),
            forall|id: LayerId|
                id != new_child ==> #[trigger] final(self).spec_parent_of(id) == old(
                    self,
                ).spec_parent_of(id),
            forall|id: LayerId|
                #[trigger] final(self).tree_component.spec_has(id) == (old(
                    self,
                ).tree_component.spec_has(id) || id == new_child),
            forall|id: LayerId|
                id != parent ==> #[trigger] final(self).container_component.spec_get(id) == old(
                    self,
                ).container_component.spec_get(id),
            final(self).geometry_component == old(self).geometry_component,
            final(self).surface_component == old(self).surface_component,
            final(self).transaction == old(self).transaction,
            final(self).next_layer_id == old(self).next_layer_id,
    {
        let ghost s_old = self.children@[parent];
        let ghost j = spec_insert_position(s_old, reference);
        let ghost s_new = s_old.insert(j, new_child);
        proof {
            assert(old(self).container_entry_ok(parent));
            assert(s_old.no_duplicates());
            if let Some(r) = reference {
                assert(old(self).children@[parent].contains(r));
                assert(0 <= j < s_old.len() && s_old[j] == r);
            }
            s_old.insert_ensures(j, new_child);
            assert forall|m: int| 0 <= m < s_old.len() implies s_old[m] != new_child by {
                assert(old(self).tree_component.spec_get(s_old[m]) is Some);
            }
        }
        let new_prev_sibling: Option<LayerId> = match reference {
            Some(r) => self.tree_component.get(r).unwrap().prev_sibling,
            None => self.container_component.get(parent).unwrap().last_child,
        };
        proof {
            assert(new_prev_sibling == (if j == 0 {
                None
            } else {
                Some(s_old[j - 1])
            }));
        }
        self.tree_component.add(
            new_child,
            LayerTreeInfo {
                parent: LayerParent::Layer(parent),
                prev_sibling: new_prev_sibling,
                next_sibling: reference,
            },
        );
        match reference {
            Some(r) => {
                let mut info = *self.tree_component.get(r).unwrap();
                info.prev_sibling = Some(new_child);
                self.tree_component.set(r, info);
            }
            None => {
                let mut info = *self.container_component.get(parent).unwrap();
                info.last_child = Some(new_child);
                self.container_component.set(parent, info);
            }
        }
        match new_prev_sibling {
            Some(q) => {
                let mut info = *self.tree_component.get(q).unwrap();
                info.next_sibling = Some(new_child);
                self.tree_component.set(q, info);
            }
            None => {
                let mut info = *self.container_component.get(parent).unwrap();
                info.first_child = Some(new_child);
                self.container_component.set(parent, info);
            }
        }
        self.children = Ghost(self.children@.insert(parent, s_new));
        proof {
            self.lemma_insert_before_wf(*old(self), parent, new_child, reference, s_old, j, s_new);
        }
        self.backend.insert_before(
            parent,
            new_child,
            reference,
            &self.tree_component,
            &self.container_component,
            &self.geometry_component,
        );
    }

    /// The splice performed by `insert_before` keeps the context well
    /// formed and mirrors the inserted child sequence.
    proof fn lemma_insert_before_wf(
        &self,
        pre: Self,
        parent: LayerId,
        new_child: LayerId,
        reference: Option<LayerId>,
        s_old: Seq<LayerId>,
        j: int,
        s_new: Seq<LayerId>,
    )
        requires
            pre.wf(),
            pre.in_txn(),
            pre.container_component.spec_has(parent),
            !pre.tree_component.spec_has(new_child),
            pre.spec_created(new_child),
            match reference {
                Some(r) => pre.tree_component.spec_get(r) matches Some(t) && t.parent
                    == LayerParent::Layer(parent),
                None => true,
            },
            s_old == pre.children@[parent],
            j == spec_insert_position(s_old, reference),
            0 <= j <= s_old.len(),
            reference matches Some(r) ==> 0 <= j < s_old.len() && s_old[j] == r,
            s_new == s_old.insert(j, new_child),
            // The spliced state:
            self.children@ == pre.children@.insert(parent, s_new),
            self.tree_component.spec_get(new_child) == Some(
                LayerTreeInfo {
                    parent: LayerParent::Layer(parent),
                    prev_sibling: if j == 0 {
                        None
                    } else {
                        Some(s_old[j - 1])
                    },
                    next_sibling: reference,
                },
            ),
            reference matches Some(r) ==> self.tree_component.spec_get(r) == Some(
                LayerTreeInfo {
                    parent: LayerParent::Layer(parent),
                    prev_sibling: Some(new_child),
                    next_sibling: pre.tree_component.spec_get(r)->Some_0.next_sibling,
                },
            ),
            j > 0 ==> self.tree_component.spec_get(s_old[j - 1]) == Some(
                LayerTreeInfo {
                    parent: LayerParent::Layer(parent),
                    prev_sibling: pre.tree_component.spec_get(s_old[j - 1])->Some_0.prev_sibling,
                    next_sibling: Some(new_child),
                },
            ),
            forall|id: LayerId|
                id != new_child && (reference matches Some(r) ==> id != r) && (j > 0 ==> id
                    != s_old[j - 1]) ==> #[trigger] self.tree_component.spec_get(id)
                    == pre.tree_component.spec_get(id),
            self.container_component.spec_get(parent) == Some(
                LayerContainerInfo {
                    first_child: if j == 0 {
                        Some(new_child)
                    } else {
                        pre.container_component.spec_get(parent)->Some_0.first_child
                    },
                    last_child: if j == s_old.len() {
                        Some(new_child)
                    } else {
                        pre.container_component.spec_get(parent)->Some_0.last_child
                    },
                },
            ),
            forall|id: LayerId|
                id != parent ==> #[trigger] self.container_component.spec_get(id)
                    == pre.container_component.spec_get(id),
            self.geometry_component == pre.geometry_component,
            self.surface_component == pre.surface_component,
            self.transaction == pre.transaction,
            self.next_layer_id == pre.next_layer_id,
        ensures
            self.wf(),
    {
        assert(pre.container_entry_ok(parent));
        s_old.insert_ensures(j, new_child);
        assert forall|m: int| 0 <= m < s_old.len() implies s_old[m] != new_child by {
            assert(pre.tree_component.spec_get(s_old[m]) is Some);
        }
        // Freshness of ids.
        assert(self.wf_fresh()) by {
            assert(pre.container_component.spec_get(new_child) is Some
                || pre.surface_component.spec_get(new_child) is Some);
            assert forall|id: LayerId|
                #[trigger] self.tree_component.spec_get(id) is Some implies id.0
                < self.next_layer_id.0 by {
                let is_ref = match reference {
                    Some(r) => id == r,
                    None => false,
                };
                if id != new_child && !is_ref && !(j > 0 && id == s_old[j - 1]) {
                    assert(pre.tree_component.spec_get(id) is Some);
                }
                if is_ref {
                    assert(pre.tree_component.spec_get(id) is Some);
                }
                if j > 0 && id == s_old[j - 1] {
                    assert(pre.tree_component.spec_get(s_old[j - 1]) is Some);
                }
            }
            assert forall|id: LayerId|
                #[trigger] self.container_component.spec_get(id) is Some implies id.0
                < self.next_layer_id.0 by {
                if id != parent {
                    assert(pre.container_component.spec_get(id) is Some);
                } else {
                    assert(pre.container_component.spec_get(parent) is Some);
                }
            }
        }
        // No duplicates in the new sequence.
        assert(s_new.no_duplicates()) by {
            assert forall|a: int, b: int|
                0 <= a < s_new.len() && 0 <= b < s_new.len() && a != b implies s_new[a] != s_new[b] by {
                if a != j && b != j {
                    let a0 = if a < j {
                        a
                    } else {
                        a - 1
                    };
                    let b0 = if b < j {
                        b
                    } else {
                        b - 1
                    };
                    assert(s_new[a] == s_old[a0] && s_new[b] == s_old[b0]);
                } else if a == j {
                    let b0 = if b < j {
                        b
                    } else {
                        b - 1
                    };
                    assert(s_new[b] == s_old[b0]);
                } else {
                    let a0 = if a < j {
                        a
                    } else {
                        a - 1
                    };
                    assert(s_new[a] == s_old[a0]);
                }
            }
        }
        // The containers' stored linkage mirrors the child sequences.
        assert forall|c: LayerId|
            #[trigger] self.container_component.spec_has(c) implies self.container_entry_ok(
            c,
        ) by {
            if c == parent {
                let info = self.container_component.spec_get(parent)->Some_0;
                assert(info.first_child == Some(s_new[0]));
                assert(info.last_child == Some(s_new[s_new.len() - 1]));
                assert forall|i: int|
                    0 <= i < s_new.len() implies #[trigger] self.tree_component.spec_get(s_new[i])
                    == Some(
                    LayerTreeInfo {
                        parent: LayerParent::Layer(parent),
                        prev_sibling: if i == 0 {
                            None
                        } else {
                            Some(s_new[i - 1])
                        },
                        next_sibling: if i == s_new.len() - 1 {
                            None
                        } else {
                            Some(s_new[i + 1])
                        },
                    },
                ) by {
                    if i < j - 1 {
                        assert(s_new[i] == s_old[i]);
                        assert(pre.tree_component.spec_get(s_old[i]) is Some);
                    } else if i == j - 1 {
                        assert(s_new[i] == s_old[i]);
                        assert(pre.tree_component.spec_get(s_old[i]) is Some);
                    } else if i == j {
                        assert(s_new[i] == new_child);
                    } else if i == j + 1 {
                        assert(s_new[i] == s_old[i - 1]);
                        assert(pre.tree_component.spec_get(s_old[i - 1]) is Some);
                    } else {
                        assert(s_new[i] == s_old[i - 1]);
                        assert(pre.tree_component.spec_get(s_old[i - 1]) is Some);
                    }
                }
            } else {
                assert(pre.container_component.spec_has(c));
                assert(pre.container_entry_ok(c));
                let s = self.children@[c];
                assert(s == pre.children@[c]);
                assert forall|i: int|
                    0 <= i < s.len() implies #[trigger] self.tree_component.spec_get(s[i]) == Some(
                    LayerTreeInfo {
                        parent: LayerParent::Layer(c),
                        prev_sibling: if i == 0 {
                            None
                        } else {
                            Some(s[i - 1])
                        },
                        next_sibling: if i == s.len() - 1 {
                            None
                        } else {
                            Some(s[i + 1])
                        },
                    },
                ) by {
                    assert(pre.tree_component.spec_get(s[i]) == Some(
                        LayerTreeInfo {
                            parent: LayerParent::Layer(c),
                            prev_sibling: if i == 0 {
                                None
                            } else {
                                Some(s[i - 1])
                            },
                            next_sibling: if i == s.len() - 1 {
                                None
                            } else {
                                Some(s[i + 1])
                            },
                        },
                    ));
                    assert(s[i] != new_child);
                    match reference {
                        Some(r) => {
                            if s[i] == r {
                                assert(pre.tree_component.spec_get(r)->Some_0.parent
                                    == LayerParent::Layer(parent));
                                assert(false);
                            }
                        }
                        None => {}
                    }
                    if j > 0 && s[i] == s_old[j - 1] {
                        assert(pre.tree_component.spec_get(s_old[j - 1])->Some_0.parent
                            == LayerParent::Layer(parent));
                        assert(false);
                    }
                }
            }
        }
        // Every attached layer's parent matches the list that holds it.
        assert forall|id: LayerId|
            match #[trigger] self.tree_component.spec_get(id) {
                Some(t) => match t.parent {
                    LayerParent::Layer(p) => self.container_component.spec_has(p)
                        && self.children@[p].contains(id),
                    LayerParent::NativeHost => true,
                },
                None => true,
            } by {
            if self.tree_component.spec_get(id) is Some {
                let is_ref = match reference {
                    Some(r) => id == r,
                    None => false,
                };
                if id == new_child {
                    assert(s_new[j] == new_child);
                    assert(self.children@[parent].contains(new_child));
                } else if is_ref {
                    assert(s_new[j + 1] == id);
                    assert(self.children@[parent].contains(id));
                } else if j > 0 && id == s_old[j - 1] {
                    assert(s_new[j - 1] == s_old[j - 1]);
                    assert(self.children@[parent].contains(id));
                } else {
                    assert(self.tree_component.spec_get(id) == pre.tree_component.spec_get(id));
                    match pre.tree_component.spec_get(id) {
                        Some(t) => match t.parent {
                            LayerParent::Layer(p) => {
                                assert(pre.children@[p].contains(id));
                                if p == parent {
                                    let m = choose|m: int|
                                        0 <= m < s_old.len() && s_old[m] == id;
                                    if m < j {
                                        assert(s_new[m] == id);
                                    } else {
                                        assert(s_new[m + 1] == id);
                                    }
                                    assert(self.children@[parent].contains(id));
                                } else {
                                    assert(self.children@[p] == pre.children@[p]);
                                }
                            }
                            LayerParent::NativeHost => {}
                        },
                        None => {}
                    }
                }
            }
        }
        // Every attached layer is created.
        assert forall|id: LayerId|
            #[trigger] self.tree_component.spec_get(id) is Some implies self.spec_created(id) by {
            let is_ref = match reference {
                Some(r) => id == r,
                None => false,
            };
            if id == new_child {
            } else if is_ref {
                assert(pre.tree_component.spec_get(id) is Some);
            } else if j > 0 && id == s_old[j - 1] {
                assert(pre.tree_component.spec_get(s_old[j - 1]) is Some);
            } else {
                assert(pre.tree_component.spec_get(id) is Some);
            }
        }
    }

    /// Appends a detached layer at the end of a container's child list.
    pub fn append_child(&mut self, parent: LayerId, new_child: LayerId)
        requires
            old(self).wf(),
            old(self).in_txn(),
            old(self).container_component.spec_has(parent),
            !old(self).tree_component.spec_has(new_child),
            old(self).spec_created(new_child),
        ensures
            final(self).wf(),
            final(self).children@ == old(self).children@.insert(
                parent,
                old(self).children@[parent].push(new_child),
            ),
            final(self).spec_parent_of(new_child) == Some(LayerParent::Layer(parent)),
            forall|id: LayerId|
                id != new_child ==> #[trigger] final(self).spec_parent_of(id) == old(
                    self,
                ).spec_parent_of(id),
            forall|id: LayerId|
                #[trigger] final(self).tree_component.spec_has(id) == (old(
                    self,
                ).tree_component.spec_has(id) || id == new_child),
            forall|id: LayerId|
                id != parent ==> #[trigger] final(self).container_component.spec_get(id) == old(
                    self,
                ).container_component.spec_get(id),
            final(self).geometry_component == old(self).geometry_component,
            final(self).surface_component == old(self).surface_component,
            final(self).transaction == old(self).transaction,
            final(self).next_layer_id == old(self).next_layer_id,
    {
        proof {
            let s_old = self.children@[parent];
            assert(s_old.insert(s_old.len() as int, new_child) =~= s_old.push(new_child));
        }
        self.insert_before(parent, new_child, None)
    }

    /// Detaches a layer from its parent: a hosted layer is unhosted, a
    /// parented one is spliced out of its sibling list, repairing the
    /// container's child-list ends as needed. All other components
    /// survive.
    pub fn remove_from_parent(&mut self, old_child: LayerId)
        requires
            old(self).wf(),
            old(self).in_txn(),
            old(self).tree_component.spec_has(old_child),
        ensures
            final(self).wf(),
            final(self).tree_component.spec_get(old_child) is None,
            forall|id: LayerId|
                id != old_child ==> #[trigger] final(self).spec_parent_of(id) == old(
                    self,
                ).spec_parent_of(id),
            forall|id: LayerId|
                #[trigger] final(self).tree_component.spec_has(id) == (old(
                    self,
                ).tree_component.spec_has(id) && id != old_child),
            final(self).children@ == (match old(self).tree_component.spec_get(
                old_child,
            )->Some_0.parent {
                LayerParent::NativeHost => old(self).children@,
                LayerParent::Layer(p) => old(self).children@.insert(
                    p,
                    old(self).children@[p].remove(old(self).children@[p].index_of(old_child)),
                ),
            }),
            forall|id: LayerId|
                (match old(self).tree_component.spec_get(old_child)->Some_0.parent {
                    LayerParent::NativeHost => true,
                    LayerParent::Layer(p) => id != p,
                }) ==> #[trigger] final(self).container_component.spec_get(id) == old(
                    self,
                ).container_component.spec_get(id),
            final(self).geometry_component == old(self).geometry_component,
            final(self).surface_component == old(self).surface_component,
            final(self).transaction == old(self).transaction,
            final(self).next_layer_id == old(self).next_layer_id,
    {
        let old_tree = self.tree_component.take(old_child);
        match old_tree.parent {
            LayerParent::NativeHost => {
                proof {
                    assert forall|c: LayerId|
                        #[trigger] self.container_component.spec_has(c) implies self.container_entry_ok(
                        c,
                    ) by {
                        assert(old(self).container_entry_ok(c));
                        let s = self.children@[c];
                        assert forall|i: int| 0 <= i < s.len() implies s[i] != old_child by {
                            assert(old(self).tree_component.spec_get(s[i])->Some_0.parent
                                == LayerParent::Layer(c));
                        }
                    }
                }
                self.backend.unhost_layer(old_child);
            }
            LayerParent::Layer(parent_layer) => {
                let ghost s_old = self.children@[parent_layer];
                let ghost m = s_old.index_of(old_child);
                let ghost s_new = s_old.remove(m);
                proof {
                    assert(old(self).container_entry_ok(parent_layer));
                    assert(old(self).children@[parent_layer].contains(old_child));
                    assert(0 <= m < s_old.len() && s_old[m] == old_child);
                    s_old.remove_ensures(m);
                    assert(old_tree == old(self).tree_component.spec_get(s_old[m])->Some_0);
                }
                self.backend.remove_from_superlayer(
                    old_child,
                    parent_layer,
                    &self.tree_component,
                    &self.geometry_component,
                );
                match old_tree.prev_sibling {
                    None => {
                        let mut info = *self.container_component.get(parent_layer).unwrap();
                        info.first_child = old_tree.next_sibling;
                        self.container_component.set(parent_layer, info);
                    }
                    Some(prev_sibling) => {
                        let mut info = *self.tree_component.get(prev_sibling).unwrap();
                        info.next_sibling = old_tree.next_sibling;
                        self.tree_component.set(prev_sibling, info);
                    }
                }
                match old_tree.next_sibling {
                    None => {
                        let mut info = *self.container_component.get(parent_layer).unwrap();
                        info.last_child = old_tree.prev_sibling;
                        self.container_component.set(parent_layer, info);
                    }
                    Some(next_sibling) => {
                        let mut info = *self.tree_component.get(next_sibling).unwrap();
                        info.prev_sibling = old_tree.prev_sibling;
                        self.tree_component.set(next_sibling, info);
                    }
                }
                self.children = Ghost(self.children@.insert(parent_layer, s_new));
                proof {
                    self.lemma_remove_wf(*old(self), old_child, parent_layer, s_old, m, s_new);
                }
            }
        }
    }

    /// The splice performed by `remove_from_parent` keeps the context
    /// well formed.
    proof fn lemma_remove_wf(
        &self,
        pre: Self,
        old_child: LayerId,
        parent_layer: LayerId,
        s_old: Seq<LayerId>,
        m: int,
        s_new: Seq<LayerId>,
    )
        requires
            pre.wf(),
            pre.in_txn(),
            pre.tree_component.spec_get(old_child) matches Some(t) && t.parent
                == LayerParent::Layer(parent_layer),
            s_old == pre.children@[parent_layer],
            0 <= m < s_old.len(),
            s_old[m] == old_child,
            s_new == s_old.remove(m),
            self.children@ == pre.children@.insert(parent_layer, s_new),
            self.tree_component.spec_get(old_child) is None,
            m > 0 ==> self.tree_component.spec_get(s_old[m - 1]) == Some(
                LayerTreeInfo {
                    parent: LayerParent::Layer(parent_layer),
                    prev_sibling: pre.tree_component.spec_get(s_old[m - 1])->Some_0.prev_sibling,
                    next_sibling: pre.tree_component.spec_get(old_child)->Some_0.next_sibling,
                },
            ),
            m < s_old.len() - 1 ==> self.tree_component.spec_get(s_old[m + 1]) == Some(
                LayerTreeInfo {
                    parent: LayerParent::Layer(parent_layer),
                    prev_sibling: pre.tree_component.spec_get(old_child)->Some_0.prev_sibling,
                    next_sibling: pre.tree_component.spec_get(s_old[m + 1])->Some_0.next_sibling,
                },
            ),
            forall|id: LayerId|
                id != old_child && (m > 0 ==> id != s_old[m - 1]) && (m < s_old.len() - 1 ==> id
                    != s_old[m + 1]) ==> #[trigger] self.tree_component.spec_get(id)
                    == pre.tree_component.spec_get(id),
            self.container_component.spec_get(parent_layer) == Some(
                LayerContainerInfo {
                    first_child: if m == 0 {
                        pre.tree_component.spec_get(old_child)->Some_0.next_sibling
                    } else {
                        pre.container_component.spec_get(parent_layer)->Some_0.first_child
                    },
                    last_child: if m == s_old.len() - 1 {
                        pre.tree_component.spec_get(old_child)->Some_0.prev_sibling
                    } else {
                        pre.container_component.spec_get(parent_layer)->Some_0.last_child
                    },
                },
            ),
            forall|id: LayerId|
                id != parent_layer ==> #[trigger] self.container_component.spec_get(id)
                    == pre.container_component.spec_get(id),
            self.geometry_component == pre.geometry_component,
            self.surface_component == pre.surface_component,
            self.transaction == pre.transaction,
            self.next_layer_id == pre.next_layer_id,
        ensures
            self.wf(),
    {
        assert(pre.container_entry_ok(parent_layer));
        s_old.remove_ensures(m);
        assert(s_old.no_duplicates());
        assert(s_new.no_duplicates()) by {
            assert forall|a: int, b: int|
                0 <= a < s_new.len() && 0 <= b < s_new.len() && a != b implies s_new[a]
                != s_new[b] by {
                let a0 = if a < m {
                    a
                } else {
                    a + 1
                };
                let b0 = if b < m {
                    b
                } else {
                    b + 1
                };
                assert(s_new[a] == s_old[a0] && s_new[b] == s_old[b0]);
            }
        }
        assert(self.wf_fresh()) by {
            assert forall|id: LayerId|
                #[trigger] self.tree_component.spec_get(id) is Some implies id.0
                < self.next_layer_id.0 by {
                if m > 0 && id == s_old[m - 1] {
                    assert(pre.tree_component.spec_get(s_old[m - 1]) is Some);
                } else if m < s_old.len() - 1 && id == s_old[m + 1] {
                    assert(pre.tree_component.spec_get(s_old[m + 1]) is Some);
                } else if id != old_child {
                    assert(pre.tree_component.spec_get(id) is Some);
                }
            }
            assert forall|id: LayerId|
                #[trigger] self.container_component.spec_get(id) is Some implies id.0
                < self.next_layer_id.0 by {
                if id != parent_layer {
                    assert(pre.container_component.spec_get(id) is Some);
                } else {
                    assert(pre.container_component.spec_get(parent_layer) is Some);
                }
            }
        }
        assert forall|c: LayerId|
            #[trigger] self.container_component.spec_has(c) implies self.container_entry_ok(
            c,
        ) by {
            if c == parent_layer {
                let info = self.container_component.spec_get(parent_layer)->Some_0;
                assert(info.first_child == (if s_new.len() == 0 {
                    None
                } else {
                    Some(s_new[0])
                }));
                assert(info.last_child == (if s_new.len() == 0 {
                    None
                } else {
                    Some(s_new[s_new.len() - 1])
                }));
                assert forall|i: int|
                    0 <= i < s_new.len() implies #[trigger] self.tree_component.spec_get(s_new[i])
                    == Some(
                    LayerTreeInfo {
                        parent: LayerParent::Layer(parent_layer),
                        prev_sibling: if i == 0 {
                            None
                        } else {
                            Some(s_new[i - 1])
                        },
                        next_sibling: if i == s_new.len() - 1 {
                            None
                        } else {
                            Some(s_new[i + 1])
                        },
                    },
                ) by {
                    if i < m - 1 {
                        assert(s_new[i] == s_old[i]);
                        assert(pre.tree_component.spec_get(s_old[i]) is Some);
                    } else if i == m - 1 {
                        assert(s_new[i] == s_old[i]);
                        assert(pre.tree_component.spec_get(s_old[i]) is Some);
                    } else if i == m {
                        assert(s_new[i] == s_old[i + 1]);
                        assert(pre.tree_component.spec_get(s_old[i + 1]) is Some);
                    } else {
                        assert(s_new[i] == s_old[i + 1]);
                        assert(pre.tree_component.spec_get(s_old[i + 1]) is Some);
                    }
                }
            } else {
                assert(pre.container_component.spec_has(c));
                assert(pre.container_entry_ok(c));
                let s = self.children@[c];
                assert(s == pre.children@[c]);
                assert forall|i: int|
                    0 <= i < s.len() implies #[trigger] self.tree_component.spec_get(s[i]) == Some(
                    LayerTreeInfo {
                        parent: LayerParent::Layer(c),
                        prev_sibling: if i == 0 {
                            None
                        } else {
                            Some(s[i - 1])
                        },
                        next_sibling: if i == s.len() - 1 {
                            None
                        } else {
                            Some(s[i + 1])
                        },
                    },
                ) by {
                    assert(pre.tree_component.spec_get(s[i])->Some_0.parent == LayerParent::Layer(
                        c,
                    ));
                    if s[i] == old_child {
                        assert(false);
                    }
                    if m > 0 && s[i] == s_old[m - 1] {
                        assert(pre.tree_component.spec_get(s_old[m - 1])->Some_0.parent
                            == LayerParent::Layer(parent_layer));
                        assert(false);
                    }
                    if m < s_old.len() - 1 && s[i] == s_old[m + 1] {
                        assert(pre.tree_component.spec_get(s_old[m + 1])->Some_0.parent
                            == LayerParent::Layer(parent_layer));
                        assert(false);
                    }
                }
            }
        }
        assert forall|id: LayerId|
            match #[trigger] self.tree_component.spec_get(id) {
                Some(t) => match t.parent {
                    LayerParent::Layer(p) => self.container_component.spec_has(p)
                        && self.children@[p].contains(id),
                    LayerParent::NativeHost => true,
                },
                None => true,
            } by {
            if self.tree_component.spec_get(id) is Some && id != old_child {
                if m > 0 && id == s_old[m - 1] {
                    assert(s_new[m - 1] == id);
                    assert(self.children@[parent_layer].contains(id));
                } else if m < s_old.len() - 1 && id == s_old[m + 1] {
                    assert(s_new[m] == id);
                    assert(self.children@[parent_layer].contains(id));
                } else {
                    assert(self.tree_component.spec_get(id) == pre.tree_component.spec_get(id));
                    match pre.tree_component.spec_get(id) {
                        Some(t) => match t.parent {
                            LayerParent::Layer(p) => {
                                assert(pre.children@[p].contains(id));
                                if p == parent_layer {
                                    let k = choose|k: int|
                                        0 <= k < s_old.len() && s_old[k] == id;
                                    assert(k != m);
                                    if k < m {
                                        assert(s_new[k] == id);
                                    } else {
                                        assert(s_new[k - 1] == id);
                                    }
                                    assert(self.children@[parent_layer].contains(id));
                                } else {
                                    assert(self.children@[p] == pre.children@[p]);
                                }
                            }
                            LayerParent::NativeHost => {}
                        },
                        None => {}
                    }
                }
            }
        }
        assert forall|id: LayerId|
            #[trigger] self.tree_component.spec_get(id) is Some implies self.spec_created(id) by {
            if m > 0 && id == s_old[m - 1] {
                assert(pre.tree_component.spec_get(id) is Some);
            } else if m < s_old.len() - 1 && id == s_old[m + 1] {
                assert(pre.tree_component.spec_get(id) is Some);
            } else if id != old_child {
                assert(pre.tree_component.spec_get(id) is Some);
            }
        }
    }

    /// Deletes a detached layer, purging every component it still has.
    /// The layer must have been removed from the tree first, and a
    /// container must have no children left: deleting a container whose
    /// sibling list still carries children would leave their stored
    /// parents pointing at a purged id, breaking the list invariant, so
    /// the children must be detached or deleted first.
    #[verifier::rlimit(60)]
    pub fn delete_layer(&mut self, layer: LayerId)
        requires
            old(self).wf(),
            old(self).in_txn(),
            old(self).tree_component.spec_get(layer) is None,
            old(self).container_component.spec_get(layer) matches Some(ci)
                ==> ci.first_child is None,
        ensures
            final(self).wf(),
            final(self).tree_component.spec_get(layer) is None,
            final(self).container_component.spec_get(layer) is None,
            final(self).geometry_component.spec_get(layer) is None,
            final(self).surface_component.spec_get(layer) is None,
            forall|id: LayerId|
                id != layer ==> #[trigger] final(self).tree_component.spec_get(id) == old(
                    self,
                ).tree_component.spec_get(id),
            forall|id: LayerId|
                id != layer ==> #[trigger] final(self).container_component.spec_get(id) == old(
                    self,
                ).container_component.spec_get(id),
            forall|id: LayerId|
                id != layer ==> #[trigger] final(self).geometry_component.spec_get(id) == old(
                    self,
                ).geometry_component.spec_get(id),
            forall|id: LayerId|
                id != layer ==> #[trigger] final(self).surface_component.spec_get(id) == old(
                    self,
                ).surface_component.spec_get(id),
            final(self).children@ == old(self).children@.remove(layer),
            final(self).transaction == old(self).transaction,
            final(self).next_layer_id == old(self).next_layer_id,
    {
        self.tree_component.remove_if_present(layer);
        self.container_component.remove_if_present(layer);
        self.geometry_component.remove_if_present(layer);
        self.surface_component.remove_if_present(layer);
        self.children = Ghost(self.children@.remove(layer));
        proof {
            if old(self).container_component.spec_has(layer) {
                assert(old(self).container_entry_ok(layer));
                assert(old(self).children@[layer].len() == 0);
            }
            assert forall|c: LayerId|
                #[trigger] self.container_component.spec_has(c) implies self.container_entry_ok(
                c,
            ) by {
                assert(c != layer);
                assert(old(self).container_component.spec_has(c));
                assert(old(self).container_entry_ok(c));
                let s = self.children@[c];
                assert(s == old(self).children@[c]);
                assert forall|i: int| 0 <= i < s.len() implies s[i] != layer by {
                    assert(old(self).tree_component.spec_get(s[i]) is Some);
                }
            }
            assert forall|id: LayerId|
                match #[trigger] self.tree_component.spec_get(id) {
                    Some(t) => match t.parent {
                        LayerParent::Layer(p) => self.container_component.spec_has(p)
                            && self.children@[p].contains(id),
                        LayerParent::NativeHost => true,
                    },
                    None => true,
                } by {
                if id != layer {
                    match self.tree_component.spec_get(id) {
                        Some(t) => match t.parent {
                            LayerParent::Layer(p) => {
                                assert(old(self).children@[p].contains(id));
                                if p == layer {
                                    assert(old(self).children@[layer].len() == 0);
                                    assert(false);
                                }
                            }
                            LayerParent::NativeHost => {}
                        },
                        None => {}
                    }
                }
            }
            assert(self.wf_children_dom());
            assert(self.wf_containers());
            assert(self.wf_parents());
            assert(self.wf_exclusive());
            assert(self.wf_fresh());
            assert(self.wf_created());
            assert(self.wf_geometry());
            assert(self.wf_txn());
            assert(self.wf());
        }
        self.backend.delete_layer(layer);
    }

    /// The parent of an attached layer, or `None` for a detached one.
    pub fn parent_of(&self, layer: LayerId) -> (r: Option<&LayerParent>)
        ensures
            match r {
                Some(p) => self.spec_parent_of(layer) == Some(*p),
                None => self.spec_parent_of(layer) is None,
            },
    {
        match self.tree_component.get(layer) {
            Some(t) => Some(&t.parent),
            None => None,
        }
    }

    /// The bounds of a layer; a layer without stored geometry reads as
    /// the zero rectangle.
    pub fn layer_bounds(&self, layer: LayerId) -> (r: Rect)
        requires
            self.in_txn(),
        ensures
            r == self.spec_bounds(layer),
    {
        match self.geometry_component.get(layer) {
            None => Rect::zero(),
            Some(geometry) => geometry.bounds,
        }
    }

    /// Creates a GL context through the backend.
    pub fn create_gl_context(&mut self, options: SurfaceOptions) -> (r: Result<B::GLContext, ()>)
        requires
            old(self).wf(),
        ensures
            final(self).wf(),
            final(self).tree_component == old(self).tree_component,
            final(self).container_component == old(self).container_component,
            final(self).geometry_component == old(self).geometry_component,
            final(self).surface_component == old(self).surface_component,
            final(self).children == old(self).children,
            final(self).transaction == old(self).transaction,
            final(self).next_layer_id == old(self).next_layer_id,
    {
        self.backend.create_gl_context(options)
    }

    /// Wraps an externally created native GL context through the
    /// backend.
    pub fn wrap_gl_context(&mut self, native_gl_context: B::NativeGLContext) -> (r: Result<
        B::GLContext,
        (),
    >)
        requires
            old(self).wf(),
        ensures
            final(self).wf(),
            final(self).tree_component == old(self).tree_component,
            final(self).container_component == old(self).container_component,
            final(self).geometry_component == old(self).geometry_component,
            final(self).surface_component == old(self).surface_component,
            final(self).children == old(self).children,
            final(self).transaction == old(self).transaction,
            final(self).next_layer_id == old(self).next_layer_id,
    {
        self.backend.wrap_gl_context(native_gl_context)
    }

    /// Binds a surface layer to a GL context for rendering.
    pub fn bind_layer_to_gl_context(&mut self, layer: LayerId, context: &mut B::GLContext) -> (r:
        Result<GLContextLayerBinding, ()>)
        requires
            old(self).wf(),
            old(self).in_txn(),
            !old(self).container_component.spec_has(layer),
        ensures
            final(self).wf(),
            final(self).tree_component == old(self).tree_component,
            final(self).container_component == old(self).container_component,
            final(self).geometry_component == old(self).geometry_component,
            final(self).surface_component == old(self).surface_component,
            final(self).children == old(self).children,
            final(self).transaction == old(self).transaction,
            final(self).next_layer_id == old(self).next_layer_id,
    {
        self.backend.bind_layer_to_gl_context(
            layer,
            context,
            &self.geometry_component,
            &self.surface_component,
        )
    }

    /// Reports that a bound layer's content changed over
    /// `changed_rect`, so the backend can track damage.
    pub fn present_gl_context(&mut self, binding: GLContextLayerBinding, changed_rect: &Rect) -> (r:
        Result<(), ()>)
        requires
            old(self).wf(),
            old(self).in_txn(),
            changed_rect.spec_in_range(COORD_LIMIT as int),
        ensures
            final(self).wf(),
            final(self).tree_component == old(self).tree_component,
            final(self).container_component == old(self).container_component,
            final(self).geometry_component == old(self).geometry_component,
            final(self).surface_component == old(self).surface_component,
            final(self).children == old(self).children,
            final(self).transaction == old(self).transaction,
            final(self).next_layer_id == old(self).next_layer_id,
    {
        self.backend.present_gl_context(
            binding,
            changed_rect,
            &self.tree_component,
            &self.geometry_component,
        )
    }

    /// The screen-space box a screenshot of the hosted layer should
    /// capture. The caller schedules the actual read to run only after
    /// the transaction's promise resolves, so the capture never races
    /// the frame it depicts; `when_committed` registers that
    /// continuation.
    pub fn screenshot_hosted_layer(&mut self, layer: LayerId) -> (r: Rect)
        requires
            old(self).wf(),
            old(self).in_txn(),
            old(self).tree_component.spec_get(layer) matches Some(t) && t.parent
                == LayerParent::NativeHost,
        ensures
            final(self).wf(),
            final(self).tree_component == old(self).tree_component,
            final(self).container_component == old(self).container_component,
            final(self).geometry_component == old(self).geometry_component,
            final(self).surface_component == old(self).surface_component,
            final(self).children == old(self).children,
            final(self).transaction == old(self).transaction,
            final(self).next_layer_id == old(self).next_layer_id,
    {
        self.backend.screenshot_hosted_layer(
            layer,
            &self.tree_component,
            &self.container_component,
            &self.geometry_component,
            &self.surface_component,
        )
    }

    /// The children of a container, by forward traversal: from
    /// `first_child` along `next_sibling`. Under well-formedness this
    /// visits exactly the container's children, in order, and ends at
    /// `last_child`.
    pub fn children_of(&self, container: LayerId) -> (r: Vec<LayerId>)
        requires
            self.wf(),
            self.container_component.spec_has(container),
        ensures
            r@ == self.kids(container),
    {
        proof {
            assert(self.container_entry_ok(container));
        }
        let ghost s = self.kids(container);
        let mut result: Vec<LayerId> = Vec::new();
        let mut cur: Option<LayerId> = self.container_component.get(container).unwrap().first_child;
        while cur.is_some()
            invariant
                self.wf(),
                self.container_component.spec_has(container),
                self.container_entry_ok(container),
                s == self.kids(container),
                result@.len() <= s.len(),
                result@ == s.take(result@.len() as int),
                cur == (if result@.len() == s.len() {
                    None::<LayerId>
                } else {
                    Some(s[result@.len() as int])
                }),
            decreases s.len() - result@.len(),
        {
            let id = cur.unwrap();
            let ghost k = result@.len() as int;
            result.push(id);
            proof {
                assert(self.tree_component.spec_get(s[k]) is Some);
                assert(s.take(k + 1) =~= s.take(k).push(s[k]));
            }
            cur = self.tree_component.get(id).unwrap().next_sibling;
        }
        proof {
            assert(result@.len() == s.len());
            assert(s.take(s.len() as int) =~= s);
        }
        result
    }

    /// The children of a container, by reverse traversal: from
    /// `last_child` along `prev_sibling`. Under well-formedness this is
    /// the exact mirror of the forward traversal.
    pub fn children_of_reverse(&self, container: LayerId) -> (r: Vec<LayerId>)
        requires
            self.wf(),
            self.container_component.spec_has(container),
        ensures
            r@.len() == self.kids(container).len(),
            forall|i: int|
                0 <= i < r@.len() ==> #[trigger] r@[i] == self.kids(container)[self.kids(
                    container,
                ).len() - 1 - i],
    {
        proof {
            assert(self.container_entry_ok(container));
        }
        let ghost s = self.kids(container);
        let mut result: Vec<LayerId> = Vec::new();
        let mut cur: Option<LayerId> = self.container_component.get(container).unwrap().last_child;
        while cur.is_some()
            invariant
                self.wf(),
                self.container_component.spec_has(container),
                self.container_entry_ok(container),
                s == self.kids(container),
                result@.len() <= s.len(),
                forall|i: int| 0 <= i < result@.len() ==> #[trigger] result@[i] == s[s.len() - 1 - i],
                cur == (if result@.len() == s.len() {
                    None::<LayerId>
                } else {
                    Some(s[s.len() - 1 - result@.len() as int])
                }),
            decreases s.len() - result@.len(),
        {
            let id = cur.unwrap();
            let ghost k = s.len() - 1 - result@.len() as int;
            result.push(id);
            proof {
                assert(self.tree_component.spec_get(s[k]) is Some);
            }
            cur = self.tree_component.get(id).unwrap().prev_sibling;
        }
        result
    }
}

impl<B> LayerContext<B> where B: Backend {
    /// The sibling lists of a well-formed context are mutually
    /// consistent: a container's `first_child` and `last_child` are the
    /// ends of its child sequence, forward traversal along
    /// `next_sibling` visits exactly that sequence, and the
    /// `prev_sibling` links are its mirror.
    pub proof fn lemma_sibling_lists_consistent(&self, c: LayerId)
        requires
            self.wf(),
            self.container_component.spec_has(c),
        ensures
            self.container_entry_ok(c),
            forall|id: LayerId|
                self.kids(c).contains(id) <==> (#[trigger] self.spec_parent_of(id)) == Some(
                    LayerParent::Layer(c),
                ),
    {
        assert forall|id: LayerId|
            self.kids(c).contains(id) <==> (#[trigger] self.spec_parent_of(id)) == Some(
                LayerParent::Layer(c),
            ) by {
            if self.kids(c).contains(id) {
                let i = choose|i: int|
                    0 <= i < self.kids(c).len() && #[trigger] self.kids(c)[i] == id;
                assert(self.tree_component.spec_get(self.kids(c)[i]) is Some);
            }
        }
    }

    /// No layer ever has both the container and the surface component.
    pub proof fn lemma_container_surface_exclusive(&self, id: LayerId)
        requires
            self.wf(),
        ensures
            !(self.container_component.spec_has(id) && self.surface_component.spec_has(id)),
    {
    }
}

/// Closing fewer transaction levels than were opened never reaches the
/// backend's commit: after `n` opens, the level before the `i`-th close
/// is `n - (i - 1)`, and `end_transaction` commits only at level one,
/// so exactly the `n`-th close commits.
pub proof fn lemma_nested_transactions_commit_once(n: int, i: int)
    requires
        1 <= i <= n,
    ensures
        (n - (i - 1) == 1) <==> (i == n),
{
}

} // verus!
