//! The shared storages of all servers, and the handle protocol.
//!
//! One [`ServersStorage`] value holds the four object tables — bodies,
//! colliders, shapes, joints — and the garbage collector's queue.  Its
//! well-formedness predicate [`ServersStorage::wf`] is the cross-entity
//! consistency contract of the whole layer: a body's shape key and the
//! shape's registered-body set always agree, a collider exists exactly while
//! its body has a shape set and points back at that body, and a joint's
//! engine constraint exists exactly while both of its body slots are filled.
//! Every server operation requires and re-establishes `wf`.
//!
//! Handles are counted here: each object's store entry carries the number of
//! live handles naming it.  [`ServersStorage::clone_handle`] increments that
//! count and [`ServersStorage::drop_handle`] decrements it; the drop that
//! reaches zero queues the object's tag on the garbage collector, and the
//! per-step collection point (see `world_physics_server`) does the actual
//! destruction.

use vstd::prelude::*;

use crate::body::Body;
use crate::collider::Collider;
use crate::joint::Joint;
use crate::objects::{ObjectTag, PhysicsGarbageCollector, PhysicsHandle, UserData};
use crate::shape::RigidShape;
use crate::storage::{Storage, StoreKey};

verus! {

/// The routing tag a body's collider must carry: areas report as areas,
/// everything else as a rigid body.
pub open spec fn body_object_tag(b: Body, bk: StoreKey) -> ObjectTag {
    if b.body_data is Area {
        ObjectTag::Area(bk)
    } else {
        ObjectTag::RigidBody(bk)
    }
}

/// All storages the servers operate on, plus the garbage collector.
pub struct ServersStorage {
    pub bodies: Storage<Body>,
    pub colliders: Storage<Collider>,
    pub shapes: Storage<RigidShape>,
    pub joints: Storage<Joint>,
    pub gc: PhysicsGarbageCollector,
}

impl ServersStorage {
    /// No slot of any table is checked out: every operation returns its
    /// guards before it finishes.
    pub open spec fn locks_released(self) -> bool {
        &&& forall|k: StoreKey| !(#[trigger] self.bodies.locked(k))
        &&& forall|k: StoreKey| !(#[trigger] self.colliders.locked(k))
        &&& forall|k: StoreKey| !(#[trigger] self.shapes.locked(k))
        &&& forall|k: StoreKey| !(#[trigger] self.joints.locked(k))
    }

    /// Consistency of one body: its self key is backfilled; it has a shape
    /// key exactly while it has a collider; a set shape is present and lists
    /// this body; an installed collider is present, points back here, was
    /// built from the body's shape, is a sensor exactly for areas, and
    /// carries the resolvable routing tuple.
    pub open spec fn body_wf(self, bk: StoreKey) -> bool {
        let b = self.bodies.contents()[bk];
        &&& b.self_key == Some(bk)
        &&& match b.shape_key {
            Some(sk) => {
                &&& self.shapes.present(sk)
                &&& self.shapes.contents()[sk].bodies_spec().contains(bk)
                &&& b.collider_key is Some
            },
            None => b.collider_key is None,
        }
        &&& match b.collider_key {
            Some(ck) => {
                &&& self.colliders.present(ck)
                &&& self.colliders.contents()[ck].body_key == bk
                &&& Some(self.colliders.contents()[ck].shape_key) == b.shape_key
                &&& self.colliders.contents()[ck].sensor == (b.body_data is Area)
                &&& self.colliders.contents()[ck].user_data == (UserData {
                    object: body_object_tag(b, bk),
                    entity: b.entity,
                })
            },
            None => true,
        }
    }

    /// Consistency of one shape: self key backfilled, registered bodies
    /// unique, and every registered body present and pointing back here.
    pub open spec fn shape_wf(self, sk: StoreKey) -> bool {
        let s = self.shapes.contents()[sk];
        &&& s.self_key == Some(sk)
        &&& s.bodies_unique()
        &&& forall|bk: StoreKey| #[trigger]
            s.bodies_spec().contains(bk) ==> self.bodies.present(bk)
                && self.bodies.contents()[bk].shape_key == Some(sk)
    }

    /// Consistency of one collider: owned by exactly one present body that
    /// points back at it, and built from a present shape.
    pub open spec fn collider_wf(self, ck: StoreKey) -> bool {
        let c = self.colliders.contents()[ck];
        &&& self.bodies.present(c.body_key)
        &&& self.bodies.contents()[c.body_key].collider_key == Some(ck)
        &&& self.shapes.present(c.shape_key)
    }

    /// Consistency of one joint: self key backfilled, bound bodies present
    /// (part index zero), and the engine constraint existing exactly while
    /// both slots are filled, matching the slots, with both anchors derived
    /// from the joint's initial isometry.
    pub open spec fn joint_wf(self, jk: StoreKey) -> bool {
        let j = self.joints.contents()[jk];
        &&& j.self_key == Some(jk)
        &&& (j.constraint is Some <==> (j.body_0 is Some && j.body_1 is Some))
        &&& match j.body_0 {
            Some(bp) => self.bodies.present(bp.body) && bp.part == 0,
            None => true,
        }
        &&& match j.body_1 {
            Some(bp) => self.bodies.present(bp.body) && bp.part == 0,
            None => true,
        }
        &&& match j.constraint {
            Some(c) => {
                &&& Some(c.body_0) == j.body_0
                &&& Some(c.body_1) == j.body_1
                &&& c.anchor_0.joint_isometry == j.initial_isometry
                &&& c.anchor_1.joint_isometry == j.initial_isometry
            },
            None => true,
        }
    }

    /// The cross-entity consistency contract of the whole layer.
    pub open spec fn wf(self) -> bool {
        &&& self.bodies.wf()
        &&& self.colliders.wf()
        &&& self.shapes.wf()
        &&& self.joints.wf()
        &&& self.locks_released()
        &&& forall|bk: StoreKey| #[trigger] self.bodies.present(bk) ==> self.body_wf(bk)
        &&& forall|sk: StoreKey| #[trigger] self.shapes.present(sk) ==> self.shape_wf(sk)
        &&& forall|ck: StoreKey| #[trigger] self.colliders.present(ck) ==> self.collider_wf(ck)
        &&& forall|jk: StoreKey| #[trigger] self.joints.present(jk) ==> self.joint_wf(jk)
    }

    /// Number of live handles naming the object under `tag`; zero once the
    /// object is gone or its last handle was dropped.
    pub open spec fn handle_count(self, tag: ObjectTag) -> u64 {
        match tag {
            ObjectTag::RigidBody(k) => if self.bodies.present(k) {
                self.bodies.contents()[k].handle_count
            } else {
                0
            },
            ObjectTag::Area(k) => if self.bodies.present(k) {
                self.bodies.contents()[k].handle_count
            } else {
                0
            },
            ObjectTag::Shape(k) => if self.shapes.present(k) {
                self.shapes.contents()[k].handle_count
            } else {
                0
            },
            ObjectTag::Joint(k) => if self.joints.present(k) {
                self.joints.contents()[k].handle_count
            } else {
                0
            },
        }
    }

    /// Fresh storages: everything empty, nothing pending.
    pub fn new() -> (s: ServersStorage)
        ensures
            s.wf(),
            forall|k: StoreKey| !(#[trigger] s.bodies.live(k)) && !s.bodies.stale(k),
            forall|k: StoreKey| !(#[trigger] s.colliders.live(k)),
            forall|k: StoreKey| !(#[trigger] s.shapes.live(k)) && !s.shapes.stale(k),
            forall|k: StoreKey| !(#[trigger] s.joints.live(k)) && !s.joints.stale(k),
            s.bodies.fresh_generation() == 0,
            s.shapes.fresh_generation() == 0,
            s.joints.fresh_generation() == 0,
            s.colliders.fresh_generation() == 0,
            s.gc.pending() == Seq::<ObjectTag>::empty(),
    {
        let s = ServersStorage {
            bodies: Storage::new(10, 10),
            colliders: Storage::new(10, 10),
            shapes: Storage::new(10, 10),
            joints: Storage::new(10, 10),
            gc: PhysicsGarbageCollector::new(),
        };
        proof {
            assert forall|bk: StoreKey| #[trigger] s.bodies.present(bk) implies s.body_wf(bk) by {
                assert(!s.bodies.live(bk));
            }
            assert forall|sk: StoreKey| #[trigger] s.shapes.present(sk) implies s.shape_wf(sk) by {
                assert(!s.shapes.live(sk));
            }
            assert forall|ck: StoreKey| #[trigger] s.colliders.present(ck) implies s.collider_wf(ck) by {
                assert(!s.colliders.live(ck));
            }
            assert forall|jk: StoreKey| #[trigger] s.joints.present(jk) implies s.joint_wf(jk) by {
                assert(!s.joints.live(jk));
            }
        }
        s
    }
}

/// Law: a body and a shape agree about each other.  A live body points at
/// a shape exactly when that shape's registered-body set lists the body;
/// both directions are part of the layer's consistency contract and hold
/// after every operation.
pub proof fn lemma_body_shape_agree(s: ServersStorage, bk: StoreKey, sk: StoreKey)
    requires
        s.wf(),
        s.bodies.present(bk),
        s.shapes.present(sk),
    ensures
        (s.bodies.contents()[bk].shape_key == Some(sk)) == s.shapes.contents()[
            sk
        ].bodies_spec().contains(bk),
        s.bodies.contents()[bk].shape_key == Some(sk) ==> s.bodies.contents()[bk].collider_key
            is Some,
        s.bodies.contents()[bk].shape_key is None ==> s.bodies.contents()[bk].collider_key
            is None,
{
    assert(s.body_wf(bk));
    assert(s.shape_wf(sk));
}

/// The bodies table of `post` equals that of `pre` with only the value under
/// `k` replaced, and the other three tables are untouched.
pub open spec fn bodies_value_set(pre: ServersStorage, post: ServersStorage, k: StoreKey, nb: Body) -> bool {
    &&& post.bodies.contents() == pre.bodies.contents().insert(k, nb)
    &&& (forall|k2: StoreKey| #[trigger] post.bodies.live(k2) == pre.bodies.live(k2))
    &&& (forall|k2: StoreKey| #[trigger] post.bodies.locked(k2) == pre.bodies.locked(k2))
    &&& (forall|k2: StoreKey| pre.bodies.stale(k2) ==> #[trigger] post.bodies.stale(k2))
    &&& post.bodies.fresh_generation() == pre.bodies.fresh_generation()
    &&& post.bodies.wf()
    &&& post.colliders == pre.colliders
    &&& post.shapes == pre.shapes
    &&& post.joints == pre.joints
}

/// The shapes table of `post` equals that of `pre` with only the value under
/// `k` replaced, and the other three tables are untouched.
pub open spec fn shapes_value_set(pre: ServersStorage, post: ServersStorage, k: StoreKey, ns: RigidShape) -> bool {
    &&& post.shapes.contents() == pre.shapes.contents().insert(k, ns)
    &&& (forall|k2: StoreKey| #[trigger] post.shapes.live(k2) == pre.shapes.live(k2))
    &&& (forall|k2: StoreKey| #[trigger] post.shapes.locked(k2) == pre.shapes.locked(k2))
    &&& (forall|k2: StoreKey| pre.shapes.stale(k2) ==> #[trigger] post.shapes.stale(k2))
    &&& post.shapes.fresh_generation() == pre.shapes.fresh_generation()
    &&& post.shapes.wf()
    &&& post.bodies == pre.bodies
    &&& post.colliders == pre.colliders
    &&& post.joints == pre.joints
}

/// The joints table of `post` equals that of `pre` with only the value under
/// `k` replaced, and the other three tables are untouched.
pub open spec fn joints_value_set(pre: ServersStorage, post: ServersStorage, k: StoreKey, nj: Joint) -> bool {
    &&& post.joints.contents() == pre.joints.contents().insert(k, nj)
    &&& (forall|k2: StoreKey| #[trigger] post.joints.live(k2) == pre.joints.live(k2))
    &&& (forall|k2: StoreKey| #[trigger] post.joints.locked(k2) == pre.joints.locked(k2))
    &&& (forall|k2: StoreKey| pre.joints.stale(k2) ==> #[trigger] post.joints.stale(k2))
    &&& post.joints.fresh_generation() == pre.joints.fresh_generation()
    &&& post.joints.wf()
    &&& post.bodies == pre.bodies
    &&& post.colliders == pre.colliders
    &&& post.shapes == pre.shapes
}

/// Replacing one body value without touching its link fields (self key,
/// shape key, collider key, entity, kind) keeps the whole layer consistent.
pub proof fn lemma_wf_body_value_update(pre: ServersStorage, post: ServersStorage, k: StoreKey, nb: Body)
    requires
        pre.wf(),
        pre.bodies.present(k),
        bodies_value_set(pre, post, k, nb),
        nb.self_key == pre.bodies.contents()[k].self_key,
        nb.shape_key == pre.bodies.contents()[k].shape_key,
        nb.collider_key == pre.bodies.contents()[k].collider_key,
        nb.entity == pre.bodies.contents()[k].entity,
        (nb.body_data is Area) == (pre.bodies.contents()[k].body_data is Area),
    ensures
        post.wf(),
{
    assert forall|bk: StoreKey| #[trigger] post.bodies.present(bk) implies post.body_wf(bk) by {
        assert(pre.bodies.present(bk));
        assert(pre.body_wf(bk));
        if bk != k {
            assert(post.bodies.contents()[bk] == pre.bodies.contents()[bk]);
        }
    }
    assert forall|sk: StoreKey| #[trigger] post.shapes.present(sk) implies post.shape_wf(sk) by {
        assert(pre.shapes.present(sk));
        assert(pre.shape_wf(sk));
        let s = post.shapes.contents()[sk];
        assert(s == pre.shapes.contents()[sk]);
        assert forall|bk: StoreKey| #[trigger] s.bodies_spec().contains(bk) implies post.bodies.present(
            bk,
        ) && post.bodies.contents()[bk].shape_key == Some(sk) by {
            assert(pre.bodies.present(bk));
            assert(pre.bodies.contents()[bk].shape_key == Some(sk));
            if bk != k {
                assert(post.bodies.contents()[bk] == pre.bodies.contents()[bk]);
            }
        }
    }
    assert forall|ck: StoreKey| #[trigger] post.colliders.present(ck) implies post.collider_wf(ck) by {
        assert(pre.colliders.present(ck));
        assert(pre.collider_wf(ck));
        let c = post.colliders.contents()[ck];
        assert(c == pre.colliders.contents()[ck]);
        if c.body_key != k {
            assert(post.bodies.contents()[c.body_key] == pre.bodies.contents()[c.body_key]);
        }
    }
    assert forall|jk: StoreKey| #[trigger] post.joints.present(jk) implies post.joint_wf(jk) by {
        assert(pre.joints.present(jk));
        assert(pre.joint_wf(jk));
        assert(post.joints.contents()[jk] == pre.joints.contents()[jk]);
    }
}

/// Replacing one shape value without touching its link fields (self key,
/// registered bodies) keeps the whole layer consistent.
pub proof fn lemma_wf_shape_value_update(pre: ServersStorage, post: ServersStorage, k: StoreKey, ns: RigidShape)
    requires
        pre.wf(),
        pre.shapes.present(k),
        shapes_value_set(pre, post, k, ns),
        ns.self_key == pre.shapes.contents()[k].self_key,
        ns.bodies_spec() == pre.shapes.contents()[k].bodies_spec(),
    ensures
        post.wf(),
{
    assert forall|bk: StoreKey| #[trigger] post.bodies.present(bk) implies post.body_wf(bk) by {
        assert(pre.bodies.present(bk));
        assert(pre.body_wf(bk));
        let b = post.bodies.contents()[bk];
        assert(b == pre.bodies.contents()[bk]);
        match b.shape_key {
            Some(sk) => {
                if sk == k {
                    assert(post.shapes.contents()[sk].bodies_spec() == pre.shapes.contents()[sk].bodies_spec());
                } else {
                    assert(post.shapes.contents()[sk] == pre.shapes.contents()[sk]);
                }
            },
            None => {},
        }
    }
    assert forall|sk: StoreKey| #[trigger] post.shapes.present(sk) implies post.shape_wf(sk) by {
        assert(pre.shapes.present(sk));
        assert(pre.shape_wf(sk));
        if sk != k {
            assert(post.shapes.contents()[sk] == pre.shapes.contents()[sk]);
        }
        let s = post.shapes.contents()[sk];
        assert forall|bk: StoreKey| #[trigger] s.bodies_spec().contains(bk) implies post.bodies.present(
            bk,
        ) && post.bodies.contents()[bk].shape_key == Some(sk) by {
            assert(pre.shapes.contents()[sk].bodies_spec().contains(bk));
            assert(pre.bodies.present(bk));
        }
    }
    assert forall|ck: StoreKey| #[trigger] post.colliders.present(ck) implies post.collider_wf(ck) by {
        assert(pre.colliders.present(ck));
        assert(pre.collider_wf(ck));
    }
    assert forall|jk: StoreKey| #[trigger] post.joints.present(jk) implies post.joint_wf(jk) by {
        assert(pre.joints.present(jk));
        assert(pre.joint_wf(jk));
        assert(post.joints.contents()[jk] == pre.joints.contents()[jk]);
    }
}

/// Replacing one joint value that stays consistent on its own terms keeps
/// the whole layer consistent: a joint is referenced by nothing else.
pub proof fn lemma_wf_joint_value_update(pre: ServersStorage, post: ServersStorage, k: StoreKey, nj: Joint)
    requires
        pre.wf(),
        pre.joints.present(k),
        joints_value_set(pre, post, k, nj),
        nj.self_key == pre.joints.contents()[k].self_key,
        (nj.constraint is Some <==> (nj.body_0 is Some && nj.body_1 is Some)),
        match nj.body_0 {
            Some(bp) => pre.bodies.present(bp.body) && bp.part == 0,
            None => true,
        },
        match nj.body_1 {
            Some(bp) => pre.bodies.present(bp.body) && bp.part == 0,
            None => true,
        },
        match nj.constraint {
            Some(c) => {
                &&& Some(c.body_0) == nj.body_0
                &&& Some(c.body_1) == nj.body_1
                &&& c.anchor_0.joint_isometry == nj.initial_isometry
                &&& c.anchor_1.joint_isometry == nj.initial_isometry
            },
            None => true,
        },
    ensures
        post.wf(),
{
    assert forall|bk: StoreKey| #[trigger] post.bodies.present(bk) implies post.body_wf(bk) by {
        assert(pre.bodies.present(bk));
        assert(pre.body_wf(bk));
    }
    assert forall|sk: StoreKey| #[trigger] post.shapes.present(sk) implies post.shape_wf(sk) by {
        assert(pre.shapes.present(sk));
        assert(pre.shape_wf(sk));
        let s = post.shapes.contents()[sk];
        assert forall|bk: StoreKey| #[trigger] s.bodies_spec().contains(bk) implies post.bodies.present(
            bk,
        ) && post.bodies.contents()[bk].shape_key == Some(sk) by {
            assert(pre.shapes.contents()[sk].bodies_spec().contains(bk));
        }
    }
    assert forall|ck: StoreKey| #[trigger] post.colliders.present(ck) implies post.collider_wf(ck) by {
        assert(pre.colliders.present(ck));
        assert(pre.collider_wf(ck));
    }
    assert forall|jk: StoreKey| #[trigger] post.joints.present(jk) implies post.joint_wf(jk) by {
        assert(pre.joints.present(jk));
        if jk != k {
            assert(pre.joint_wf(jk));
            assert(post.joints.contents()[jk] == pre.joints.contents()[jk]);
        }
    }
}

impl ServersStorage {
    /// Clone a handle: one more owner of the same object.  The object's
    /// handle count rises by one and nothing else changes.
    pub fn clone_handle(&mut self, h: &PhysicsHandle) -> (r: PhysicsHandle)
        requires
            old(self).wf(),
            1 <= old(self).handle_count(h.tag) < u64::MAX,
        ensures
            final(self).wf(),
            r == *h,
            final(self).handle_count(h.tag) == old(self).handle_count(h.tag) + 1,
            final(self).gc == old(self).gc,
            match h.tag {
                ObjectTag::RigidBody(k) | ObjectTag::Area(k) => bodies_value_set(
                    *old(self),
                    *final(self),
                    k,
                    Body {
                        handle_count: (old(self).handle_count(h.tag) + 1) as u64,
                        ..old(self).bodies.contents()[k]
                    },
                ),
                ObjectTag::Shape(k) => shapes_value_set(
                    *old(self),
                    *final(self),
                    k,
                    RigidShape {
                        handle_count: (old(self).handle_count(h.tag) + 1) as u64,
                        ..old(self).shapes.contents()[k]
                    },
                ),
                ObjectTag::Joint(k) => joints_value_set(
                    *old(self),
                    *final(self),
                    k,
                    Joint {
                        handle_count: (old(self).handle_count(h.tag) + 1) as u64,
                        ..old(self).joints.contents()[k]
                    },
                ),
            },
    {
        let k = h.tag.key();
        match h.tag {
            ObjectTag::RigidBody(_) | ObjectTag::Area(_) => {
                let ghost pre = *self;
                let guard_opt = self.bodies.get_mut(k);
                match guard_opt {
                    Some(mut g) => {
                        g.value.handle_count = g.value.handle_count + 1;
                        let ghost nb = g.value;
                        self.bodies.release(g);
                        proof {
                            assert(self.bodies.contents() =~= pre.bodies.contents().insert(k, nb));
                            lemma_wf_body_value_update(pre, *self, k, nb);
                        }
                    },
                    None => {
                        proof {
                            assert(false);
                        }
                    },
                }
            },
            ObjectTag::Shape(_) => {
                let ghost pre = *self;
                let guard_opt = self.shapes.get_mut(k);
                match guard_opt {
                    Some(mut g) => {
                        g.value.handle_count = g.value.handle_count + 1;
                        let ghost ns = g.value;
                        self.shapes.release(g);
                        proof {
                            assert(self.shapes.contents() =~= pre.shapes.contents().insert(k, ns));
                            lemma_wf_shape_value_update(pre, *self, k, ns);
                        }
                    },
                    None => {
                        proof {
                            assert(false);
                        }
                    },
                }
            },
            ObjectTag::Joint(_) => {
                let ghost pre = *self;
                let guard_opt = self.joints.get_mut(k);
                match guard_opt {
                    Some(mut g) => {
                        g.value.handle_count = g.value.handle_count + 1;
                        let ghost nj = g.value;
                        self.joints.release(g);
                        proof {
                            assert(self.joints.contents() =~= pre.joints.contents().insert(k, nj));
                            lemma_wf_joint_value_update(pre, *self, k, nj);
                        }
                    },
                    None => {
                        proof {
                            assert(false);
                        }
                    },
                }
            },
        }
        PhysicsHandle { tag: h.tag }
    }

    /// Drop a handle: one owner fewer.  The object's handle count falls by
    /// one; the drop that reaches zero queues the object's tag for the next
    /// collection point — it deletes nothing itself.
    pub fn drop_handle(&mut self, h: PhysicsHandle)
        requires
            old(self).wf(),
            old(self).handle_count(h.tag) >= 1,
        ensures
            final(self).wf(),
            final(self).handle_count(h.tag) == old(self).handle_count(h.tag) - 1,
            old(self).handle_count(h.tag) == 1 ==> final(self).gc.pending() == old(
                self,
            ).gc.pending().push(h.tag),
            old(self).handle_count(h.tag) > 1 ==> final(self).gc == old(self).gc,
            match h.tag {
                ObjectTag::RigidBody(k) | ObjectTag::Area(k) => bodies_value_set(
                    *old(self),
                    *final(self),
                    k,
                    Body {
                        handle_count: (old(self).handle_count(h.tag) - 1) as u64,
                        ..old(self).bodies.contents()[k]
                    },
                ),
                ObjectTag::Shape(k) => shapes_value_set(
                    *old(self),
                    *final(self),
                    k,
                    RigidShape {
                        handle_count: (old(self).handle_count(h.tag) - 1) as u64,
                        ..old(self).shapes.contents()[k]
                    },
                ),
                ObjectTag::Joint(k) => joints_value_set(
                    *old(self),
                    *final(self),
                    k,
                    Joint {
                        handle_count: (old(self).handle_count(h.tag) - 1) as u64,
                        ..old(self).joints.contents()[k]
                    },
                ),
            },
    {
        let k = h.tag.key();
        let mut reached_zero = false;
        match h.tag {
            ObjectTag::RigidBody(_) | ObjectTag::Area(_) => {
                let ghost pre = *self;
                let guard_opt = self.bodies.get_mut(k);
                match guard_opt {
                    Some(mut g) => {
                        g.value.handle_count = g.value.handle_count - 1;
                        reached_zero = g.value.handle_count == 0;
                        let ghost nb = g.value;
                        self.bodies.release(g);
                        proof {
                            assert(self.bodies.contents() =~= pre.bodies.contents().insert(k, nb));
                            lemma_wf_body_value_update(pre, *self, k, nb);
                        }
                    },
                    None => {
                        proof {
                            assert(false);
                        }
                    },
                }
            },
            ObjectTag::Shape(_) => {
                let ghost pre = *self;
                let guard_opt = self.shapes.get_mut(k);
                match guard_opt {
                    Some(mut g) => {
                        g.value.handle_count = g.value.handle_count - 1;
                        reached_zero = g.value.handle_count == 0;
                        let ghost ns = g.value;
                        self.shapes.release(g);
                        proof {
                            assert(self.shapes.contents() =~= pre.shapes.contents().insert(k, ns));
                            lemma_wf_shape_value_update(pre, *self, k, ns);
                        }
                    },
                    None => {
                        proof {
                            assert(false);
                        }
                    },
                }
            },
            ObjectTag::Joint(_) => {
                let ghost pre = *self;
                let guard_opt = self.joints.get_mut(k);
                match guard_opt {
                    Some(mut g) => {
                        g.value.handle_count = g.value.handle_count - 1;
                        reached_zero = g.value.handle_count == 0;
                        let ghost nj = g.value;
                        self.joints.release(g);
                        proof {
                            assert(self.joints.contents() =~= pre.joints.contents().insert(k, nj));
                            lemma_wf_joint_value_update(pre, *self, k, nj);
                        }
                    },
                    None => {
                        proof {
                            assert(false);
                        }
                    },
                }
            },
        }
        if reached_zero {
            self.gc.enqueue(h.tag);
        }
    }
}

} // verus!
