//! Joint server: lifecycle of constraints between bodies.
//!
//! A joint is created unbound and moves through `HalfBound` to `Bound` as
//! bodies are inserted one at a time; the underlying engine constraint is
//! materialized lazily, exactly when the second body arrives, and each
//! body's anchor is frozen at that moment from the body's current transform
//! and the joint's initial isometry.  Removing a body retracts the
//! constraint and reactivates both previously bound bodies, since removing
//! a constraint can disturb their equilibrium.

use vstd::prelude::*;

use crate::body::Body;
use crate::joint::{BindAnchor, BodyPart, Joint, JointConstraint, JointDesc};
use crate::objects::{Isometry, ObjectTag, PhysicsHandle, PhysicsJointTag, PhysicsRigidBodyTag};
use crate::rigid_body_physics_server::RBodyNpServer;
use crate::servers_storage::{joints_value_set, lemma_wf_joint_value_update, ServersStorage};
use crate::storage::{Storage, StoreKey};
use crate::PhysicsError;

verus! {

/// The joint value after inserting body `bk`: the first empty slot (slot 0
/// before slot 1) is filled with part index 0, and if both slots are now
/// filled the constraint is materialized with each anchor frozen from that
/// body's transform at this very moment and the joint's initial isometry.
pub open spec fn joint_after_insert(pre: ServersStorage, jk: StoreKey, bk: StoreKey) -> Joint {
    let j = pre.joints.contents()[jk];
    let slotted = if j.body_0 is None {
        Joint { body_0: Some(BodyPart { body: bk, part: 0 }), ..j }
    } else {
        Joint { body_1: Some(BodyPart { body: bk, part: 0 }), ..j }
    };
    if slotted.body_0 is Some && slotted.body_1 is Some {
        Joint {
            constraint: Some(
                JointConstraint {
                    body_0: slotted.body_0.unwrap(),
                    body_1: slotted.body_1.unwrap(),
                    anchor_0: BindAnchor {
                        body_transform: pre.bodies.contents()[
                            slotted.body_0.unwrap().body
                        ].transform,
                        joint_isometry: j.initial_isometry,
                    },
                    anchor_1: BindAnchor {
                        body_transform: pre.bodies.contents()[
                            slotted.body_1.unwrap().body
                        ].transform,
                        joint_isometry: j.initial_isometry,
                    },
                },
            ),
            ..slotted
        }
    } else {
        slotted
    }
}

/// The joint value after removing body `bk`: the matching slot (slot 0
/// checked first) is cleared and any constraint is retracted.
pub open spec fn joint_after_remove(pre: ServersStorage, jk: StoreKey, bk: StoreKey) -> Joint {
    let j = pre.joints.contents()[jk];
    let cleared = if j.body_0 matches Some(bp) && bp.body == bk {
        Joint { body_0: None, ..j }
    } else {
        Joint { body_1: None, ..j }
    };
    Joint { constraint: None, ..cleared }
}

/// The joint server.  It holds no state of its own: every operation works
/// on the [`ServersStorage`] passed to it.
pub struct JointNpServer {
}

impl JointNpServer {
    pub fn new() -> (s: JointNpServer)
    {
        JointNpServer {  }
    }

    /// Insert a new joint in the `Unbound` state, backfill its own key, and
    /// hand back the first counted handle to it.
    pub fn create_joint(
        &self,
        storages: &mut ServersStorage,
        desc: JointDesc,
        initial_position: &Isometry,
    ) -> (h: PhysicsHandle)
        requires
            old(storages).wf(),
            old(storages).joints.fresh_generation() < u64::MAX,
        ensures
            final(storages).wf(),
            final(storages).gc == old(storages).gc,
            h.tag is Joint,
            ({
                let k = h.tag.key_spec();
                &&& !old(storages).joints.live(k)
                &&& !old(storages).joints.stale(k)
                &&& final(storages).joints.live(k)
                &&& final(storages).joints.contents() == old(storages).joints.contents().insert(
                    k,
                    Joint {
                        self_key: Some(k),
                        joint_desc: desc,
                        initial_isometry: *initial_position,
                        body_0: None,
                        body_1: None,
                        constraint: None,
                        handle_count: 1,
                    },
                )
                &&& forall|k2: StoreKey|
                    k2 != k ==> #[trigger] final(storages).joints.live(k2) == old(
                        storages,
                    ).joints.live(k2)
                &&& forall|k2: StoreKey|
                    old(storages).joints.stale(k2) ==> #[trigger] final(storages).joints.stale(k2)
                &&& final(storages).handle_count(h.tag) == 1
            }),
            final(storages).bodies == old(storages).bodies,
            final(storages).colliders == old(storages).colliders,
            final(storages).shapes == old(storages).shapes,
    {
        let ghost pre = *storages;
        let joint = Joint::new(desc, *initial_position);
        let k = storages.joints.insert(joint);
        let guard_opt = storages.joints.get_mut(k);
        match guard_opt {
            Some(mut g) => {
                g.value.self_key = Some(k);
                let ghost nj = g.value;
                storages.joints.release(g);
                proof {
                    assert(storages.joints.contents() =~= pre.joints.contents().insert(k, nj));
                    lemma_wf_joint_fresh_insert(pre, *storages, k, nj);
                }
            },
            None => {
                proof {
                    assert(false);
                }
            },
        }
        PhysicsHandle { tag: ObjectTag::Joint(k) }
    }

    /// Recompute a checked-out joint's constraint from its slots: retract it
    /// when a slot has emptied; materialize it when both slots have just
    /// filled, freezing each body's anchor from its current transform and
    /// the joint's initial isometry.
    pub fn update_internal_joint(joint: &mut Joint, bodies: &Storage<Body>)
        requires
            old(joint).body_0 matches Some(bp) ==> bodies.present(bp.body),
            old(joint).body_1 matches Some(bp) ==> bodies.present(bp.body),
        ensures
            old(joint).constraint is Some && !(old(joint).body_0 is Some && old(joint).body_1
                is Some) ==> *final(joint) == (Joint { constraint: None, ..*old(joint) }),
            old(joint).constraint is None && old(joint).body_0 is Some && old(joint).body_1
                is Some ==> *final(joint) == (Joint {
                constraint: Some(
                    JointConstraint {
                        body_0: old(joint).body_0.unwrap(),
                        body_1: old(joint).body_1.unwrap(),
                        anchor_0: BindAnchor {
                            body_transform: bodies.contents()[
                                old(joint).body_0.unwrap().body
                            ].transform,
                            joint_isometry: old(joint).initial_isometry,
                        },
                        anchor_1: BindAnchor {
                            body_transform: bodies.contents()[
                                old(joint).body_1.unwrap().body
                            ].transform,
                            joint_isometry: old(joint).initial_isometry,
                        },
                    },
                ),
                ..*old(joint)
            }),
            (old(joint).constraint is Some) == (old(joint).body_0 is Some && old(joint).body_1
                is Some) ==> *final(joint) == *old(joint),
    {
        let both = joint.body_0.is_some() && joint.body_1.is_some();
        if joint.constraint.is_some() {
            if !both {
                joint.constraint = None;
            }
        } else {
            if both {
                let bp0 = match joint.body_0 {
                    Some(bp) => bp,
                    None => {
                        proof {
                            assert(false);
                        }
                        BodyPart { body: StoreKey { index: 0, generation: 0 }, part: 0 }
                    },
                };
                let bp1 = match joint.body_1 {
                    Some(bp) => bp,
                    None => {
                        proof {
                            assert(false);
                        }
                        BodyPart { body: StoreKey { index: 0, generation: 0 }, part: 0 }
                    },
                };
                let t0 = match bodies.get(bp0.body) {
                    Some(b) => b.body_transform(),
                    None => {
                        proof {
                            assert(false);
                        }
                        Isometry::identity()
                    },
                };
                let t1 = match bodies.get(bp1.body) {
                    Some(b) => b.body_transform(),
                    None => {
                        proof {
                            assert(false);
                        }
                        Isometry::identity()
                    },
                };
                joint.constraint = Some(
                    JointConstraint {
                        body_0: bp0,
                        body_1: bp1,
                        anchor_0: BindAnchor {
                            body_transform: t0,
                            joint_isometry: joint.initial_isometry,
                        },
                        anchor_1: BindAnchor {
                            body_transform: t1,
                            joint_isometry: joint.initial_isometry,
                        },
                    },
                );
            }
        }
    }

    /// Bind a body to the joint's first empty slot, slot 0 before slot 1.
    /// The second binding materializes the engine constraint, with each
    /// body's anchor frozen at its own bind moment.  Reports `AlreadyBound`
    /// when both slots are filled and `NotFound` for a stale joint or body
    /// tag, changing nothing in every error case.
    pub fn insert_rigid_body(
        &self,
        storages: &mut ServersStorage,
        joint_tag: PhysicsJointTag,
        body_tag: PhysicsRigidBodyTag,
    ) -> (r: Result<(), PhysicsError>)
        requires
            old(storages).wf(),
        ensures
            final(storages).wf(),
            final(storages).gc == old(storages).gc,
            !old(storages).joints.present(joint_tag.key) ==> r == Err::<(), PhysicsError>(
                PhysicsError::NotFound,
            ) && *final(storages) == *old(storages),
            old(storages).joints.present(joint_tag.key) && old(storages).joints.contents()[
                joint_tag.key
            ].body_0 is Some && old(storages).joints.contents()[joint_tag.key].body_1 is Some
                ==> r == Err::<(), PhysicsError>(PhysicsError::AlreadyBound) && *final(storages)
                == *old(storages),
            old(storages).joints.present(joint_tag.key) && !(old(storages).joints.contents()[
                joint_tag.key
            ].body_0 is Some && old(storages).joints.contents()[joint_tag.key].body_1 is Some)
                && !old(storages).bodies.present(body_tag.key) ==> r == Err::<(), PhysicsError>(
                PhysicsError::NotFound,
            ) && *final(storages) == *old(storages),
            old(storages).joints.present(joint_tag.key) && !(old(storages).joints.contents()[
                joint_tag.key
            ].body_0 is Some && old(storages).joints.contents()[joint_tag.key].body_1 is Some)
                && old(storages).bodies.present(body_tag.key) ==> r == Ok::<(), PhysicsError>(())
                && joints_value_set(
                *old(storages),
                *final(storages),
                joint_tag.key,
                joint_after_insert(*old(storages), joint_tag.key, body_tag.key),
            ),
    {
        let jk = joint_tag.key;
        let bk = body_tag.key;
        let full = match storages.joints.get(jk) {
            None => {
                return Err(PhysicsError::NotFound);
            },
            Some(j) => j.body_0.is_some() && j.body_1.is_some(),
        };
        if full {
            return Err(PhysicsError::AlreadyBound);
        }
        if !storages.bodies.has(bk) {
            return Err(PhysicsError::NotFound);
        }
        let ghost pre = *storages;
        proof {
            assert(pre.joints.present(jk));
            assert(pre.joint_wf(jk));
            assert(!pre.bodies.locked(bk));
            assert(pre.bodies.present(bk));
        }
        let guard_opt = storages.joints.get_mut(jk);
        match guard_opt {
            Some(mut g) => {
                if g.value.body_0.is_none() {
                    g.value.body_0 = Some(BodyPart { body: bk, part: 0 });
                } else {
                    g.value.body_1 = Some(BodyPart { body: bk, part: 0 });
                }
                Self::update_internal_joint(&mut g.value, &storages.bodies);
                let ghost nj = g.value;
                storages.joints.release(g);
                proof {
                    assert(nj == joint_after_insert(pre, jk, bk));
                    assert(storages.joints.contents() =~= pre.joints.contents().insert(jk, nj));
                    lemma_wf_joint_value_update(pre, *storages, jk, nj);
                }
                Ok(())
            },
            None => {
                proof {
                    assert(false);
                }
                Err(PhysicsError::NotFound)
            },
        }
    }

    /// Unbind a body from the joint: the matching slot (slot 0 first) is
    /// cleared; if the engine constraint existed it is retracted and both
    /// previously bound bodies are reactivated, since removing a constraint
    /// can disturb their equilibrium.  Reports `NotFound`, changing
    /// nothing, for a stale joint tag or a body not bound to either slot.
    pub fn remove_rigid_body(
        &self,
        storages: &mut ServersStorage,
        joint_tag: PhysicsJointTag,
        body_tag: PhysicsRigidBodyTag,
    ) -> (r: Result<(), PhysicsError>)
        requires
            old(storages).wf(),
        ensures
            final(storages).wf(),
            final(storages).gc == old(storages).gc,
            final(storages).shapes == old(storages).shapes,
            final(storages).colliders == old(storages).colliders,
            !(old(storages).joints.present(joint_tag.key) && old(storages).joints.contents()[
                joint_tag.key
            ].binds_spec(body_tag.key)) ==> r == Err::<(), PhysicsError>(PhysicsError::NotFound)
                && *final(storages) == *old(storages),
            old(storages).joints.present(joint_tag.key) && old(storages).joints.contents()[
                joint_tag.key
            ].binds_spec(body_tag.key) ==> {
                let j = old(storages).joints.contents()[joint_tag.key];
                &&& r == Ok::<(), PhysicsError>(())
                &&& final(storages).joints.contents() == old(storages).joints.contents().insert(
                    joint_tag.key,
                    joint_after_remove(*old(storages), joint_tag.key, body_tag.key),
                )
                &&& (forall|k2: StoreKey| #[trigger]
                    final(storages).joints.live(k2) == old(storages).joints.live(k2))
                &&& (forall|k2: StoreKey|
                    k2 != joint_tag.key ==> #[trigger] final(storages).joints.contents()[k2]
                        == old(storages).joints.contents()[k2])
                &&& (forall|k2: StoreKey| #[trigger]
                    final(storages).bodies.live(k2) == old(storages).bodies.live(k2))
                &&& match j.constraint {
                    Some(c) => final(storages).bodies.contents() == old(
                        storages,
                    ).bodies.contents().insert(
                        c.body_0.body,
                        Body { active: true, ..old(storages).bodies.contents()[c.body_0.body] },
                    ).insert(
                        c.body_1.body,
                        Body { active: true, ..old(storages).bodies.contents()[c.body_1.body] },
                    ),
                    None => final(storages).bodies == old(storages).bodies,
                }
            },
    {
        let jk = joint_tag.key;
        let bk = body_tag.key;
        let ghost pre = *storages;
        let (binds, constraint_bodies): (bool, Option<(StoreKey, StoreKey)>) = match storages
            .joints
            .get(jk) {
            None => {
                return Err(PhysicsError::NotFound);
            },
            Some(j) => {
                let b0 = match j.body_0 {
                    Some(bp) => bp.body.index == bk.index && bp.body.generation == bk.generation,
                    None => false,
                };
                let b1 = match j.body_1 {
                    Some(bp) => bp.body.index == bk.index && bp.body.generation == bk.generation,
                    None => false,
                };
                let cb = match &j.constraint {
                    Some(c) => Some((c.body_0.body, c.body_1.body)),
                    None => None,
                };
                (b0 || b1, cb)
            },
        };
        if !binds {
            return Err(PhysicsError::NotFound);
        }
        proof {
            assert(pre.joints.present(jk));
            assert(pre.joint_wf(jk));
        }
        // Reactivate the bodies the retracted constraint was holding.
        match constraint_bodies {
            Some((b0, b1)) => {
                RBodyNpServer::active_body(storages, b0);
                proof {
                    assert(storages.bodies.contents() =~= pre.bodies.contents().insert(
                        b0,
                        Body { active: true, ..pre.bodies.contents()[b0] },
                    ));
                }
                RBodyNpServer::active_body(storages, b1);
                proof {
                    assert(storages.bodies.contents() =~= pre.bodies.contents().insert(
                        b0,
                        Body { active: true, ..pre.bodies.contents()[b0] },
                    ).insert(b1, Body { active: true, ..pre.bodies.contents()[b1] }));
                }
            },
            None => {},
        }
        let ghost mid = *storages;
        let guard_opt = storages.joints.get_mut(jk);
        match guard_opt {
            Some(mut g) => {
                let slot0 = match g.value.body_0 {
                    Some(bp) => bp.body.index == bk.index && bp.body.generation == bk.generation,
                    None => false,
                };
                if slot0 {
                    g.value.body_0 = None;
                } else {
                    g.value.body_1 = None;
                }
                g.value.constraint = None;
                let ghost nj = g.value;
                storages.joints.release(g);
                proof {
                    assert(nj == joint_after_remove(pre, jk, bk));
                    assert(storages.joints.contents() =~= mid.joints.contents().insert(jk, nj));
                    lemma_wf_joint_value_update(mid, *storages, jk, nj);
                }
                Ok(())
            },
            None => {
                proof {
                    assert(false);
                }
                Err(PhysicsError::NotFound)
            },
        }
    }

    /// Destroy a joint: retract any active constraint, reactivate any
    /// still-bound bodies, then remove the joint from its store; its key
    /// becomes stale.  A stale or unknown tag is a silent no-op.
    pub fn drop_joint(joint_tag: PhysicsJointTag, storages: &mut ServersStorage)
        requires
            old(storages).wf(),
        ensures
            final(storages).wf(),
            final(storages).gc == old(storages).gc,
            final(storages).shapes == old(storages).shapes,
            final(storages).colliders == old(storages).colliders,
            !old(storages).joints.present(joint_tag.key) ==> *final(storages) == *old(storages),
            old(storages).joints.present(joint_tag.key) ==> {
                let j = old(storages).joints.contents()[joint_tag.key];
                let woken0 = match j.body_0 {
                    Some(bp) => old(storages).bodies.contents().insert(
                        bp.body,
                        Body { active: true, ..old(storages).bodies.contents()[bp.body] },
                    ),
                    None => old(storages).bodies.contents(),
                };
                let woken1 = match j.body_1 {
                    Some(bp) => woken0.insert(
                        bp.body,
                        Body { active: true, ..old(storages).bodies.contents()[bp.body] },
                    ),
                    None => woken0,
                };
                &&& final(storages).joints.contents() == old(storages).joints.contents().remove(
                    joint_tag.key,
                )
                &&& !final(storages).joints.live(joint_tag.key)
                &&& final(storages).joints.stale(joint_tag.key)
                &&& (forall|k2: StoreKey|
                    k2 != joint_tag.key ==> #[trigger] final(storages).joints.live(k2) == old(
                        storages,
                    ).joints.live(k2))
                &&& final(storages).bodies.contents() == woken1
                &&& (forall|k2: StoreKey| #[trigger]
                    final(storages).bodies.live(k2) == old(storages).bodies.live(k2))
            },
    {
        let jk = joint_tag.key;
        let ghost pre = *storages;
        let slots: Option<(Option<StoreKey>, Option<StoreKey>)> = match storages.joints.get(jk) {
            None => None,
            Some(j) => {
                let s0 = match j.body_0 {
                    Some(bp) => Some(bp.body),
                    None => None,
                };
                let s1 = match j.body_1 {
                    Some(bp) => Some(bp.body),
                    None => None,
                };
                Some((s0, s1))
            },
        };
        match slots {
            None => {},
            Some((s0, s1)) => {
                proof {
                    assert(pre.joints.present(jk));
                    assert(pre.joint_wf(jk));
                }
                match s0 {
                    Some(b0) => {
                        RBodyNpServer::active_body(storages, b0);
                    },
                    None => {},
                }
                match s1 {
                    Some(b1) => {
                        proof {
                            assert(storages.bodies.present(b1));
                        }
                        RBodyNpServer::active_body(storages, b1);
                    },
                    None => {},
                }
                let ghost mid = *storages;
                let _ = storages.joints.remove(jk);
                proof {
                    assert(storages.bodies.contents() =~= mid.bodies.contents());
                    lemma_wf_joint_remove(mid, *storages, jk);
                }
            },
        }
    }
}

/// Law: a live joint's engine constraint exists exactly in the `Bound`
/// state, it ties together exactly the bodies in the slots, and both of
/// its anchors were derived from the joint's initial isometry; the bound
/// bodies are live.  This holds after every operation.
pub proof fn lemma_joint_state_constraint(s: ServersStorage, jk: StoreKey)
    requires
        s.wf(),
        s.joints.present(jk),
    ensures
        ({
            let j = s.joints.contents()[jk];
            &&& (j.state_spec() is Bound) == (j.constraint is Some)
            &&& (j.state_spec() is Unbound) ==> j.constraint is None
            &&& (j.state_spec() is HalfBound) ==> j.constraint is None
            &&& match j.constraint {
                Some(c) => {
                    &&& Some(c.body_0) == j.body_0
                    &&& Some(c.body_1) == j.body_1
                    &&& c.anchor_0.joint_isometry == j.initial_isometry
                    &&& c.anchor_1.joint_isometry == j.initial_isometry
                    &&& s.bodies.present(c.body_0.body)
                    &&& s.bodies.present(c.body_1.body)
                },
                None => true,
            }
        }),
{
    assert(s.joint_wf(jk));
}

/// Inserting a fresh unbound joint keeps the whole layer consistent.
proof fn lemma_wf_joint_fresh_insert(
    pre: ServersStorage,
    post: ServersStorage,
    k: StoreKey,
    nj: Joint,
)
    requires
        pre.wf(),
        !pre.joints.live(k),
        post.joints.wf(),
        post.joints.contents() == pre.joints.contents().insert(k, nj),
        forall|k2: StoreKey| k2 != k ==> #[trigger] post.joints.live(k2) == pre.joints.live(k2),
        forall|k2: StoreKey| #[trigger] post.joints.locked(k2) == pre.joints.locked(k2),
        !post.joints.locked(k),
        post.bodies == pre.bodies,
        post.colliders == pre.colliders,
        post.shapes == pre.shapes,
        nj.self_key == Some(k),
        nj.body_0 is None,
        nj.body_1 is None,
        nj.constraint is None,
    ensures
        post.wf(),
{
    assert forall|bk: StoreKey| #[trigger] post.bodies.present(bk) implies post.body_wf(bk) by {
        assert(pre.bodies.present(bk));
        assert(pre.body_wf(bk));
    }
    assert forall|sk: StoreKey| #[trigger] post.shapes.present(sk) implies post.shape_wf(sk) by {
        assert(pre.shapes.present(sk));
        assert(pre.shape_wf(sk));
        let s = post.shapes.contents()[sk];
        assert forall|bk: StoreKey| #[trigger] s.bodies_spec().contains(bk) implies post.bodies.present(
            bk,
        ) && post.bodies.contents()[bk].shape_key == Some(sk) by {
            assert(pre.bodies.present(bk));
        }
    }
    assert forall|ck: StoreKey| #[trigger] post.colliders.present(ck) implies post.collider_wf(ck) by {
        assert(pre.colliders.present(ck));
        assert(pre.collider_wf(ck));
    }
    assert forall|jk: StoreKey| #[trigger] post.joints.present(jk) implies post.joint_wf(jk) by {
        if jk == k {
            assert(post.joints.contents()[k] == nj);
        } else {
            assert(pre.joints.present(jk));
            assert(pre.joint_wf(jk));
            assert(post.joints.contents()[jk] == pre.joints.contents()[jk]);
        }
    }
}

/// Removing a joint keeps the whole layer consistent: nothing references a
/// joint.
proof fn lemma_wf_joint_remove(pre: ServersStorage, post: ServersStorage, jk: StoreKey)
    requires
        pre.wf(),
        post.joints.wf(),
        post.joints.contents() == pre.joints.contents().remove(jk),
        forall|k2: StoreKey| k2 != jk ==> #[trigger] post.joints.live(k2) == pre.joints.live(k2),
        !post.joints.live(jk),
        forall|k2: StoreKey| #[trigger] post.joints.locked(k2) == pre.joints.locked(k2),
        post.bodies == pre.bodies,
        post.colliders == pre.colliders,
        post.shapes == pre.shapes,
    ensures
        post.wf(),
{
    assert forall|bk: StoreKey| #[trigger] post.bodies.present(bk) implies post.body_wf(bk) by {
        assert(pre.bodies.present(bk));
        assert(pre.body_wf(bk));
    }
    assert forall|sk: StoreKey| #[trigger] post.shapes.present(sk) implies post.shape_wf(sk) by {
        assert(pre.shapes.present(sk));
        assert(pre.shape_wf(sk));
        let s = post.shapes.contents()[sk];
        assert forall|bk: StoreKey| #[trigger] s.bodies_spec().contains(bk) implies post.bodies.present(
            bk,
        ) && post.bodies.contents()[bk].shape_key == Some(sk) by {
            assert(pre.bodies.present(bk));
        }
    }
    assert forall|ck: StoreKey| #[trigger] post.colliders.present(ck) implies post.collider_wf(ck) by {
        assert(pre.colliders.present(ck));
        assert(pre.collider_wf(ck));
    }
    assert forall|jk2: StoreKey| #[trigger] post.joints.present(jk2) implies post.joint_wf(jk2) by {
        assert(jk2 != jk);
        assert(pre.joints.present(jk2));
        assert(pre.joint_wf(jk2));
        assert(post.joints.contents()[jk2] == pre.joints.contents()[jk2]);
    }
}

} // verus!
