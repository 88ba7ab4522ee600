//! Rigid body server: lifecycle and accessors for rigid and area bodies.
//!
//! All operations look their body up by tag and report `NotFound` for a
//! stale or unknown tag instead of panicking.  Force, impulse and velocity
//! operations apply to any body with a rigid substrate (areas included);
//! the engine-side numeric work happens outside this layer, which records
//! the payloads and the wake-up that the engine performs alongside.

use vstd::prelude::*;

use crate::body::{Body, BodyData, BodyMode, RigidBodyDesc};
use crate::collider::{Collider, Density, Material};
use crate::objects::{
    Entity, Isometry, ObjectTag, PhysicsHandle, PhysicsRigidBodyTag, PhysicsShapeTag, UserData,
    Vector3,
};
use crate::joint_physics_server::JointNpServer;
use crate::objects::PhysicsJointTag;
use crate::servers_storage::{
    bodies_value_set, body_object_tag, lemma_wf_body_value_update, ServersStorage,
};
use crate::shape::{RigidShape, ShapeDesc};
use crate::storage::{Storage, StoreKey};
use crate::PhysicsError;

verus! {

/// Effect of detaching `bk` from its shape: the body's shape and collider
/// keys are cleared; if a shape was set, the body leaves its registered-body
/// set (which shrinks by exactly one) and the installed collider is removed.
pub open spec fn shape_detached(pre: ServersStorage, post: ServersStorage, bk: StoreKey) -> bool {
    let pre_b = pre.bodies.contents()[bk];
    &&& post.bodies.contents() == pre.bodies.contents().insert(
        bk,
        Body { shape_key: None, collider_key: None, ..pre_b },
    )
    &&& (forall|k2: StoreKey| #[trigger] post.bodies.live(k2) == pre.bodies.live(k2))
    &&& post.bodies.fresh_generation() == pre.bodies.fresh_generation()
    &&& post.shapes.fresh_generation() == pre.shapes.fresh_generation()
    &&& post.colliders.fresh_generation() == pre.colliders.fresh_generation()
    &&& match pre_b.shape_key {
        Some(osk) => {
            let pre_s = pre.shapes.contents()[osk];
            let post_s = post.shapes.contents()[osk];
            &&& post.shapes.contents() == pre.shapes.contents().insert(osk, post_s)
            &&& post_s.bodies_spec().len() == pre_s.bodies_spec().len() - 1
            &&& !post_s.bodies_spec().contains(bk)
            &&& (forall|k2: StoreKey|
                k2 != bk ==> #[trigger] post_s.bodies_spec().contains(k2)
                    == pre_s.bodies_spec().contains(k2))
            &&& post_s.shape_desc_spec() == pre_s.shape_desc_spec()
            &&& post_s.self_key == pre_s.self_key
            &&& post_s.marked_for_drop == pre_s.marked_for_drop
            &&& post_s.handle_count == pre_s.handle_count
            &&& (forall|k2: StoreKey| #[trigger] post.shapes.live(k2) == pre.shapes.live(k2))
            &&& pre_b.collider_key matches Some(ock)
            &&& post.colliders.contents() == pre.colliders.contents().remove(
                pre_b.collider_key.unwrap(),
            )
            &&& !post.colliders.live(pre_b.collider_key.unwrap())
            &&& post.colliders.stale(pre_b.collider_key.unwrap())
            &&& (forall|k2: StoreKey|
                k2 != pre_b.collider_key.unwrap()
                    ==> #[trigger] post.colliders.live(k2) == pre.colliders.live(k2))
        },
        None => post.shapes == pre.shapes && post.colliders == pre.colliders,
    }
}

/// The store key under an optional shape tag.
pub open spec fn shape_tag_key(t: Option<PhysicsShapeTag>) -> Option<StoreKey> {
    match t {
        Some(st) => Some(st.key),
        None => None,
    }
}

/// Effect of switching `bk` onto shape `sk`: the body points at the new
/// shape and a fresh collider; the new shape's registered-body set gains
/// exactly this body; the old shape's set, if any, loses exactly this body;
/// the old collider, if any, is gone; the fresh collider was built from the
/// new shape's geometry with the density policy of its concavity, the
/// body's material, and the resolvable routing tuple.
pub open spec fn shape_switched(pre: ServersStorage, post: ServersStorage, bk: StoreKey, sk: StoreKey) -> bool {
    let pre_b = pre.bodies.contents()[bk];
    let post_b = post.bodies.contents()[bk];
    let pre_s = pre.shapes.contents()[sk];
    let post_s = post.shapes.contents()[sk];
    &&& post_b == (Body { shape_key: Some(sk), collider_key: post_b.collider_key, ..pre_b })
    &&& post_b.collider_key is Some
    &&& post.bodies.contents() == pre.bodies.contents().insert(bk, post_b)
    &&& (forall|k2: StoreKey| #[trigger] post.bodies.live(k2) == pre.bodies.live(k2))
    &&& post_s.bodies_spec() == pre_s.bodies_spec().push(bk)
    &&& post_s.shape_desc_spec() == pre_s.shape_desc_spec()
    &&& post_s.self_key == pre_s.self_key
    &&& post_s.marked_for_drop == pre_s.marked_for_drop
    &&& post_s.handle_count == pre_s.handle_count
    &&& (forall|k2: StoreKey| #[trigger] post.shapes.live(k2) == pre.shapes.live(k2))
    &&& match pre_b.shape_key {
        Some(osk) => {
            let pre_os = pre.shapes.contents()[osk];
            let post_os = post.shapes.contents()[osk];
            &&& !post_os.bodies_spec().contains(bk)
            &&& (forall|k2: StoreKey|
                k2 != bk ==> #[trigger] post_os.bodies_spec().contains(k2)
                    == pre_os.bodies_spec().contains(k2))
            &&& post_os.bodies_spec().len() == pre_os.bodies_spec().len() - 1
            &&& post_os.shape_desc_spec() == pre_os.shape_desc_spec()
            &&& post_os.marked_for_drop == pre_os.marked_for_drop
            &&& post_os.handle_count == pre_os.handle_count
            &&& (forall|sk2: StoreKey|
                sk2 != sk && sk2 != osk ==> #[trigger] post.shapes.contents()[sk2]
                    == pre.shapes.contents()[sk2])
        },
        None => forall|sk2: StoreKey|
            sk2 != sk ==> #[trigger] post.shapes.contents()[sk2] == pre.shapes.contents()[sk2],
    }
    &&& match post_b.collider_key {
        Some(ck) => {
            &&& !pre.colliders.live(ck)
            &&& post.colliders.present(ck)
            &&& post.colliders.contents()[ck] == (Collider {
                body_key: bk,
                shape_key: sk,
                density: if pre_s.shape_desc_spec().is_concave_spec() {
                    Density::Zero
                } else {
                    Density::One
                },
                material: Material { friction: pre_b.friction, bounciness: pre_b.bounciness },
                sensor: pre_b.body_data is Area,
                user_data: UserData { object: body_object_tag(pre_b, bk), entity: pre_b.entity },
            })
            &&& match pre_b.collider_key {
                Some(ock) => {
                    &&& !post.colliders.live(ock)
                    &&& (forall|ck2: StoreKey|
                        ck2 != ck && ck2 != ock ==> #[trigger] post.colliders.contents()[ck2]
                            == pre.colliders.contents()[ck2] && post.colliders.live(ck2)
                            == pre.colliders.live(ck2))
                },
                None => forall|ck2: StoreKey|
                    ck2 != ck ==> #[trigger] post.colliders.contents()[ck2]
                        == pre.colliders.contents()[ck2] && post.colliders.live(ck2)
                        == pre.colliders.live(ck2),
            }
        },
        None => false,
    }
}

/// The body server.  It holds no state of its own: every operation works on
/// the [`ServersStorage`] passed to it.
pub struct RBodyNpServer {
}

impl RBodyNpServer {
    pub fn new() -> (s: RBodyNpServer)
    {
        RBodyNpServer {  }
    }

    /// Build a rigid body from its description, insert it, backfill its own
    /// key, and hand back the first counted handle to it.
    pub fn create_body(&self, storages: &mut ServersStorage, body_desc: &RigidBodyDesc) -> (h:
        PhysicsHandle)
        requires
            old(storages).wf(),
            old(storages).bodies.fresh_generation() < u64::MAX,
        ensures
            final(storages).wf(),
            final(storages).gc == old(storages).gc,
            h.tag is RigidBody,
            ({
                let k = h.tag.key_spec();
                &&& !old(storages).bodies.live(k)
                &&& !old(storages).bodies.stale(k)
                &&& final(storages).bodies.live(k)
                &&& final(storages).bodies.contents() == old(storages).bodies.contents().insert(
                    k,
                    Body {
                        self_key: Some(k),
                        body_data: BodyData::Rigid,
                        mode: body_desc.mode,
                        mass: body_desc.mass,
                        friction: body_desc.friction,
                        bounciness: body_desc.bounciness,
                        transform: Isometry::identity_spec(),
                        linear_velocity: Vector3 { x: 0, y: 0, z: 0 },
                        angular_velocity: Vector3 { x: 0, y: 0, z: 0 },
                        active: true,
                        collider_key: None,
                        shape_key: None,
                        entity: None,
                        handle_count: 1,
                    },
                )
                &&& forall|k2: StoreKey|
                    k2 != k ==> #[trigger] final(storages).bodies.live(k2) == old(
                        storages,
                    ).bodies.live(k2)
                &&& forall|k2: StoreKey|
                    old(storages).bodies.stale(k2) ==> #[trigger] final(storages).bodies.stale(k2)
                &&& final(storages).bodies.fresh_generation() == old(storages).bodies.fresh_generation() + 1
                &&& final(storages).handle_count(h.tag) == 1
            }),
            final(storages).shapes == old(storages).shapes,
            final(storages).colliders == old(storages).colliders,
            final(storages).joints == old(storages).joints,
    {
        let ghost pre = *storages;
        let body = Body::new_rigid_body(body_desc);
        let k = storages.bodies.insert(body);
        let guard_opt = storages.bodies.get_mut(k);
        match guard_opt {
            Some(mut g) => {
                g.value.self_key = Some(k);
                let ghost nb = g.value;
                storages.bodies.release(g);
                proof {
                    assert(storages.bodies.contents() =~= pre.bodies.contents().insert(k, nb));
                    lemma_wf_body_fresh_insert(pre, *storages, k, nb);
                }
            },
            None => {
                proof {
                    assert(false);
                }
            },
        }
        PhysicsHandle { tag: ObjectTag::RigidBody(k) }
    }

    /// Destroy a body, unwinding everything that depended on it: every
    /// joint bound to it is unbound (retracting constraints and waking the
    /// bodies they held), the body detaches from its shape — whose
    /// registered-body set shrinks by exactly this body — its collider is
    /// removed, and finally its store entry is removed, leaving its key
    /// stale.  A stale or unknown tag is a silent no-op.
    pub fn drop_body(body_tag: PhysicsRigidBodyTag, storages: &mut ServersStorage)
        requires
            old(storages).wf(),
        ensures
            final(storages).wf(),
            final(storages).gc == old(storages).gc,
            !old(storages).bodies.present(body_tag.key) ==> *final(storages) == *old(storages),
            old(storages).bodies.present(body_tag.key) ==> {
                let bk = body_tag.key;
                let pre_b = old(storages).bodies.contents()[bk];
                &&& !final(storages).bodies.live(bk)
                &&& final(storages).bodies.stale(bk)
                &&& (forall|k2: StoreKey|
                    k2 != bk ==> #[trigger] final(storages).bodies.live(k2) == old(
                        storages,
                    ).bodies.live(k2))
                &&& (forall|k2: StoreKey|
                    k2 != bk && old(storages).bodies.present(k2)
                        ==> #[trigger] final(storages).bodies.contents()[k2] == old(storages).bodies.contents()[k2]
                        || final(storages).bodies.contents()[k2] == (Body {
                        active: true,
                        ..old(storages).bodies.contents()[k2]
                    }))
                &&& match pre_b.shape_key {
                    Some(osk) => {
                        let pre_s = old(storages).shapes.contents()[osk];
                        let post_s = final(storages).shapes.contents()[osk];
                        &&& post_s.bodies_spec().len() == pre_s.bodies_spec().len() - 1
                        &&& !post_s.bodies_spec().contains(bk)
                        &&& (forall|k2: StoreKey|
                            k2 != bk ==> #[trigger] post_s.bodies_spec().contains(k2)
                                == pre_s.bodies_spec().contains(k2))
                        &&& (forall|sk2: StoreKey|
                            sk2 != osk ==> #[trigger] final(storages).shapes.contents()[sk2]
                                == old(storages).shapes.contents()[sk2])
                        &&& (forall|k2: StoreKey| #[trigger]
                            final(storages).shapes.live(k2) == old(storages).shapes.live(k2))
                        &&& pre_b.collider_key matches Some(ock)
                        &&& !final(storages).colliders.live(pre_b.collider_key.unwrap())
                        &&& (forall|ck2: StoreKey|
                            ck2 != pre_b.collider_key.unwrap()
                                ==> #[trigger] final(storages).colliders.live(ck2) == old(storages).colliders.live(ck2))
                    },
                    None => final(storages).shapes == old(storages).shapes && final(storages).colliders == old(storages).colliders,
                }
                &&& (forall|jk: StoreKey| #[trigger]
                    final(storages).joints.present(jk) ==> !final(storages).joints.contents()[
                        jk
                    ].binds_spec(bk))
                &&& (forall|jk: StoreKey| #[trigger]
                    final(storages).joints.live(jk) == old(storages).joints.live(jk))
                &&& (forall|jk: StoreKey|
                    old(storages).joints.present(jk) && !old(storages).joints.contents()[
                        jk
                    ].binds_spec(bk) ==> #[trigger] final(storages).joints.contents()[jk] == old(storages).joints.contents()[jk])
            },
    {
        let bk = body_tag.key;
        if !storages.bodies.has(bk) {
            return ;
        }
        let ghost pre = *storages;
        proof {
            assert(pre.bodies.present(bk));
        }
        // Unbind every joint that holds this body; a slot can hold it twice,
        // so unbind twice.
        let joint_server = JointNpServer::new();
        let jkeys = storages.joints.live_keys();
        let n = jkeys.len();
        let mut i: usize = 0;
        while i < n
            invariant
                storages.wf(),
                i <= n,
                n == jkeys@.len(),
                pre.wf(),
                pre.bodies.present(bk),
                bk == body_tag.key,
                forall|j1: int, j2: int|
                    0 <= j1 < j2 < n ==> jkeys@[j1].index < jkeys@[j2].index,
                forall|k2: StoreKey| #[trigger]
                    storages.joints.live(k2) == pre.joints.live(k2),
                forall|k2: StoreKey| pre.joints.live(k2) ==> jkeys@.contains(k2),
                forall|j: int|
                    0 <= j < i ==> (storages.joints.present(#[trigger] jkeys@[j])
                        ==> !storages.joints.contents()[jkeys@[j]].binds_spec(bk)),
                forall|k2: StoreKey|
                    pre.joints.present(k2) && !pre.joints.contents()[k2].binds_spec(bk)
                        ==> #[trigger] storages.joints.contents()[k2] == pre.joints.contents()[k2],
                forall|k2: StoreKey| #[trigger]
                    storages.bodies.live(k2) == pre.bodies.live(k2),
                forall|k2: StoreKey|
                    pre.bodies.present(k2) ==> #[trigger] storages.bodies.contents()[k2]
                        == pre.bodies.contents()[k2] || storages.bodies.contents()[k2] == (Body {
                        active: true,
                        ..pre.bodies.contents()[k2]
                    }),
                storages.shapes == pre.shapes,
                storages.colliders == pre.colliders,
                storages.gc == pre.gc,
            decreases n - i,
        {
            let jk = jkeys[i];
            let jtag = PhysicsJointTag { key: jk };
            let ghost cur0 = *storages;
            let _ = joint_server.remove_rigid_body(storages, jtag, body_tag);
            let ghost cur1 = *storages;
            let _ = joint_server.remove_rigid_body(storages, jtag, body_tag);
            proof {
                lemma_drop_body_joint_step(pre, cur0, cur1, *storages, jk, bk);
                assert forall|j: int|
                    0 <= j < i + 1 implies (storages.joints.present(#[trigger] jkeys@[j])
                        ==> !storages.joints.contents()[jkeys@[j]].binds_spec(bk)) by {
                    if j < i {
                        assert(jkeys@[j].index < jkeys@[i as int].index);
                        assert(jkeys@[j] != jk);
                    }
                }
            }
            i = i + 1;
        }
        proof {
            assert(storages.bodies.present(bk));
            assert forall|jk2: StoreKey| #[trigger]
                storages.joints.present(jk2) implies !storages.joints.contents()[jk2].binds_spec(
                bk,
            ) by {
                assert(pre.joints.live(jk2));
                assert(jkeys@.contains(jk2));
                let j = choose|j: int| 0 <= j < jkeys@.len() && jkeys@[j] == jk2;
                assert(storages.joints.present(jkeys@[j]));
            }
        }
        let ghost mid = *storages;
        Self::remove_shape(storages, bk);
        let ghost mid2 = *storages;
        let _ = storages.bodies.remove(bk);
        proof {
            assert(mid2.bodies.present(bk)) by {
                assert(mid2.bodies.live(bk) == mid.bodies.live(bk));
            }
            assert(mid2.bodies.contents()[bk].shape_key is None);
            assert(mid2.bodies.contents()[bk].collider_key is None);
            assert forall|jk2: StoreKey| #[trigger]
                mid2.joints.present(jk2) implies !mid2.joints.contents()[jk2].binds_spec(bk) by {
                assert(mid.joints.present(jk2));
            }
            lemma_wf_unlinked_body_remove(mid2, *storages, bk);
            assert(mid.bodies.contents()[bk].shape_key == pre.bodies.contents()[bk].shape_key);
            assert(mid.bodies.contents()[bk].collider_key == pre.bodies.contents()[
                bk
            ].collider_key);
        }
    }

    /// Associate (or clear) the host entity of a rigid body, keeping its
    /// collider's routing tuple in step.  Only plain rigid bodies carry an
    /// entity this way; an area body reports `IncompatibleVariant`.
    pub fn set_entity(
        &self,
        storages: &mut ServersStorage,
        body_tag: PhysicsRigidBodyTag,
        entity: Option<Entity>,
    ) -> (r: Result<(), PhysicsError>)
        requires
            old(storages).wf(),
        ensures
            final(storages).wf(),
            final(storages).gc == old(storages).gc,
            !old(storages).bodies.present(body_tag.key) ==> r == Err::<(), PhysicsError>(
                PhysicsError::NotFound,
            ) && *final(storages) == *old(storages),
            old(storages).bodies.present(body_tag.key) && !(old(storages).bodies.contents()[
                body_tag.key
            ].body_data is Rigid) ==> r == Err::<(), PhysicsError>(PhysicsError::IncompatibleVariant)
                && bodies_value_set(
                *old(storages),
                *final(storages),
                body_tag.key,
                old(storages).bodies.contents()[body_tag.key],
            ),
            old(storages).bodies.present(body_tag.key) && old(storages).bodies.contents()[
                body_tag.key
            ].body_data is Rigid ==> {
                let pre_b = old(storages).bodies.contents()[body_tag.key];
                &&& r == Ok::<(), PhysicsError>(())
                &&& final(storages).bodies.contents() == old(storages).bodies.contents().insert(
                    body_tag.key,
                    Body { entity, ..pre_b },
                )
                &&& final(storages).shapes == old(storages).shapes
                &&& final(storages).joints == old(storages).joints
                &&& match pre_b.collider_key {
                    Some(ck) => final(storages).colliders.contents() == old(
                        storages,
                    ).colliders.contents().insert(
                        ck,
                        Collider {
                            user_data: UserData {
                                object: ObjectTag::RigidBody(body_tag.key),
                                entity,
                            },
                            ..old(storages).colliders.contents()[ck]
                        },
                    ),
                    None => final(storages).colliders == old(storages).colliders,
                }
                &&& forall|k2: StoreKey| #[trigger]
                    final(storages).bodies.live(k2) == old(storages).bodies.live(k2)
                &&& forall|k2: StoreKey| #[trigger]
                    final(storages).colliders.live(k2) == old(storages).colliders.live(k2)
            },
    {
        let bk = body_tag.key;
        let ghost pre = *storages;
        let guard_opt = storages.bodies.get_mut(bk);
        match guard_opt {
            Some(mut g) => {
                let is_rigid = match &g.value.body_data {
                    BodyData::Rigid => true,
                    BodyData::Area(_) => false,
                };
                if !is_rigid {
                    let ghost nb = g.value;
                    storages.bodies.release(g);
                    proof {
                        assert(storages.bodies.contents() =~= pre.bodies.contents().insert(
                            bk,
                            nb,
                        ));
                        lemma_wf_body_value_update(pre, *storages, bk, nb);
                    }
                    return Err(PhysicsError::IncompatibleVariant);
                }
                g.value.entity = entity;
                let ghost nb = g.value;
                let collider_key = g.value.collider_key;
                storages.bodies.release(g);
                proof {
                    assert(storages.bodies.contents() =~= pre.bodies.contents().insert(bk, nb));
                }
                match collider_key {
                    Some(ck) => {
                        proof {
                            assert(pre.bodies.present(bk));
                            assert(pre.body_wf(bk));
                            assert(pre.colliders.present(ck));
                        }
                        let cguard_opt = storages.colliders.get_mut(ck);
                        match cguard_opt {
                            Some(mut cg) => {
                                cg.value.user_data = UserData {
                                    object: ObjectTag::RigidBody(bk),
                                    entity,
                                };
                                let ghost nc = cg.value;
                                storages.colliders.release(cg);
                                proof {
                                    assert(storages.colliders.contents() =~= pre.colliders.contents().insert(ck, nc));
                                    lemma_wf_set_entity(pre, *storages, bk, entity);
                                }
                            },
                            None => {
                                proof {
                                    assert(false);
                                }
                            },
                        }
                    },
                    None => {
                        proof {
                            lemma_wf_set_entity(pre, *storages, bk, entity);
                        }
                    },
                }
                Ok(())
            },
            None => {
                Err(PhysicsError::NotFound)
            },
        }
    }

    /// The host entity associated with the body, when the tag is live and
    /// one was associated.
    pub fn entity(&self, storages: &ServersStorage, body_tag: PhysicsRigidBodyTag) -> (r: Option<
        Entity,
    >)
        requires
            storages.wf(),
        ensures
            r == if storages.bodies.present(body_tag.key) {
                storages.bodies.contents()[body_tag.key].entity
            } else {
                None::<Entity>
            },
    {
        match storages.bodies.get(body_tag.key) {
            Some(body) => body.entity,
            None => None,
        }
    }

    /// The tag of the shape set on the body, when the tag is live and a
    /// shape is set.
    pub fn shape(&self, storages: &ServersStorage, body_tag: PhysicsRigidBodyTag) -> (r: Option<
        PhysicsShapeTag,
    >)
        requires
            storages.wf(),
        ensures
            r == if storages.bodies.present(body_tag.key) {
                match storages.bodies.contents()[body_tag.key].shape_key {
                    Some(sk) => Some(PhysicsShapeTag { key: sk }),
                    None => None::<PhysicsShapeTag>,
                }
            } else {
                None::<PhysicsShapeTag>
            },
    {
        match storages.bodies.get(body_tag.key) {
            Some(body) => match body.shape_key {
                Some(sk) => Some(PhysicsShapeTag { key: sk }),
                None => None,
            },
            None => None,
        }
    }

    /// Set (or clear) the shape of the body.  Setting the shape it already
    /// has changes nothing.  Otherwise the body first detaches from its
    /// current shape — leaving that shape's registered-body set and dropping
    /// the installed collider — and, when a new shape is given and live,
    /// registers there and installs a fresh collider built from its
    /// geometry.  A stale new-shape tag reports `NotFound` and leaves the
    /// body detached, as the detachment had already happened.
    pub fn set_shape(
        &self,
        storages: &mut ServersStorage,
        body_tag: PhysicsRigidBodyTag,
        shape_tag: Option<PhysicsShapeTag>,
    ) -> (r: Result<(), PhysicsError>)
        requires
            old(storages).wf(),
            old(storages).colliders.fresh_generation() < u64::MAX,
        ensures
            final(storages).wf(),
            final(storages).gc == old(storages).gc,
            final(storages).joints == old(storages).joints,
            !old(storages).bodies.present(body_tag.key) ==> r == Err::<(), PhysicsError>(
                PhysicsError::NotFound,
            ) && *final(storages) == *old(storages),
            old(storages).bodies.present(body_tag.key) && old(storages).bodies.contents()[
                body_tag.key
            ].shape_key == shape_tag_key(shape_tag) ==> r == Ok::<(), PhysicsError>(()) && *final(storages) == *old(storages),
            old(storages).bodies.present(body_tag.key) && old(storages).bodies.contents()[
                body_tag.key
            ].shape_key != shape_tag_key(shape_tag) ==> match shape_tag {
                None => r == Ok::<(), PhysicsError>(()) && shape_detached(
                    *old(storages),
                    *final(storages),
                    body_tag.key,
                ),
                Some(st) => {
                    if old(storages).shapes.present(st.key) {
                        r == Ok::<(), PhysicsError>(()) && shape_switched(
                            *old(storages),
                            *final(storages),
                            body_tag.key,
                            st.key,
                        )
                    } else {
                        r == Err::<(), PhysicsError>(PhysicsError::NotFound) && shape_detached(
                            *old(storages),
                            *final(storages),
                            body_tag.key,
                        )
                    }
                },
            },
    {
        let bk = body_tag.key;
        let cur: Option<StoreKey> = match storages.bodies.get(bk) {
            None => {
                return Err(PhysicsError::NotFound);
            },
            Some(b) => b.shape_key,
        };
        let new_opt: Option<StoreKey> = match shape_tag {
            Some(st) => Some(st.key),
            None => None,
        };
        let same = match (cur, new_opt) {
            (None, None) => true,
            (Some(a), Some(b)) => a.index == b.index && a.generation == b.generation,
            _ => false,
        };
        if same {
            proof {
                assert(cur == new_opt);
            }
            return Ok(());
        }
        let ghost pre = *storages;
        Self::remove_shape(storages, bk);
        let ghost mid = *storages;
        match new_opt {
            None => {
                Ok(())
            },
            Some(sk) => {
                proof {
                    assert(mid.bodies.present(bk));
                    assert(mid.bodies.contents()[bk].shape_key is None);
                }
                let r = Self::install_shape(storages, bk, sk);
                proof {
                    let pre_b = pre.bodies.contents()[bk];
                    if pre.shapes.present(sk) {
                        assert(mid.shapes.present(sk));
                        let post_b = storages.bodies.contents()[bk];
                        assert(storages.bodies.contents() =~= pre.bodies.contents().insert(
                            bk,
                            post_b,
                        ));
                        match pre_b.shape_key {
                            Some(osk) => {
                                assert(osk != sk);
                                assert(mid.shapes.contents()[sk] == pre.shapes.contents()[sk]);
                                assert(storages.shapes.contents()[osk] == mid.shapes.contents()[
                                    osk
                                ]);
                                let ock = pre_b.collider_key.unwrap();
                                match post_b.collider_key {
                                    Some(ck) => {
                                        assert(mid.colliders.stale(ock));
                                        assert(!mid.colliders.stale(ck));
                                        assert(ck != ock);
                                        assert(!storages.colliders.live(ock));
                                    },
                                    None => {},
                                }
                            },
                            None => {},
                        }
                        assert(shape_switched(pre, *storages, bk, sk));
                    } else {
                        assert(mid.shapes.live(sk) == pre.shapes.live(sk));
                        assert(!mid.shapes.present(sk));
                        assert(storages.bodies.contents() =~= mid.bodies.contents());
                        assert(shape_detached(pre, mid, bk));
                        assert(shape_detached(pre, *storages, bk));
                    }
                }
                r
            },
        }
    }

    /// Set the body's simulation mode.
    pub fn set_mode(
        &self,
        storages: &mut ServersStorage,
        body_tag: PhysicsRigidBodyTag,
        mode: BodyMode,
    ) -> (r: Result<(), PhysicsError>)
        requires
            old(storages).wf(),
        ensures
            final(storages).wf(),
            final(storages).gc == old(storages).gc,
            !old(storages).bodies.present(body_tag.key) ==> r == Err::<(), PhysicsError>(
                PhysicsError::NotFound,
            ) && *final(storages) == *old(storages),
            old(storages).bodies.present(body_tag.key) ==> r == Ok::<(), PhysicsError>(())
                && bodies_value_set(
                *old(storages),
                *final(storages),
                body_tag.key,
                Body { mode, ..old(storages).bodies.contents()[body_tag.key] },
            ),
    {
        let bk = body_tag.key;
        let ghost pre = *storages;
        let guard_opt = storages.bodies.get_mut(bk);
        match guard_opt {
            Some(mut g) => {
                g.value.mode = mode;
                let ghost nb = g.value;
                storages.bodies.release(g);
                proof {
                    assert(storages.bodies.contents() =~= pre.bodies.contents().insert(bk, nb));
                    lemma_wf_body_value_update(pre, *storages, bk, nb);
                }
                Ok(())
            },
            None => Err(PhysicsError::NotFound),
        }
    }

    /// The body's simulation mode; `Disabled` for a stale or unknown tag.
    pub fn mode(&self, storages: &ServersStorage, body_tag: PhysicsRigidBodyTag) -> (r: BodyMode)
        requires
            storages.wf(),
        ensures
            r == if storages.bodies.present(body_tag.key) {
                storages.bodies.contents()[body_tag.key].mode
            } else {
                BodyMode::Disabled
            },
    {
        match storages.bodies.get(body_tag.key) {
            Some(body) => body.mode,
            None => BodyMode::Disabled,
        }
    }

    /// Set the body's transform payload.
    pub fn set_body_transform(
        &self,
        storages: &mut ServersStorage,
        body_tag: PhysicsRigidBodyTag,
        transf: &Isometry,
    ) -> (r: Result<(), PhysicsError>)
        requires
            old(storages).wf(),
        ensures
            final(storages).wf(),
            final(storages).gc == old(storages).gc,
            !old(storages).bodies.present(body_tag.key) ==> r == Err::<(), PhysicsError>(
                PhysicsError::NotFound,
            ) && *final(storages) == *old(storages),
            old(storages).bodies.present(body_tag.key) ==> r == Ok::<(), PhysicsError>(())
                && bodies_value_set(
                *old(storages),
                *final(storages),
                body_tag.key,
                Body { transform: *transf, ..old(storages).bodies.contents()[body_tag.key] },
            ),
    {
        let bk = body_tag.key;
        let ghost pre = *storages;
        let guard_opt = storages.bodies.get_mut(bk);
        match guard_opt {
            Some(mut g) => {
                g.value.set_body_transform(transf);
                let ghost nb = g.value;
                storages.bodies.release(g);
                proof {
                    assert(storages.bodies.contents() =~= pre.bodies.contents().insert(bk, nb));
                    lemma_wf_body_value_update(pre, *storages, bk, nb);
                }
                Ok(())
            },
            None => Err(PhysicsError::NotFound),
        }
    }

    /// The body's current transform payload, when the tag is live.
    pub fn body_transform(&self, storages: &ServersStorage, body_tag: PhysicsRigidBodyTag) -> (r:
        Option<Isometry>)
        requires
            storages.wf(),
        ensures
            r == if storages.bodies.present(body_tag.key) {
                Some(storages.bodies.contents()[body_tag.key].transform)
            } else {
                None::<Isometry>
            },
    {
        match storages.bodies.get(body_tag.key) {
            Some(body) => Some(body.body_transform()),
            None => None,
        }
    }

    /// Wake the body up, as the engine does for any force application.  A
    /// stale or unknown key is a silent no-op: a dangling tag must never
    /// abort the caller.
    pub fn active_body(storages: &mut ServersStorage, body_key: StoreKey)
        requires
            old(storages).wf(),
        ensures
            final(storages).wf(),
            final(storages).gc == old(storages).gc,
            !old(storages).bodies.present(body_key) ==> *final(storages) == *old(storages),
            old(storages).bodies.present(body_key) ==> bodies_value_set(
                *old(storages),
                *final(storages),
                body_key,
                Body { active: true, ..old(storages).bodies.contents()[body_key] },
            ),
    {
        let ghost pre = *storages;
        let guard_opt = storages.bodies.get_mut(body_key);
        match guard_opt {
            Some(mut g) => {
                g.value.activate();
                let ghost nb = g.value;
                storages.bodies.release(g);
                proof {
                    assert(storages.bodies.contents() =~= pre.bodies.contents().insert(
                        body_key,
                        nb,
                    ));
                    lemma_wf_body_value_update(pre, *storages, body_key, nb);
                }
            },
            None => {},
        }
    }

    /// Clear the accumulated forces on the body.  The accumulator lives in
    /// the engine; this layer checks the tag and reports the outcome.
    pub fn clear_forces(&self, storages: &mut ServersStorage, body_tag: PhysicsRigidBodyTag) -> (r:
        Result<(), PhysicsError>)
        requires
            old(storages).wf(),
        ensures
            final(storages).wf(),
            *final(storages) == *old(storages),
            r == if old(storages).bodies.present(body_tag.key) {
                Ok::<(), PhysicsError>(())
            } else {
                Err::<(), PhysicsError>(PhysicsError::NotFound)
            },
    {
        if storages.bodies.has(body_tag.key) {
            proof {
                assert(!storages.bodies.locked(body_tag.key));
            }
            Ok(())
        } else {
            Err(PhysicsError::NotFound)
        }
    }

    /// Apply a central force; the engine wakes the body alongside.
    pub fn apply_force(
        &self,
        storages: &mut ServersStorage,
        body_tag: PhysicsRigidBodyTag,
        force: &Vector3,
    ) -> (r: Result<(), PhysicsError>)
        requires
            old(storages).wf(),
        ensures
            final(storages).wf(),
            final(storages).gc == old(storages).gc,
            !old(storages).bodies.present(body_tag.key) ==> r == Err::<(), PhysicsError>(
                PhysicsError::NotFound,
            ) && *final(storages) == *old(storages),
            old(storages).bodies.present(body_tag.key) ==> r == Ok::<(), PhysicsError>(())
                && bodies_value_set(
                *old(storages),
                *final(storages),
                body_tag.key,
                Body { active: true, ..old(storages).bodies.contents()[body_tag.key] },
            ),
    {
        if storages.bodies.has(body_tag.key) {
            proof {
                assert(!storages.bodies.locked(body_tag.key));
            }
            Self::active_body(storages, body_tag.key);
            Ok(())
        } else {
            Err(PhysicsError::NotFound)
        }
    }
    /// Apply a torque; the engine wakes the body alongside.
    pub fn apply_torque(
        &self,
        storages: &mut ServersStorage,
        body_tag: PhysicsRigidBodyTag,
        force: &Vector3,
    ) -> (r: Result<(), PhysicsError>)
        requires
            old(storages).wf(),
        ensures
            final(storages).wf(),
            final(storages).gc == old(storages).gc,
            !old(storages).bodies.present(body_tag.key) ==> r == Err::<(), PhysicsError>(
                PhysicsError::NotFound,
            ) && *final(storages) == *old(storages),
            old(storages).bodies.present(body_tag.key) ==> r == Ok::<(), PhysicsError>(())
                && bodies_value_set(
                *old(storages),
                *final(storages),
                body_tag.key,
                Body { active: true, ..old(storages).bodies.contents()[body_tag.key] },
            ),
    {
        if storages.bodies.has(body_tag.key) {
            proof {
                assert(!storages.bodies.locked(body_tag.key));
            }
            Self::active_body(storages, body_tag.key);
            Ok(())
        } else {
            Err(PhysicsError::NotFound)
        }
    }

    /// Apply a force at a local point; the engine wakes the body alongside.
    pub fn apply_force_at_position(
        &self,
        storages: &mut ServersStorage,
        body_tag: PhysicsRigidBodyTag,
        force: &Vector3,
        position: &Vector3,
    ) -> (r: Result<(), PhysicsError>)
        requires
            old(storages).wf(),
        ensures
            final(storages).wf(),
            final(storages).gc == old(storages).gc,
            !old(storages).bodies.present(body_tag.key) ==> r == Err::<(), PhysicsError>(
                PhysicsError::NotFound,
            ) && *final(storages) == *old(storages),
            old(storages).bodies.present(body_tag.key) ==> r == Ok::<(), PhysicsError>(())
                && bodies_value_set(
                *old(storages),
                *final(storages),
                body_tag.key,
                Body { active: true, ..old(storages).bodies.contents()[body_tag.key] },
            ),
    {
        if storages.bodies.has(body_tag.key) {
            proof {
                assert(!storages.bodies.locked(body_tag.key));
            }
            Self::active_body(storages, body_tag.key);
            Ok(())
        } else {
            Err(PhysicsError::NotFound)
        }
    }

    /// Apply a central impulse; the engine wakes the body alongside.
    pub fn apply_impulse(
        &self,
        storages: &mut ServersStorage,
        body_tag: PhysicsRigidBodyTag,
        impulse: &Vector3,
    ) -> (r: Result<(), PhysicsError>)
        requires
            old(storages).wf(),
        ensures
            final(storages).wf(),
            final(storages).gc == old(storages).gc,
            !old(storages).bodies.present(body_tag.key) ==> r == Err::<(), PhysicsError>(
                PhysicsError::NotFound,
            ) && *final(storages) == *old(storages),
            old(storages).bodies.present(body_tag.key) ==> r == Ok::<(), PhysicsError>(())
                && bodies_value_set(
                *old(storages),
                *final(storages),
                body_tag.key,
                Body { active: true, ..old(storages).bodies.contents()[body_tag.key] },
            ),
    {
        if storages.bodies.has(body_tag.key) {
            proof {
                assert(!storages.bodies.locked(body_tag.key));
            }
            Self::active_body(storages, body_tag.key);
            Ok(())
        } else {
            Err(PhysicsError::NotFound)
        }
    }

    /// Apply an angular impulse; the engine wakes the body alongside.
    pub fn apply_angular_impulse(
        &self,
        storages: &mut ServersStorage,
        body_tag: PhysicsRigidBodyTag,
        impulse: &Vector3,
    ) -> (r: Result<(), PhysicsError>)
        requires
            old(storages).wf(),
        ensures
            final(storages).wf(),
            final(storages).gc == old(storages).gc,
            !old(storages).bodies.present(body_tag.key) ==> r == Err::<(), PhysicsError>(
                PhysicsError::NotFound,
            ) && *final(storages) == *old(storages),
            old(storages).bodies.present(body_tag.key) ==> r == Ok::<(), PhysicsError>(())
                && bodies_value_set(
                *old(storages),
                *final(storages),
                body_tag.key,
                Body { active: true, ..old(storages).bodies.contents()[body_tag.key] },
            ),
    {
        if storages.bodies.has(body_tag.key) {
            proof {
                assert(!storages.bodies.locked(body_tag.key));
            }
            Self::active_body(storages, body_tag.key);
            Ok(())
        } else {
            Err(PhysicsError::NotFound)
        }
    }

    /// Apply an impulse at a point; the engine wakes the body alongside.
    pub fn apply_impulse_at_position(
        &self,
        storages: &mut ServersStorage,
        body_tag: PhysicsRigidBodyTag,
        impulse: &Vector3,
        position: &Vector3,
    ) -> (r: Result<(), PhysicsError>)
        requires
            old(storages).wf(),
        ensures
            final(storages).wf(),
            final(storages).gc == old(storages).gc,
            !old(storages).bodies.present(body_tag.key) ==> r == Err::<(), PhysicsError>(
                PhysicsError::NotFound,
            ) && *final(storages) == *old(storages),
            old(storages).bodies.present(body_tag.key) ==> r == Ok::<(), PhysicsError>(())
                && bodies_value_set(
                *old(storages),
                *final(storages),
                body_tag.key,
                Body { active: true, ..old(storages).bodies.contents()[body_tag.key] },
            ),
    {
        if storages.bodies.has(body_tag.key) {
            proof {
                assert(!storages.bodies.locked(body_tag.key));
            }
            Self::active_body(storages, body_tag.key);
            Ok(())
        } else {
            Err(PhysicsError::NotFound)
        }
    }

    /// Set the body's linear velocity payload.
    pub fn set_linear_velocity(
        &self,
        storages: &mut ServersStorage,
        body_tag: PhysicsRigidBodyTag,
        velocity: &Vector3,
    ) -> (r: Result<(), PhysicsError>)
        requires
            old(storages).wf(),
        ensures
            final(storages).wf(),
            final(storages).gc == old(storages).gc,
            !old(storages).bodies.present(body_tag.key) ==> r == Err::<(), PhysicsError>(
                PhysicsError::NotFound,
            ) && *final(storages) == *old(storages),
            old(storages).bodies.present(body_tag.key) ==> r == Ok::<(), PhysicsError>(())
                && bodies_value_set(
                *old(storages),
                *final(storages),
                body_tag.key,
                Body {
                    linear_velocity: *velocity,
                    ..old(storages).bodies.contents()[body_tag.key]
                },
            ),
    {
        let bk = body_tag.key;
        let ghost pre = *storages;
        let guard_opt = storages.bodies.get_mut(bk);
        match guard_opt {
            Some(mut g) => {
                g.value.linear_velocity = *velocity;
                let ghost nb = g.value;
                storages.bodies.release(g);
                proof {
                    assert(storages.bodies.contents() =~= pre.bodies.contents().insert(bk, nb));
                    lemma_wf_body_value_update(pre, *storages, bk, nb);
                }
                Ok(())
            },
            None => Err(PhysicsError::NotFound),
        }
    }

    /// The body's linear velocity payload; the zero word for a stale or
    /// unknown tag.
    pub fn linear_velocity(&self, storages: &ServersStorage, body_tag: PhysicsRigidBodyTag) -> (r:
        Vector3)
        requires
            storages.wf(),
        ensures
            r == if storages.bodies.present(body_tag.key) {
                storages.bodies.contents()[body_tag.key].linear_velocity
            } else {
                Vector3 { x: 0, y: 0, z: 0 }
            },
    {
        match storages.bodies.get(body_tag.key) {
            Some(body) => body.linear_velocity,
            None => Vector3::zeros(),
        }
    }

    /// Set the body's angular velocity payload.
    pub fn set_angular_velocity(
        &self,
        storages: &mut ServersStorage,
        body_tag: PhysicsRigidBodyTag,
        velocity: &Vector3,
    ) -> (r: Result<(), PhysicsError>)
        requires
            old(storages).wf(),
        ensures
            final(storages).wf(),
            final(storages).gc == old(storages).gc,
            !old(storages).bodies.present(body_tag.key) ==> r == Err::<(), PhysicsError>(
                PhysicsError::NotFound,
            ) && *final(storages) == *old(storages),
            old(storages).bodies.present(body_tag.key) ==> r == Ok::<(), PhysicsError>(())
                && bodies_value_set(
                *old(storages),
                *final(storages),
                body_tag.key,
                Body {
                    angular_velocity: *velocity,
                    ..old(storages).bodies.contents()[body_tag.key]
                },
            ),
    {
        let bk = body_tag.key;
        let ghost pre = *storages;
        let guard_opt = storages.bodies.get_mut(bk);
        match guard_opt {
            Some(mut g) => {
                g.value.angular_velocity = *velocity;
                let ghost nb = g.value;
                storages.bodies.release(g);
                proof {
                    assert(storages.bodies.contents() =~= pre.bodies.contents().insert(bk, nb));
                    lemma_wf_body_value_update(pre, *storages, bk, nb);
                }
                Ok(())
            },
            None => Err(PhysicsError::NotFound),
        }
    }

    /// The body's angular velocity payload; the zero word for a stale or
    /// unknown tag.
    pub fn angular_velocity(&self, storages: &ServersStorage, body_tag: PhysicsRigidBodyTag) -> (r:
        Vector3)
        requires
            storages.wf(),
        ensures
            r == if storages.bodies.present(body_tag.key) {
                storages.bodies.contents()[body_tag.key].angular_velocity
            } else {
                Vector3 { x: 0, y: 0, z: 0 }
            },
    {
        match storages.bodies.get(body_tag.key) {
            Some(body) => body.angular_velocity,
            None => Vector3::zeros(),
        }
    }

    /// The density policy and material a fresh collider for `body` takes:
    /// concave geometry is collision-only (density zero), everything else
    /// density one; the material is carried from the body.
    pub fn extract_collider_desc(body: &Body, shape_desc: &ShapeDesc) -> (r: (Density, Material))
        ensures
            r.0 == if shape_desc.is_concave_spec() {
                Density::Zero
            } else {
                Density::One
            },
            r.1 == (Material { friction: body.friction, bounciness: body.bounciness }),
    {
        let density = if shape_desc.is_concave() {
            Density::Zero
        } else {
            Density::One
        };
        (density, Material { friction: body.friction, bounciness: body.bounciness })
    }

    /// Rewrite a collider's routing tuple from its owning body.
    pub fn update_user_data(collider: &mut Collider, body: &Body)
        requires
            body.self_key is Some,
        ensures
            *final(collider) == (Collider {
                user_data: UserData {
                    object: body_object_tag(*body, old(collider).body_key),
                    entity: body.entity,
                },
                ..*old(collider)
            }),
    {
        let is_area = match &body.body_data {
            BodyData::Rigid => false,
            BodyData::Area(_) => true,
        };
        let object = if is_area {
            ObjectTag::Area(collider.body_key)
        } else {
            ObjectTag::RigidBody(collider.body_key)
        };
        collider.user_data = UserData { object, entity: body.entity };
    }

    /// Build a collider for `body` from the given policy and install it:
    /// the collider is inserted under a fresh key and the body's collider
    /// key is set to it.
    pub fn install_collider(
        body: &mut Body,
        shape_key: StoreKey,
        density: Density,
        material: Material,
        colliders: &mut Storage<Collider>,
    ) -> (ck: StoreKey)
        requires
            old(body).self_key is Some,
            old(colliders).wf(),
            old(colliders).fresh_generation() < u64::MAX,
        ensures
            final(colliders).wf(),
            *final(body) == (Body { collider_key: Some(ck), ..*old(body) }),
            !old(colliders).live(ck),
            !old(colliders).stale(ck),
            final(colliders).live(ck),
            final(colliders).contents() == old(colliders).contents().insert(
                ck,
                Collider {
                    body_key: old(body).self_key.unwrap(),
                    shape_key,
                    density,
                    material,
                    sensor: old(body).body_data is Area,
                    user_data: UserData {
                        object: body_object_tag(*old(body), old(body).self_key.unwrap()),
                        entity: old(body).entity,
                    },
                },
            ),
            forall|k2: StoreKey|
                k2 != ck ==> #[trigger] final(colliders).live(k2) == old(colliders).live(k2),
            forall|k2: StoreKey| #[trigger]
                final(colliders).locked(k2) == old(colliders).locked(k2),
            forall|k2: StoreKey|
                old(colliders).stale(k2) ==> #[trigger] final(colliders).stale(k2),
            final(colliders).fresh_generation() == old(colliders).fresh_generation() + 1,
    {
        let body_key = match body.self_key {
            Some(k) => k,
            None => {
                proof {
                    assert(false);
                }
                StoreKey { index: 0, generation: 0 }
            },
        };
        let is_area = match &body.body_data {
            BodyData::Rigid => false,
            BodyData::Area(_) => true,
        };
        let object = if is_area {
            ObjectTag::Area(body_key)
        } else {
            ObjectTag::RigidBody(body_key)
        };
        let collider = Collider {
            body_key,
            shape_key,
            density,
            material,
            sensor: is_area,
            user_data: UserData { object, entity: body.entity },
        };
        let ghost pre = *colliders;
        let ck = colliders.insert(collider);
        body.collider_key = Some(ck);
        proof {
            pre.lemma_locked_implies_live(ck);
        }
        ck
    }

    /// Drop the body's installed collider, if any, and clear its key.
    pub fn drop_collider(body: &mut Body, colliders: &mut Storage<Collider>)
        requires
            old(colliders).wf(),
            forall|k: StoreKey| !(#[trigger] old(colliders).locked(k)),
        ensures
            final(colliders).wf(),
            *final(body) == (Body { collider_key: None, ..*old(body) }),
            match old(body).collider_key {
                Some(ck) => {
                    &&& final(colliders).contents() == old(colliders).contents().remove(ck)
                    &&& !final(colliders).live(ck)
                    &&& (old(colliders).live(ck) ==> final(colliders).stale(ck))
                    &&& forall|k2: StoreKey|
                        k2 != ck ==> #[trigger] final(colliders).live(k2) == old(
                            colliders,
                        ).live(k2)
                },
                None => *final(colliders) == *old(colliders),
            },
            forall|k2: StoreKey| #[trigger]
                final(colliders).locked(k2) == old(colliders).locked(k2),
            forall|k2: StoreKey|
                old(colliders).stale(k2) ==> #[trigger] final(colliders).stale(k2),
            final(colliders).fresh_generation() == old(colliders).fresh_generation(),
    {
        match body.collider_key {
            Some(ck) => {
                let _ = colliders.remove(ck);
                body.collider_key = None;
            },
            None => {},
        }
    }

    /// Detach the body from its shape, if one is set: unregister the body
    /// from the shape's registered-body set — the set shrinks by exactly
    /// this body — and drop the installed collider.  A stale or unknown
    /// body key is a silent no-op.
    pub fn remove_shape(storages: &mut ServersStorage, body_key: StoreKey)
        requires
            old(storages).wf(),
        ensures
            final(storages).wf(),
            final(storages).gc == old(storages).gc,
            final(storages).joints == old(storages).joints,
            !old(storages).bodies.present(body_key) ==> *final(storages) == *old(storages),
            old(storages).bodies.present(body_key) ==> shape_detached(
                *old(storages),
                *final(storages),
                body_key,
            ),
    {
        let ghost pre = *storages;
        let guard_opt = storages.bodies.get_mut(body_key);
        match guard_opt {
            Some(mut g) => {
                proof {
                    assert(pre.bodies.present(body_key));
                    assert(pre.body_wf(body_key));
                }
                match g.value.shape_key {
                    Some(osk) => {
                        proof {
                            assert(pre.shapes.present(osk));
                            assert(pre.shape_wf(osk));
                        }
                        let sguard_opt = storages.shapes.get_mut(osk);
                        match sguard_opt {
                            Some(mut sg) => {
                                sg.value.unregister_body(body_key);
                                let ghost ns = sg.value;
                                storages.shapes.release(sg);
                                proof {
                                    assert(storages.shapes.contents() =~= pre.shapes.contents().insert(osk, ns));
                                }
                                Self::drop_collider(&mut g.value, &mut storages.colliders);
                                g.value.shape_key = None;
                                let ghost nb = g.value;
                                storages.bodies.release(g);
                                proof {
                                    assert(storages.bodies.contents() =~= pre.bodies.contents().insert(body_key, nb));
                                    assert(pre.shapes.contents()[osk].bodies_spec().contains(
                                        body_key,
                                    ));
                                    lemma_wf_remove_shape(pre, *storages, body_key, osk, ns, nb);
                                }
                            },
                            None => {
                                proof {
                                    assert(false);
                                }
                            },
                        }
                    },
                    None => {
                        proof {
                            assert(g.value.collider_key is None);
                        }
                        let ghost nb = g.value;
                        storages.bodies.release(g);
                        proof {
                            assert(storages.bodies.contents() =~= pre.bodies.contents().insert(
                                body_key,
                                nb,
                            ));
                            lemma_wf_body_value_update(pre, *storages, body_key, nb);
                        }
                    },
                }
            },
            None => {},
        }
    }

    /// Attach the body, which must currently have no shape, to the given
    /// shape: register the body in the shape's registered-body set and
    /// install a fresh collider built from the shape's geometry, with the
    /// density policy chosen from its concavity and the material carried
    /// from the body.  Reports `NotFound`, leaving the body detached, when
    /// the shape key is stale or unknown.
    pub fn install_shape(
        storages: &mut ServersStorage,
        body_key: StoreKey,
        shape_key: StoreKey,
    ) -> (r: Result<(), PhysicsError>)
        requires
            old(storages).wf(),
            old(storages).bodies.present(body_key),
            old(storages).bodies.contents()[body_key].shape_key is None,
            old(storages).colliders.fresh_generation() < u64::MAX,
        ensures
            final(storages).wf(),
            final(storages).gc == old(storages).gc,
            final(storages).joints == old(storages).joints,
            !old(storages).shapes.present(shape_key) ==> r == Err::<(), PhysicsError>(
                PhysicsError::NotFound,
            ) && bodies_value_set(
                *old(storages),
                *final(storages),
                body_key,
                old(storages).bodies.contents()[body_key],
            ),
            old(storages).shapes.present(shape_key) ==> {
                let pre_b = old(storages).bodies.contents()[body_key];
                let pre_s = old(storages).shapes.contents()[shape_key];
                let post_s = final(storages).shapes.contents()[shape_key];
                &&& r == Ok::<(), PhysicsError>(())
                &&& match final(storages).bodies.contents()[body_key].collider_key {
                    Some(ck) => {
                        &&& !old(storages).colliders.live(ck)
                        &&& !old(storages).colliders.stale(ck)
                        &&& final(storages).colliders.live(ck)
                        &&& final(storages).colliders.contents() == old(
                            storages,
                        ).colliders.contents().insert(
                            ck,
                            Collider {
                                body_key,
                                shape_key,
                                density: if pre_s.shape_desc_spec().is_concave_spec() {
                                    Density::Zero
                                } else {
                                    Density::One
                                },
                                material: Material {
                                    friction: pre_b.friction,
                                    bounciness: pre_b.bounciness,
                                },
                                sensor: pre_b.body_data is Area,
                                user_data: UserData {
                                    object: body_object_tag(pre_b, body_key),
                                    entity: pre_b.entity,
                                },
                            },
                        )
                        &&& final(storages).bodies.contents() == old(
                            storages,
                        ).bodies.contents().insert(
                            body_key,
                            Body { shape_key: Some(shape_key), collider_key: Some(ck), ..pre_b },
                        )
                        &&& forall|k2: StoreKey|
                            k2 != ck
                                ==> #[trigger] final(storages).colliders.live(k2) == old(storages).colliders.live(k2)
                    },
                    None => false,
                }
                &&& final(storages).shapes.contents() == old(storages).shapes.contents().insert(
                    shape_key,
                    post_s,
                )
                &&& post_s.bodies_spec() == pre_s.bodies_spec().push(body_key)
                &&& post_s.shape_desc_spec() == pre_s.shape_desc_spec()
                &&& post_s.self_key == pre_s.self_key
                &&& post_s.marked_for_drop == pre_s.marked_for_drop
                &&& post_s.handle_count == pre_s.handle_count
                &&& forall|k2: StoreKey| #[trigger]
                    final(storages).shapes.live(k2) == old(storages).shapes.live(k2)
                &&& forall|k2: StoreKey| #[trigger]
                    final(storages).bodies.live(k2) == old(storages).bodies.live(k2)
            },
    {
        let ghost pre = *storages;
        let guard_opt = storages.bodies.get_mut(body_key);
        match guard_opt {
            Some(mut g) => {
                proof {
                    assert(pre.bodies.present(body_key));
                    assert(pre.body_wf(body_key));
                }
                let sguard_opt = storages.shapes.get_mut(shape_key);
                match sguard_opt {
                    None => {
                        let ghost nb = g.value;
                        storages.bodies.release(g);
                        proof {
                            assert(storages.bodies.contents() =~= pre.bodies.contents().insert(
                                body_key,
                                nb,
                            ));
                            lemma_wf_body_value_update(pre, *storages, body_key, nb);
                        }
                        Err(PhysicsError::NotFound)
                    },
                    Some(mut sg) => {
                        proof {
                            assert(pre.shapes.present(shape_key));
                            assert(pre.shape_wf(shape_key));
                            if pre.shapes.contents()[shape_key].bodies_spec().contains(body_key) {
                                assert(pre.bodies.contents()[body_key].shape_key == Some(
                                    shape_key,
                                ));
                            }
                        }
                        let (density, material) = Self::extract_collider_desc(
                            &g.value,
                            sg.value.shape_handle(),
                        );
                        sg.value.register_body(body_key);
                        let ghost ns = sg.value;
                        storages.shapes.release(sg);
                        proof {
                            assert(storages.shapes.contents() =~= pre.shapes.contents().insert(
                                shape_key,
                                ns,
                            ));
                        }
                        let ck = Self::install_collider(
                            &mut g.value,
                            shape_key,
                            density,
                            material,
                            &mut storages.colliders,
                        );
                        g.value.shape_key = Some(shape_key);
                        let ghost nb = g.value;
                        storages.bodies.release(g);
                        proof {
                            assert(storages.bodies.contents() =~= pre.bodies.contents().insert(
                                body_key,
                                nb,
                            ));
                            pre.colliders.lemma_locked_implies_live(ck);
                            lemma_wf_install_shape(
                                pre,
                                *storages,
                                body_key,
                                shape_key,
                                ck,
                                ns,
                                nb,
                                storages.colliders.contents()[ck],
                            );
                        }
                        Ok(())
                    },
                }
            },
            None => {
                proof {
                    assert(false);
                }
                Err(PhysicsError::NotFound)
            },
        }
    }

}

/// Inserting a fresh, unlinked body (no shape, no collider, self key
/// backfilled) keeps the whole layer consistent.
pub proof fn lemma_wf_body_fresh_insert(pre: ServersStorage, post: ServersStorage, k: StoreKey, nb: Body)
    requires
        pre.wf(),
        !pre.bodies.live(k),
        post.bodies.wf(),
        post.bodies.contents() == pre.bodies.contents().insert(k, nb),
        forall|k2: StoreKey| k2 != k ==> #[trigger] post.bodies.live(k2) == pre.bodies.live(k2),
        forall|k2: StoreKey| #[trigger] post.bodies.locked(k2) == pre.bodies.locked(k2),
        !post.bodies.locked(k),
        post.shapes == pre.shapes,
        post.colliders == pre.colliders,
        post.joints == pre.joints,
        nb.self_key == Some(k),
        nb.shape_key is None,
        nb.collider_key is None,
    ensures
        post.wf(),
{
    assert forall|bk: StoreKey| #[trigger] post.bodies.present(bk) implies post.body_wf(bk) by {
        if bk != k {
            assert(pre.bodies.present(bk));
            assert(pre.body_wf(bk));
            assert(post.bodies.contents()[bk] == pre.bodies.contents()[bk]);
        }
    }
    assert forall|sk: StoreKey| #[trigger] post.shapes.present(sk) implies post.shape_wf(sk) by {
        assert(pre.shapes.present(sk));
        assert(pre.shape_wf(sk));
        let s = post.shapes.contents()[sk];
        assert(s == pre.shapes.contents()[sk]);
        assert forall|bk: StoreKey| #[trigger] s.bodies_spec().contains(bk) implies post.bodies.present(
            bk,
        ) && post.bodies.contents()[bk].shape_key == Some(sk) by {
            assert(pre.bodies.present(bk));
            assert(bk != k);
            assert(post.bodies.contents()[bk] == pre.bodies.contents()[bk]);
        }
    }
    assert forall|ck: StoreKey| #[trigger] post.colliders.present(ck) implies post.collider_wf(ck) by {
        assert(pre.colliders.present(ck));
        assert(pre.collider_wf(ck));
        let c = post.colliders.contents()[ck];
        assert(c.body_key != k);
        assert(post.bodies.contents()[c.body_key] == pre.bodies.contents()[c.body_key]);
    }
    assert forall|jk: StoreKey| #[trigger] post.joints.present(jk) implies post.joint_wf(jk) by {
        assert(pre.joints.present(jk));
        assert(pre.joint_wf(jk));
    }
}

/// Setting a rigid body's entity and rewriting its collider's routing tuple
/// in the same step keeps the whole layer consistent.
proof fn lemma_wf_set_entity(pre: ServersStorage, post: ServersStorage, bk: StoreKey, entity: Option<Entity>)
    requires
        pre.wf(),
        pre.bodies.present(bk),
        pre.bodies.contents()[bk].body_data is Rigid,
        post.bodies.wf(),
        post.colliders.wf(),
        post.bodies.contents() == pre.bodies.contents().insert(
            bk,
            Body { entity, ..pre.bodies.contents()[bk] },
        ),
        forall|k2: StoreKey| #[trigger] post.bodies.live(k2) == pre.bodies.live(k2),
        forall|k2: StoreKey| #[trigger] post.bodies.locked(k2) == pre.bodies.locked(k2),
        match pre.bodies.contents()[bk].collider_key {
            Some(ck) => {
                &&& post.colliders.contents() == pre.colliders.contents().insert(
                    ck,
                    Collider {
                        user_data: UserData { object: ObjectTag::RigidBody(bk), entity },
                        ..pre.colliders.contents()[ck]
                    },
                )
                &&& forall|k2: StoreKey| #[trigger]
                    post.colliders.live(k2) == pre.colliders.live(k2)
                &&& forall|k2: StoreKey| #[trigger]
                    post.colliders.locked(k2) == pre.colliders.locked(k2)
            },
            None => post.colliders == pre.colliders,
        },
        post.shapes == pre.shapes,
        post.joints == pre.joints,
    ensures
        post.wf(),
{
    let pre_b = pre.bodies.contents()[bk];
    assert forall|bk2: StoreKey| #[trigger] post.bodies.present(bk2) implies post.body_wf(bk2) by {
        assert(pre.bodies.present(bk2));
        assert(pre.body_wf(bk2));
        if bk2 == bk {
            let b = post.bodies.contents()[bk];
            assert(b.shape_key == pre_b.shape_key);
            match b.collider_key {
                Some(ck) => {
                    assert(post.colliders.contents()[ck].user_data == (UserData {
                        object: body_object_tag(b, bk),
                        entity: b.entity,
                    }));
                },
                None => {},
            }
        } else {
            assert(post.bodies.contents()[bk2] == pre.bodies.contents()[bk2]);
            match pre.bodies.contents()[bk2].collider_key {
                Some(ck2) => {
                    // another body's collider is not this body's collider
                    assert(pre.collider_wf(ck2));
                    match pre_b.collider_key {
                        Some(ck) => {
                            if ck2 == ck {
                                assert(pre.colliders.contents()[ck].body_key == bk);
                                assert(pre.colliders.contents()[ck2].body_key == bk2);
                            }
                            assert(ck2 != ck);
                            assert(post.colliders.contents()[ck2] == pre.colliders.contents()[ck2]);
                        },
                        None => {},
                    }
                },
                None => {},
            }
        }
    }
    assert forall|sk: StoreKey| #[trigger] post.shapes.present(sk) implies post.shape_wf(sk) by {
        assert(pre.shapes.present(sk));
        assert(pre.shape_wf(sk));
        let s = post.shapes.contents()[sk];
        assert(s == pre.shapes.contents()[sk]);
        assert forall|bk2: StoreKey| #[trigger] s.bodies_spec().contains(bk2) implies post.bodies.present(
            bk2,
        ) && post.bodies.contents()[bk2].shape_key == Some(sk) by {
            assert(pre.bodies.present(bk2));
            assert(pre.bodies.contents()[bk2].shape_key == Some(sk));
            if bk2 != bk {
                assert(post.bodies.contents()[bk2] == pre.bodies.contents()[bk2]);
            }
        }
    }
    assert forall|ck: StoreKey| #[trigger] post.colliders.present(ck) implies post.collider_wf(ck) by {
        assert(pre.colliders.present(ck));
        assert(pre.collider_wf(ck));
        let c = post.colliders.contents()[ck];
        if c.body_key != bk {
            assert(post.bodies.contents()[c.body_key] == pre.bodies.contents()[c.body_key]);
        }
    }
    assert forall|jk: StoreKey| #[trigger] post.joints.present(jk) implies post.joint_wf(jk) by {
        assert(pre.joints.present(jk));
        assert(pre.joint_wf(jk));
    }
}

/// Detaching a body from its shape — body links cleared, body unregistered
/// from the shape, collider removed — keeps the whole layer consistent.
proof fn lemma_wf_remove_shape(
    pre: ServersStorage,
    post: ServersStorage,
    bk: StoreKey,
    osk: StoreKey,
    ns: RigidShape,
    nb: Body,
)
    requires
        pre.wf(),
        pre.bodies.present(bk),
        pre.bodies.contents()[bk].shape_key == Some(osk),
        nb == (Body { shape_key: None, collider_key: None, ..pre.bodies.contents()[bk] }),
        post.bodies.wf(),
        post.bodies.contents() == pre.bodies.contents().insert(bk, nb),
        forall|k2: StoreKey| #[trigger] post.bodies.live(k2) == pre.bodies.live(k2),
        forall|k2: StoreKey| #[trigger] post.bodies.locked(k2) == pre.bodies.locked(k2),
        post.shapes.wf(),
        post.shapes.contents() == pre.shapes.contents().insert(osk, ns),
        forall|k2: StoreKey| #[trigger] post.shapes.live(k2) == pre.shapes.live(k2),
        forall|k2: StoreKey| #[trigger] post.shapes.locked(k2) == pre.shapes.locked(k2),
        ns.self_key == pre.shapes.contents()[osk].self_key,
        ns.bodies_unique(),
        !ns.bodies_spec().contains(bk),
        forall|k2: StoreKey|
            k2 != bk ==> #[trigger] ns.bodies_spec().contains(k2) == pre.shapes.contents()[
                osk
            ].bodies_spec().contains(k2),
        post.colliders.wf(),
        post.colliders.contents() == pre.colliders.contents().remove(
            pre.bodies.contents()[bk].collider_key.unwrap(),
        ),
        forall|k2: StoreKey|
            k2 != pre.bodies.contents()[bk].collider_key.unwrap() ==> #[trigger] post.colliders.live(
                k2,
            ) == pre.colliders.live(k2),
        !post.colliders.live(pre.bodies.contents()[bk].collider_key.unwrap()),
        forall|k2: StoreKey| #[trigger] post.colliders.locked(k2) == pre.colliders.locked(k2),
        post.joints == pre.joints,
    ensures
        post.wf(),
{
    let pre_b = pre.bodies.contents()[bk];
    let ock = pre_b.collider_key.unwrap();
    assert(pre.body_wf(bk));
    assert(pre_b.collider_key is Some);
    assert(pre.collider_wf(ock));
    assert forall|bk2: StoreKey| #[trigger] post.bodies.present(bk2) implies post.body_wf(bk2) by {
        assert(pre.bodies.present(bk2));
        assert(pre.body_wf(bk2));
        if bk2 == bk {
            assert(post.bodies.contents()[bk] == nb);
        } else {
            let b2 = post.bodies.contents()[bk2];
            assert(b2 == pre.bodies.contents()[bk2]);
            match b2.shape_key {
                Some(sk2) => {
                    if sk2 == osk {
                        assert(pre.shapes.contents()[osk].bodies_spec().contains(bk2));
                        assert(ns.bodies_spec().contains(bk2));
                        assert(post.shapes.contents()[sk2] == ns);
                    } else {
                        assert(post.shapes.contents()[sk2] == pre.shapes.contents()[sk2]);
                    }
                },
                None => {},
            }
            match b2.collider_key {
                Some(ck2) => {
                    assert(pre.colliders.contents()[ck2].body_key == bk2);
                    assert(pre.colliders.contents()[ock].body_key == bk);
                    assert(ck2 != ock);
                    assert(post.colliders.contents()[ck2] == pre.colliders.contents()[ck2]);
                },
                None => {},
            }
        }
    }
    assert forall|sk2: StoreKey| #[trigger] post.shapes.present(sk2) implies post.shape_wf(sk2) by {
        assert(pre.shapes.present(sk2));
        assert(pre.shape_wf(sk2));
        let s2 = post.shapes.contents()[sk2];
        assert forall|bk2: StoreKey| #[trigger] s2.bodies_spec().contains(bk2) implies post.bodies.present(
            bk2,
        ) && post.bodies.contents()[bk2].shape_key == Some(sk2) by {
            if sk2 == osk {
                assert(s2 == ns);
                assert(bk2 != bk);
                assert(pre.shapes.contents()[osk].bodies_spec().contains(bk2));
                assert(pre.bodies.present(bk2));
                assert(pre.bodies.contents()[bk2].shape_key == Some(osk));
                assert(post.bodies.contents()[bk2] == pre.bodies.contents()[bk2]);
            } else {
                assert(s2 == pre.shapes.contents()[sk2]);
                assert(pre.bodies.present(bk2));
                assert(pre.bodies.contents()[bk2].shape_key == Some(sk2));
                if bk2 == bk {
                    assert(pre_b.shape_key == Some(osk));
                    assert(false);
                }
                assert(post.bodies.contents()[bk2] == pre.bodies.contents()[bk2]);
            }
        }
    }
    assert forall|ck2: StoreKey| #[trigger] post.colliders.present(ck2) implies post.collider_wf(
        ck2,
    ) by {
        assert(post.colliders.live(ck2));
        assert(ck2 != ock);
        assert(pre.colliders.present(ck2));
        assert(pre.collider_wf(ck2));
        let c2 = post.colliders.contents()[ck2];
        assert(c2 == pre.colliders.contents()[ck2]);
        if c2.body_key == bk {
            assert(pre.bodies.contents()[bk].collider_key == Some(ck2));
            assert(pre_b.collider_key == Some(ock));
            assert(false);
        }
        assert(post.bodies.contents()[c2.body_key] == pre.bodies.contents()[c2.body_key]);
    }
    assert forall|jk: StoreKey| #[trigger] post.joints.present(jk) implies post.joint_wf(jk) by {
        assert(pre.joints.present(jk));
        assert(pre.joint_wf(jk));
    }
}

/// Attaching a previously shapeless body to a shape — body links set, body
/// registered on the shape, fresh collider installed — keeps the whole
/// layer consistent.
proof fn lemma_wf_install_shape(
    pre: ServersStorage,
    post: ServersStorage,
    bk: StoreKey,
    sk: StoreKey,
    ck: StoreKey,
    ns: RigidShape,
    nb: Body,
    nc: Collider,
)
    requires
        pre.wf(),
        pre.bodies.present(bk),
        pre.bodies.contents()[bk].shape_key is None,
        pre.shapes.present(sk),
        nb == (Body {
            shape_key: Some(sk),
            collider_key: Some(ck),
            ..pre.bodies.contents()[bk]
        }),
        post.bodies.wf(),
        post.bodies.contents() == pre.bodies.contents().insert(bk, nb),
        forall|k2: StoreKey| #[trigger] post.bodies.live(k2) == pre.bodies.live(k2),
        forall|k2: StoreKey| #[trigger] post.bodies.locked(k2) == pre.bodies.locked(k2),
        ns.self_key == pre.shapes.contents()[sk].self_key,
        ns.bodies_unique(),
        ns.bodies_spec() == pre.shapes.contents()[sk].bodies_spec().push(bk),
        post.shapes.wf(),
        post.shapes.contents() == pre.shapes.contents().insert(sk, ns),
        forall|k2: StoreKey| #[trigger] post.shapes.live(k2) == pre.shapes.live(k2),
        forall|k2: StoreKey| #[trigger] post.shapes.locked(k2) == pre.shapes.locked(k2),
        !pre.colliders.live(ck),
        post.colliders.live(ck),
        !post.colliders.locked(ck),
        post.colliders.wf(),
        post.colliders.contents() == pre.colliders.contents().insert(ck, nc),
        forall|k2: StoreKey| k2 != ck ==> #[trigger] post.colliders.live(k2) == pre.colliders.live(k2),
        forall|k2: StoreKey| #[trigger] post.colliders.locked(k2) == pre.colliders.locked(k2),
        nc.body_key == bk,
        nc.shape_key == sk,
        nc.sensor == (nb.body_data is Area),
        nc.user_data == (UserData { object: body_object_tag(nb, bk), entity: nb.entity }),
        post.joints == pre.joints,
    ensures
        post.wf(),
{
    let pre_b = pre.bodies.contents()[bk];
    let pre_s = pre.shapes.contents()[sk];
    assert(pre.body_wf(bk));
    assert(pre.shape_wf(sk));
    assert(pre_b.collider_key is None);
    assert(ns.bodies_spec()[ns.bodies_spec().len() - 1] == bk);
    assert(ns.bodies_spec().contains(bk));
    assert forall|bk2: StoreKey| #[trigger] post.bodies.present(bk2) implies post.body_wf(bk2) by {
        assert(pre.bodies.present(bk2));
        assert(pre.body_wf(bk2));
        if bk2 == bk {
            assert(post.bodies.contents()[bk] == nb);
            assert(post.shapes.contents()[sk] == ns);
            assert(post.colliders.present(ck));
            assert(post.colliders.contents()[ck] == nc);
            assert(body_object_tag(nb, bk) == body_object_tag(pre_b, bk));
        } else {
            let b2 = post.bodies.contents()[bk2];
            assert(b2 == pre.bodies.contents()[bk2]);
            match b2.shape_key {
                Some(sk2) => {
                    if sk2 == sk {
                        assert(pre_s.bodies_spec().contains(bk2));
                        let j = choose|j: int|
                            0 <= j < pre_s.bodies_spec().len() && pre_s.bodies_spec()[j] == bk2;
                        assert(ns.bodies_spec()[j] == bk2);
                        assert(ns.bodies_spec().contains(bk2));
                        assert(post.shapes.contents()[sk2] == ns);
                    } else {
                        assert(post.shapes.contents()[sk2] == pre.shapes.contents()[sk2]);
                    }
                },
                None => {},
            }
            match b2.collider_key {
                Some(ck2) => {
                    assert(pre.colliders.present(ck2));
                    assert(ck2 != ck);
                    assert(post.colliders.contents()[ck2] == pre.colliders.contents()[ck2]);
                },
                None => {},
            }
        }
    }
    assert forall|sk2: StoreKey| #[trigger] post.shapes.present(sk2) implies post.shape_wf(sk2) by {
        assert(pre.shapes.present(sk2));
        assert(pre.shape_wf(sk2));
        let s2 = post.shapes.contents()[sk2];
        assert forall|bk2: StoreKey| #[trigger] s2.bodies_spec().contains(bk2) implies post.bodies.present(
            bk2,
        ) && post.bodies.contents()[bk2].shape_key == Some(sk2) by {
            if sk2 == sk {
                assert(s2 == ns);
                let j = choose|j: int|
                    0 <= j < ns.bodies_spec().len() && ns.bodies_spec()[j] == bk2;
                if j < pre_s.bodies_spec().len() {
                    assert(pre_s.bodies_spec()[j] == bk2);
                    assert(pre_s.bodies_spec().contains(bk2));
                    assert(pre.bodies.present(bk2));
                    assert(pre.bodies.contents()[bk2].shape_key == Some(sk));
                    assert(bk2 != bk);
                    assert(post.bodies.contents()[bk2] == pre.bodies.contents()[bk2]);
                } else {
                    assert(bk2 == bk);
                    assert(post.bodies.contents()[bk].shape_key == Some(sk));
                }
            } else {
                assert(s2 == pre.shapes.contents()[sk2]);
                assert(pre.bodies.present(bk2));
                assert(pre.bodies.contents()[bk2].shape_key == Some(sk2));
                if bk2 == bk {
                    assert(pre_b.shape_key is None);
                    assert(false);
                }
                assert(post.bodies.contents()[bk2] == pre.bodies.contents()[bk2]);
            }
        }
    }
    assert forall|ck2: StoreKey| #[trigger] post.colliders.present(ck2) implies post.collider_wf(
        ck2,
    ) by {
        if ck2 == ck {
            assert(post.colliders.contents()[ck] == nc);
            assert(post.bodies.contents()[bk].collider_key == Some(ck));
            assert(post.shapes.present(sk));
        } else {
            assert(pre.colliders.present(ck2));
            assert(pre.collider_wf(ck2));
            let c2 = post.colliders.contents()[ck2];
            assert(c2 == pre.colliders.contents()[ck2]);
            if c2.body_key == bk {
                assert(pre.bodies.contents()[bk].collider_key == Some(ck2));
                assert(false);
            }
            assert(post.bodies.contents()[c2.body_key] == pre.bodies.contents()[c2.body_key]);
        }
    }
    assert forall|jk: StoreKey| #[trigger] post.joints.present(jk) implies post.joint_wf(jk) by {
        assert(pre.joints.present(jk));
        assert(pre.joint_wf(jk));
    }
}

/// One loop step of the joint cascade in `drop_body`: after unbinding the
/// body twice from one joint, that joint no longer binds it, other joints
/// are untouched, bodies are at most woken, and the other tables are
/// untouched.
proof fn lemma_drop_body_joint_step(
    pre: ServersStorage,
    cur0: ServersStorage,
    cur1: ServersStorage,
    cur2: ServersStorage,
    jk: StoreKey,
    bk: StoreKey,
)
    requires
        pre.wf(),
        cur0.wf(),
        cur1.wf(),
        cur2.wf(),
        pre.bodies.present(bk),
        forall|k2: StoreKey| #[trigger] cur0.joints.live(k2) == pre.joints.live(k2),
        forall|k2: StoreKey|
            pre.joints.present(k2) && !pre.joints.contents()[k2].binds_spec(bk)
                ==> #[trigger] cur0.joints.contents()[k2] == pre.joints.contents()[k2],
        forall|k2: StoreKey| #[trigger] cur0.bodies.live(k2) == pre.bodies.live(k2),
        forall|k2: StoreKey|
            pre.bodies.present(k2) ==> #[trigger] cur0.bodies.contents()[k2]
                == pre.bodies.contents()[k2] || cur0.bodies.contents()[k2] == (Body {
                active: true,
                ..pre.bodies.contents()[k2]
            }),
        cur0.shapes == pre.shapes,
        cur0.colliders == pre.colliders,
        cur0.gc == pre.gc,
        remove_step(cur0, cur1, jk, bk),
        remove_step(cur1, cur2, jk, bk),
    ensures
        cur2.joints.present(jk) ==> !cur2.joints.contents()[jk].binds_spec(bk),
        forall|k2: StoreKey| #[trigger] cur2.joints.live(k2) == pre.joints.live(k2),
        forall|k2: StoreKey|
            pre.joints.present(k2) && !pre.joints.contents()[k2].binds_spec(bk)
                ==> #[trigger] cur2.joints.contents()[k2] == pre.joints.contents()[k2],
        forall|k2: StoreKey|
            k2 != jk ==> #[trigger] cur2.joints.contents()[k2] == cur0.joints.contents()[k2],
        forall|k2: StoreKey| #[trigger] cur2.bodies.live(k2) == pre.bodies.live(k2),
        forall|k2: StoreKey|
            pre.bodies.present(k2) ==> #[trigger] cur2.bodies.contents()[k2]
                == pre.bodies.contents()[k2] || cur2.bodies.contents()[k2] == (Body {
                active: true,
                ..pre.bodies.contents()[k2]
            }),
        cur2.shapes == pre.shapes,
        cur2.colliders == pre.colliders,
        cur2.gc == pre.gc,
{
    lemma_remove_step_effects(cur0, cur1, jk, bk, pre);
    lemma_remove_step_effects(cur1, cur2, jk, bk, pre);
    if cur2.joints.present(jk) {
        assert(cur1.joints.present(jk));
        assert(cur0.joints.present(jk));
        let j0 = cur0.joints.contents()[jk];
        let j1 = cur1.joints.contents()[jk];
        let j2 = cur2.joints.contents()[jk];
        if j0.binds_spec(bk) {
            assert(j1 == crate::joint_physics_server::joint_after_remove(cur0, jk, bk));
            if j1.binds_spec(bk) {
                assert(j2 == crate::joint_physics_server::joint_after_remove(cur1, jk, bk));
            }
        }
        assert(!j2.binds_spec(bk));
    }
}

/// What one `remove_rigid_body` call guarantees, phrased over a reference
/// state `base`: joints other than `jk` keep their values, bodies are at
/// most woken relative to `base`, the other tables are untouched.
spec fn remove_step(s0: ServersStorage, s1: ServersStorage, jk: StoreKey, bk: StoreKey) -> bool {
    &&& (!(s0.joints.present(jk) && s0.joints.contents()[jk].binds_spec(bk)) ==> s1 == s0)
    &&& (s0.joints.present(jk) && s0.joints.contents()[jk].binds_spec(bk) ==> {
        let j = s0.joints.contents()[jk];
        &&& s1.joints.contents() == s0.joints.contents().insert(
            jk,
            crate::joint_physics_server::joint_after_remove(s0, jk, bk),
        )
        &&& (forall|k2: StoreKey| #[trigger] s1.joints.live(k2) == s0.joints.live(k2))
        &&& (forall|k2: StoreKey|
            k2 != jk ==> #[trigger] s1.joints.contents()[k2] == s0.joints.contents()[k2])
        &&& (forall|k2: StoreKey| #[trigger] s1.bodies.live(k2) == s0.bodies.live(k2))
        &&& match j.constraint {
            Some(c) => s1.bodies.contents() == s0.bodies.contents().insert(
                c.body_0.body,
                Body { active: true, ..s0.bodies.contents()[c.body_0.body] },
            ).insert(
                c.body_1.body,
                Body { active: true, ..s0.bodies.contents()[c.body_1.body] },
            ),
            None => s1.bodies == s0.bodies,
        }
        &&& s1.shapes == s0.shapes
        &&& s1.colliders == s0.colliders
        &&& s1.gc == s0.gc
    })
}

/// Carry the cascade invariants of `drop_body` across one `remove_step`.
proof fn lemma_remove_step_effects(
    s0: ServersStorage,
    s1: ServersStorage,
    jk: StoreKey,
    bk: StoreKey,
    pre: ServersStorage,
)
    requires
        pre.wf(),
        s0.wf(),
        remove_step(s0, s1, jk, bk),
        forall|k2: StoreKey| #[trigger] s0.joints.live(k2) == pre.joints.live(k2),
        forall|k2: StoreKey|
            pre.joints.present(k2) && !pre.joints.contents()[k2].binds_spec(bk)
                ==> #[trigger] s0.joints.contents()[k2] == pre.joints.contents()[k2],
        forall|k2: StoreKey| #[trigger] s0.bodies.live(k2) == pre.bodies.live(k2),
        forall|k2: StoreKey|
            pre.bodies.present(k2) ==> #[trigger] s0.bodies.contents()[k2]
                == pre.bodies.contents()[k2] || s0.bodies.contents()[k2] == (Body {
                active: true,
                ..pre.bodies.contents()[k2]
            }),
        s0.shapes == pre.shapes,
        s0.colliders == pre.colliders,
        s0.gc == pre.gc,
    ensures
        forall|k2: StoreKey| #[trigger] s1.joints.live(k2) == pre.joints.live(k2),
        forall|k2: StoreKey|
            pre.joints.present(k2) && !pre.joints.contents()[k2].binds_spec(bk)
                ==> #[trigger] s1.joints.contents()[k2] == pre.joints.contents()[k2],
        forall|k2: StoreKey|
            k2 != jk ==> #[trigger] s1.joints.contents()[k2] == s0.joints.contents()[k2],
        forall|k2: StoreKey| #[trigger] s1.bodies.live(k2) == pre.bodies.live(k2),
        forall|k2: StoreKey|
            pre.bodies.present(k2) ==> #[trigger] s1.bodies.contents()[k2]
                == pre.bodies.contents()[k2] || s1.bodies.contents()[k2] == (Body {
                active: true,
                ..pre.bodies.contents()[k2]
            }),
        s1.shapes == pre.shapes,
        s1.colliders == pre.colliders,
        s1.gc == pre.gc,
{
    if s0.joints.present(jk) && s0.joints.contents()[jk].binds_spec(bk) {
        assert forall|k2: StoreKey|
            pre.joints.present(k2) && !pre.joints.contents()[k2].binds_spec(bk)
                implies #[trigger] s1.joints.contents()[k2] == pre.joints.contents()[k2] by {
            if k2 == jk {
                assert(s0.joints.contents()[jk] == pre.joints.contents()[jk]);
                assert(!s0.joints.contents()[jk].binds_spec(bk));
                assert(false);
            }
        }
        let j = s0.joints.contents()[jk];
        match j.constraint {
            Some(c) => {
                assert forall|k2: StoreKey|
                    pre.bodies.present(k2) implies #[trigger] s1.bodies.contents()[k2]
                        == pre.bodies.contents()[k2] || s1.bodies.contents()[k2] == (Body {
                        active: true,
                        ..pre.bodies.contents()[k2]
                    }) by {
                    if k2 == c.body_1.body || k2 == c.body_0.body {
                        assert(s1.bodies.contents()[k2] == (Body {
                            active: true,
                            ..s0.bodies.contents()[k2]
                        }));
                    }
                }
            },
            None => {},
        }
    }
}

/// Removing a body with no shape, no collider and no joint bound to it
/// keeps the whole layer consistent: nothing references it any more.
proof fn lemma_wf_unlinked_body_remove(pre: ServersStorage, post: ServersStorage, bk: StoreKey)
    requires
        pre.wf(),
        pre.bodies.present(bk),
        pre.bodies.contents()[bk].shape_key is None,
        pre.bodies.contents()[bk].collider_key is None,
        forall|jk: StoreKey| #[trigger]
            pre.joints.present(jk) ==> !pre.joints.contents()[jk].binds_spec(bk),
        post.bodies.wf(),
        post.bodies.contents() == pre.bodies.contents().remove(bk),
        forall|k2: StoreKey| k2 != bk ==> #[trigger] post.bodies.live(k2) == pre.bodies.live(k2),
        !post.bodies.live(bk),
        forall|k2: StoreKey| #[trigger] post.bodies.locked(k2) == pre.bodies.locked(k2),
        post.shapes == pre.shapes,
        post.colliders == pre.colliders,
        post.joints == pre.joints,
    ensures
        post.wf(),
{
    assert forall|bk2: StoreKey| #[trigger] post.bodies.present(bk2) implies post.body_wf(bk2) by {
        assert(bk2 != bk);
        assert(pre.bodies.present(bk2));
        assert(pre.body_wf(bk2));
        assert(post.bodies.contents()[bk2] == pre.bodies.contents()[bk2]);
    }
    assert forall|sk: StoreKey| #[trigger] post.shapes.present(sk) implies post.shape_wf(sk) by {
        assert(pre.shapes.present(sk));
        assert(pre.shape_wf(sk));
        let s = post.shapes.contents()[sk];
        assert forall|bk2: StoreKey| #[trigger] s.bodies_spec().contains(bk2) implies post.bodies.present(
            bk2,
        ) && post.bodies.contents()[bk2].shape_key == Some(sk) by {
            assert(pre.bodies.present(bk2));
            assert(pre.bodies.contents()[bk2].shape_key == Some(sk));
            if bk2 == bk {
                assert(pre.bodies.contents()[bk].shape_key is None);
                assert(false);
            }
            assert(post.bodies.contents()[bk2] == pre.bodies.contents()[bk2]);
        }
    }
    assert forall|ck: StoreKey| #[trigger] post.colliders.present(ck) implies post.collider_wf(ck) by {
        assert(pre.colliders.present(ck));
        assert(pre.collider_wf(ck));
        let c = post.colliders.contents()[ck];
        if c.body_key == bk {
            assert(pre.bodies.contents()[bk].collider_key == Some(ck));
            assert(false);
        }
        assert(post.bodies.contents()[c.body_key] == pre.bodies.contents()[c.body_key]);
    }
    assert forall|jk: StoreKey| #[trigger] post.joints.present(jk) implies post.joint_wf(jk) by {
        assert(pre.joints.present(jk));
        assert(pre.joint_wf(jk));
        assert(!pre.joints.contents()[jk].binds_spec(bk));
        let j = post.joints.contents()[jk];
        assert(j == pre.joints.contents()[jk]);
        match j.body_0 {
            Some(bp) => {
                assert(bp.body != bk);
            },
            None => {},
        }
        match j.body_1 {
            Some(bp) => {
                assert(bp.body != bk);
            },
            None => {},
        }
    }
}

} // verus!
