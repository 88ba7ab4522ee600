//! Shape server: lifecycle of collision shapes.
//!
//! A shape cannot be removed while its registered-body set is non-empty:
//! such a drop only marks the shape for deferred drop and reports `false`;
//! the shape stays fully queryable until its last dependent detaches and a
//! later drop succeeds.  Updating a shape's descriptor rebuilds the collider
//! of every registered body, preserving each collider's density policy and
//! material.

use vstd::prelude::*;

use crate::body::Body;
use crate::collider::Collider;
use crate::objects::{ObjectTag, PhysicsHandle, PhysicsShapeTag};
use crate::rigid_body_physics_server::RBodyNpServer;
use crate::servers_storage::{
    body_object_tag, lemma_wf_shape_value_update, shapes_value_set, ServersStorage,
};
use crate::shape::{keys_unique, lemma_keys_unique_distinct, RigidShape, ShapeDesc};
use crate::storage::{Storage, StoreKey};
use crate::PhysicsError;

verus! {

/// Effect on one registered body of rebuilding its collider: the body
/// points at a fresh collider key; the old collider is gone; the new
/// collider carries exactly the old one's density policy, material, sensor
/// flag and routing tuple.
pub open spec fn collider_rebuilt(pre: ServersStorage, post: ServersStorage, bk: StoreKey) -> bool {
    let pre_b = pre.bodies.contents()[bk];
    let post_b = post.bodies.contents()[bk];
    &&& pre_b.collider_key is Some
    &&& post_b.collider_key is Some
    &&& post_b == (Body { collider_key: post_b.collider_key, ..pre_b })
    &&& post_b.collider_key != pre_b.collider_key
    &&& !post.colliders.live(pre_b.collider_key.unwrap())
    &&& post.colliders.stale(pre_b.collider_key.unwrap())
    &&& post.colliders.present(post_b.collider_key.unwrap())
    &&& post.colliders.contents()[post_b.collider_key.unwrap()] == pre.colliders.contents()[
        pre_b.collider_key.unwrap()
    ]
}

/// The shape server.  It holds no state of its own: every operation works
/// on the [`ServersStorage`] passed to it.
pub struct ShapeNpServer {
}

impl ShapeNpServer {
    pub fn new() -> (s: ShapeNpServer)
    {
        ShapeNpServer {  }
    }

    /// Insert a new shape built from the descriptor, backfill its own key,
    /// and hand back the first counted handle to it.
    pub fn create_shape(&self, storages: &mut ServersStorage, shape_desc: ShapeDesc) -> (h:
        PhysicsHandle)
        requires
            old(storages).wf(),
            old(storages).shapes.fresh_generation() < u64::MAX,
        ensures
            final(storages).wf(),
            final(storages).gc == old(storages).gc,
            h.tag is Shape,
            ({
                let k = h.tag.key_spec();
                &&& !old(storages).shapes.live(k)
                &&& !old(storages).shapes.stale(k)
                &&& final(storages).shapes.live(k)
                &&& final(storages).shapes.contents() == old(storages).shapes.contents().insert(
                    k,
                    final(storages).shapes.contents()[k],
                )
                &&& final(storages).shapes.contents()[k].self_key == Some(k)
                &&& final(storages).shapes.contents()[k].shape_desc_spec() == shape_desc
                &&& final(storages).shapes.contents()[k].bodies_spec() == Seq::<StoreKey>::empty()
                &&& !final(storages).shapes.contents()[k].marked_for_drop
                &&& final(storages).shapes.contents()[k].handle_count == 1
                &&& forall|k2: StoreKey|
                    k2 != k ==> #[trigger] final(storages).shapes.live(k2) == old(
                        storages,
                    ).shapes.live(k2)
                &&& forall|k2: StoreKey|
                    old(storages).shapes.stale(k2) ==> #[trigger] final(storages).shapes.stale(k2)
                &&& final(storages).handle_count(h.tag) == 1
            }),
            final(storages).bodies == old(storages).bodies,
            final(storages).colliders == old(storages).colliders,
            final(storages).joints == old(storages).joints,
    {
        let ghost pre = *storages;
        let shape = RigidShape::new(shape_desc);
        let k = storages.shapes.insert(shape);
        let guard_opt = storages.shapes.get_mut(k);
        match guard_opt {
            Some(mut g) => {
                g.value.self_key = Some(k);
                let ghost ns = g.value;
                storages.shapes.release(g);
                proof {
                    assert(storages.shapes.contents() =~= pre.shapes.contents().insert(k, ns));
                    lemma_wf_shape_fresh_insert(pre, *storages, k, ns);
                }
            },
            None => {
                proof {
                    assert(false);
                }
            },
        }
        PhysicsHandle { tag: ObjectTag::Shape(k) }
    }

    /// Replace the shape's geometry descriptor and rebuild the collider of
    /// every body registered against the shape — an all-dependents rebuild,
    /// not a lazy one.  Each rebuilt collider keeps its body's prior density
    /// policy and material (and sensor flag and routing tuple); only the
    /// geometry, taken from the shape, changes.  Reports `NotFound` for a
    /// stale or unknown tag.
    pub fn update_shape(
        &self,
        storages: &mut ServersStorage,
        shape_tag: PhysicsShapeTag,
        shape_desc: ShapeDesc,
    ) -> (r: Result<(), PhysicsError>)
        requires
            old(storages).wf(),
            old(storages).shapes.present(shape_tag.key) ==> old(
                storages,
            ).colliders.fresh_generation() + old(storages).shapes.contents()[
                shape_tag.key
            ].bodies_spec().len() <= u64::MAX,
        ensures
            final(storages).wf(),
            final(storages).gc == old(storages).gc,
            final(storages).joints == old(storages).joints,
            !old(storages).shapes.present(shape_tag.key) ==> r == Err::<(), PhysicsError>(
                PhysicsError::NotFound,
            ) && *final(storages) == *old(storages),
            old(storages).shapes.present(shape_tag.key) ==> {
                let sk = shape_tag.key;
                let pre_s = old(storages).shapes.contents()[sk];
                &&& r == Ok::<(), PhysicsError>(())
                &&& final(storages).shapes.contents() == old(storages).shapes.contents().insert(
                    sk,
                    RigidShape { shape_desc, ..pre_s },
                )
                &&& forall|k2: StoreKey| #[trigger]
                    final(storages).shapes.live(k2) == old(storages).shapes.live(k2)
                &&& forall|bk: StoreKey| #[trigger]
                    pre_s.bodies_spec().contains(bk) ==> collider_rebuilt(
                        *old(storages),
                        *final(storages),
                        bk,
                    )
                &&& forall|bk: StoreKey|
                    old(storages).bodies.present(bk) && !pre_s.bodies_spec().contains(bk)
                        ==> #[trigger] final(storages).bodies.contents()[bk] == old(storages).bodies.contents()[bk]
                &&& forall|bk: StoreKey| #[trigger]
                    final(storages).bodies.live(bk) == old(storages).bodies.live(bk)
                &&& forall|ck: StoreKey|
                    old(storages).colliders.present(ck) && !pre_s.bodies_spec().contains(
                        old(storages).colliders.contents()[ck].body_key,
                    ) ==> #[trigger] final(storages).colliders.contents()[ck] == old(storages).colliders.contents()[ck]
                        && final(storages).colliders.live(ck)
            },
    {
        let sk = shape_tag.key;
        if !storages.shapes.has(sk) {
            return Err(PhysicsError::NotFound);
        }
        let ghost pre = *storages;
        proof {
            assert(pre.shapes.present(sk));
            assert(pre.shape_wf(sk));
        }
        // Replace the descriptor first; the registered set is untouched.
        let guard_opt = storages.shapes.get_mut(sk);
        match guard_opt {
            Some(mut g) => {
                g.value.update(shape_desc);
                let ghost ns = g.value;
                storages.shapes.release(g);
                proof {
                    assert(storages.shapes.contents() =~= pre.shapes.contents().insert(sk, ns));
                    lemma_wf_shape_value_update(pre, *storages, sk, ns);
                }
            },
            None => {
                proof {
                    assert(false);
                }
            },
        }
        let ghost s1 = *storages;
        // Snapshot the registered bodies, then rebuild each one's collider.
        let keys: Vec<StoreKey> = match storages.shapes.get(sk) {
            Some(shape) => copy_keys(shape.bodies()),
            None => {
                proof {
                    assert(false);
                }
                Vec::new()
            },
        };
        let ghost set = pre.shapes.contents()[sk].bodies_spec();
        proof {
            assert(keys@ == set);
            assert(keys_unique(set));
        }
        let n = keys.len();
        proof {
            assert forall|j: int| 0 <= j < n implies pre.bodies.present(#[trigger] set[j]) && (
            pre.bodies.contents()[set[j]].collider_key is Some) && pre.colliders.live(
                pre.bodies.contents()[set[j]].collider_key.unwrap(),
            ) by {
                assert(pre.shape_wf(sk));
                assert(set[j] == set[j]);
                assert(set.contains(set[j]));
                assert(pre.bodies.present(set[j]));
                assert(pre.body_wf(set[j]));
            }
        }
        let mut i: usize = 0;
        while i < n
            invariant
                storages.wf(),
                i <= n,
                n == keys@.len(),
                keys@ == set,
                keys_unique(set),
                pre.wf(),
                pre.shapes.present(sk),
                set == pre.shapes.contents()[sk].bodies_spec(),
                forall|j: int| 0 <= j < n ==> pre.bodies.present(#[trigger] set[j]),
                forall|j: int|
                    0 <= j < n ==> (#[trigger] pre.bodies.contents()[set[j]].collider_key)
                        is Some,
                storages.shapes == s1.shapes,
                s1.shapes.contents() == pre.shapes.contents().insert(
                    sk,
                    RigidShape { shape_desc, ..pre.shapes.contents()[sk] },
                ),
                forall|k2: StoreKey| #[trigger] s1.shapes.live(k2) == pre.shapes.live(k2),
                storages.joints == pre.joints,
                storages.gc == pre.gc,
                storages.colliders.fresh_generation() <= pre.colliders.fresh_generation() + i,
                pre.colliders.fresh_generation() + n <= u64::MAX,
                forall|j: int| 0 <= j < i ==> collider_rebuilt(pre, *storages, #[trigger] set[j]),
                forall|j: int|
                    i <= j < n ==> #[trigger] storages.bodies.contents()[set[j]]
                        == pre.bodies.contents()[set[j]],
                forall|j: int|
                    i <= j < n ==> #[trigger] storages.colliders.contents()[
                        pre.bodies.contents()[set[j]].collider_key.unwrap()
                    ] == pre.colliders.contents()[
                        pre.bodies.contents()[set[j]].collider_key.unwrap()
                    ] && storages.colliders.live(
                        pre.bodies.contents()[set[j]].collider_key.unwrap(),
                    ),
                forall|bk: StoreKey|
                    pre.bodies.present(bk) && !set.contains(bk)
                        ==> #[trigger] storages.bodies.contents()[bk] == pre.bodies.contents()[bk],
                forall|bk: StoreKey| #[trigger] storages.bodies.live(bk) == pre.bodies.live(bk),
                forall|ck: StoreKey|
                    pre.colliders.present(ck) && !set.contains(
                        pre.colliders.contents()[ck].body_key,
                    ) ==> #[trigger] storages.colliders.contents()[ck] == pre.colliders.contents()[
                        ck
                    ] && storages.colliders.live(ck),
            decreases n - i,
        {
            let bk = keys[i];
            let ghost cur = *storages;
            proof {
                assert(set.contains(bk));
                assert(cur.bodies.contents()[bk] == pre.bodies.contents()[bk]);
                assert(pre.shape_wf(sk));
                assert(pre.bodies.present(bk));
                assert(cur.bodies.present(bk));
                assert(cur.body_wf(bk));
                assert(pre.body_wf(bk));
                assert(pre.bodies.contents()[bk].shape_key == Some(sk));
                assert(pre.bodies.contents()[bk].collider_key is Some);
            }
            let guard_opt = storages.bodies.get_mut(bk);
            match guard_opt {
                Some(mut g) => {
                    let ock = match g.value.collider_key {
                        Some(ock) => ock,
                        None => {
                            proof {
                                assert(false);
                            }
                            bk
                        },
                    };
                    proof {
                        assert(cur.colliders.present(ock));
                        assert(cur.colliders.contents()[ock] == pre.colliders.contents()[
                            pre.bodies.contents()[bk].collider_key.unwrap()
                        ]);
                    }
                    let (density, material) = match storages.colliders.get(ock) {
                        Some(c) => (c.density, c.material),
                        None => {
                            proof {
                                assert(false);
                            }
                            (
                                crate::collider::Density::Zero,
                                crate::collider::Material { friction: 0, bounciness: 0 },
                            )
                        },
                    };
                    RBodyNpServer::drop_collider(&mut g.value, &mut storages.colliders);
                    let ghost middrop = storages.colliders;
                    let nck = RBodyNpServer::install_collider(
                        &mut g.value,
                        sk,
                        density,
                        material,
                        &mut storages.colliders,
                    );
                    g.value.shape_key = Some(sk);
                    let ghost nb = g.value;
                    let ghost nc = storages.colliders.contents()[nck];
                    storages.bodies.release(g);
                    proof {
                        assert(nb == (Body {
                            collider_key: Some(nck),
                            ..cur.bodies.contents()[bk]
                        }));
                        assert(storages.bodies.contents() =~= cur.bodies.contents().insert(
                            bk,
                            nb,
                        ));
                        assert(storages.colliders.contents() =~= cur.colliders.contents().remove(
                            ock,
                        ).insert(nck, nc));
                        assert(!cur.colliders.live(nck)) by {
                            assert(!middrop.live(nck));
                            assert(nck != ock ==> cur.colliders.live(nck) == middrop.live(nck));
                            assert(cur.colliders.live(ock));
                            assert(middrop.stale(ock));
                            assert(!middrop.stale(nck));
                        }
                        assert(nc == cur.colliders.contents()[ock]) by {
                            assert(cur.collider_wf(ock));
                            assert(cur.colliders.contents()[ock].body_key == bk);
                            assert(cur.colliders.contents()[ock].shape_key == sk) by {
                                assert(Some(cur.colliders.contents()[ock].shape_key)
                                    == cur.bodies.contents()[bk].shape_key);
                                assert(cur.bodies.contents()[bk].shape_key == Some(sk));
                            }
                            assert(cur.colliders.contents()[ock].sensor == (
                            cur.bodies.contents()[bk].body_data is Area));
                            assert(cur.colliders.contents()[ock].user_data == (
                            crate::objects::UserData {
                                object: body_object_tag(cur.bodies.contents()[bk], bk),
                                entity: cur.bodies.contents()[bk].entity,
                            }));
                        }
                        assert(storages.colliders.stale(ock));
                        lemma_wf_collider_rebuild(cur, *storages, bk, ock, nck, nb, nc);
                        // processed entries stay rebuilt
                        assert forall|j: int| 0 <= j < i + 1 implies collider_rebuilt(
                            pre,
                            *storages,
                            #[trigger] set[j],
                        ) by {
                            if j < i {
                                let bj = set[j];
                                lemma_keys_unique_distinct(set, j, i as int);
                                assert(bj != bk);
                                assert(collider_rebuilt(pre, cur, bj));
                                let ock_j = pre.bodies.contents()[bj].collider_key.unwrap();
                                let nck_j = cur.bodies.contents()[bj].collider_key.unwrap();
                                assert(storages.bodies.contents()[bj] == cur.bodies.contents()[
                                    bj
                                ]);
                                assert(pre.shape_wf(sk));
                                assert(set.contains(bj));
                                assert(pre.bodies.present(bj));
                                assert(pre.body_wf(bj));
                                assert(pre.colliders.contents()[ock_j].body_key == bj);
                                assert(cur.colliders.contents()[nck_j]
                                    == pre.colliders.contents()[ock_j]);
                                assert(cur.colliders.contents()[nck_j].body_key == bj);
                                assert(cur.colliders.contents()[ock].body_key == bk);
                                assert(nck_j != ock);
                                assert(cur.colliders.present(nck_j));
                                assert(nck_j != nck);
                                assert(storages.colliders.contents()[nck_j]
                                    == cur.colliders.contents()[nck_j]);
                                assert(storages.colliders.live(nck_j));
                                assert(!storages.colliders.locked(nck_j));
                                assert(cur.colliders.stale(ock_j));
                                assert(!middrop.stale(nck));
                                assert(middrop.stale(ock_j));
                                assert(nck != ock_j);
                                assert(pre.collider_wf(ock_j));
                                assert(pre.colliders.contents()[ock_j].body_key == bj);
                                assert(pre.colliders.present(ock));
                                assert(pre.collider_wf(ock));
                                assert(pre.colliders.contents()[ock].body_key == bk);
                                assert(ock_j != ock);
                                assert(!storages.colliders.live(ock_j));
                                assert(storages.colliders.stale(ock_j));
                            } else {
                                assert(set[j] == bk);
                            }
                        }
                        // unprocessed entries stay untouched
                        assert forall|j: int|
                            i + 1 <= j < n implies #[trigger] storages.bodies.contents()[set[j]]
                                == pre.bodies.contents()[set[j]] by {
                            lemma_keys_unique_distinct(set, i as int, j);
                            assert(set[j] != bk);
                        }
                        assert forall|j: int|
                            i + 1 <= j < n implies #[trigger] storages.colliders.contents()[
                                pre.bodies.contents()[set[j]].collider_key.unwrap()
                            ] == pre.colliders.contents()[
                                pre.bodies.contents()[set[j]].collider_key.unwrap()
                            ] && storages.colliders.live(
                                pre.bodies.contents()[set[j]].collider_key.unwrap(),
                            ) by {
                            lemma_keys_unique_distinct(set, i as int, j);
                            let bj = set[j];
                            assert(bj != bk);
                            assert(pre.shape_wf(sk));
                            assert(set.contains(bj));
                            assert(pre.bodies.present(bj));
                            assert(pre.body_wf(bj));
                            let ock_j = pre.bodies.contents()[bj].collider_key.unwrap();
                            assert(cur.colliders.contents()[ock_j] == pre.colliders.contents()[
                                ock_j
                            ]);
                            assert(cur.colliders.live(ock_j));
                            assert(pre.colliders.contents()[ock_j].body_key == bj);
                            assert(cur.colliders.contents()[ock].body_key == bk);
                            assert(cur.colliders.contents()[ock]
                                == pre.colliders.contents()[ock]);
                            assert(ock_j != ock);
                            assert(!cur.colliders.live(nck));
                            assert(ock_j != nck);
                        }
                        // bodies outside the set stay untouched
                        assert forall|bk2: StoreKey|
                            pre.bodies.present(bk2) && !set.contains(bk2)
                                implies #[trigger] storages.bodies.contents()[bk2]
                                == pre.bodies.contents()[bk2] by {
                            assert(set[i as int] == bk);
                            assert(set.contains(bk));
                            assert(bk2 != bk);
                            assert(cur.bodies.contents()[bk2] == pre.bodies.contents()[bk2]);
                        }
                        assert forall|bk2: StoreKey| #[trigger]
                            storages.bodies.live(bk2) == pre.bodies.live(bk2) by {
                            assert(cur.bodies.live(bk2) == pre.bodies.live(bk2));
                        }
                        // colliders owned outside the set stay untouched
                        assert forall|ck2: StoreKey|
                            pre.colliders.present(ck2) && !set.contains(
                                pre.colliders.contents()[ck2].body_key,
                            ) implies #[trigger] storages.colliders.contents()[ck2]
                                == pre.colliders.contents()[ck2] && storages.colliders.live(
                                ck2,
                            ) by {
                            assert(cur.colliders.contents()[ck2] == pre.colliders.contents()[
                                ck2
                            ]);
                            assert(cur.colliders.live(ck2));
                            assert(pre.colliders.contents()[ock].body_key == bk) by {
                                assert(cur.colliders.contents()[ock]
                                    == pre.colliders.contents()[ock]);
                                assert(cur.collider_wf(ock));
                            }
                            assert(set.contains(bk));
                            assert(ck2 != ock);
                            assert(!cur.colliders.live(nck));
                            assert(ck2 != nck);
                        }
                    }
                },
                None => {
                    proof {
                        assert(false);
                    }
                },
            }
            i = i + 1;
        }
        proof {
            let post = *storages;
            assert forall|bk: StoreKey| #[trigger]
                pre.shapes.contents()[sk].bodies_spec().contains(bk) implies collider_rebuilt(
                pre,
                post,
                bk,
            ) by {
                let j = choose|j: int| 0 <= j < set.len() && set[j] == bk;
                assert(collider_rebuilt(pre, post, set[j]));
            }
        }
        Ok(())
    }

    /// Whether the shape is still in use: live with at least one body
    /// registered against it.
    pub fn has_dependency(shape_key: StoreKey, shapes_storage: &Storage<RigidShape>) -> (r: bool)
        ensures
            r == (shapes_storage.present(shape_key) && shapes_storage.contents()[
                shape_key
            ].bodies_spec().len() > 0),
    {
        match shapes_storage.get(shape_key) {
            Some(shape) => shape.bodies().len() > 0,
            None => false,
        }
    }

    /// Drop a shape.  With live dependents the drop is deferred: the shape
    /// is only marked and the recoverable `InUse` condition comes back,
    /// with the shape staying fully queryable.  Without dependents the
    /// shape is removed; a stale or unknown tag also succeeds, there being
    /// nothing left to drop.
    pub fn drop_shape(shape_tag: PhysicsShapeTag, storages: &mut ServersStorage) -> (r: Result<
        (),
        PhysicsError,
    >)
        requires
            old(storages).wf(),
        ensures
            final(storages).wf(),
            final(storages).gc == old(storages).gc,
            !old(storages).shapes.present(shape_tag.key) ==> r == Ok::<(), PhysicsError>(())
                && *final(storages) == *old(storages),
            old(storages).shapes.present(shape_tag.key) && old(storages).shapes.contents()[
                shape_tag.key
            ].bodies_spec().len() > 0 ==> r == Err::<(), PhysicsError>(PhysicsError::InUse)
                && shapes_value_set(
                *old(storages),
                *final(storages),
                shape_tag.key,
                RigidShape {
                    marked_for_drop: true,
                    ..old(storages).shapes.contents()[shape_tag.key]
                },
            ) && final(storages).shapes.present(shape_tag.key),
            old(storages).shapes.present(shape_tag.key) && old(storages).shapes.contents()[
                shape_tag.key
            ].bodies_spec().len() == 0 ==> r == Ok::<(), PhysicsError>(()) && {
                &&& final(storages).shapes.contents() == old(storages).shapes.contents().remove(
                    shape_tag.key,
                )
                &&& !final(storages).shapes.live(shape_tag.key)
                &&& final(storages).shapes.stale(shape_tag.key)
                &&& forall|k2: StoreKey|
                    k2 != shape_tag.key ==> #[trigger] final(storages).shapes.live(k2) == old(
                        storages,
                    ).shapes.live(k2)
                &&& final(storages).bodies == old(storages).bodies
                &&& final(storages).colliders == old(storages).colliders
                &&& final(storages).joints == old(storages).joints
            },
    {
        let shape_key = shape_tag.key;
        let ghost pre = *storages;
        if !storages.shapes.has(shape_key) {
            return Ok(());
        }
        proof {
            assert(pre.shapes.present(shape_key));
            assert(pre.shape_wf(shape_key));
        }
        let in_use = Self::has_dependency(shape_key, &storages.shapes);
        if in_use {
            let guard_opt = storages.shapes.get_mut(shape_key);
            match guard_opt {
                Some(mut g) => {
                    g.value.marked_for_drop = true;
                    let ghost ns = g.value;
                    storages.shapes.release(g);
                    proof {
                        assert(storages.shapes.contents() =~= pre.shapes.contents().insert(
                            shape_key,
                            ns,
                        ));
                        lemma_wf_shape_value_update(pre, *storages, shape_key, ns);
                    }
                },
                None => {
                    proof {
                        assert(false);
                    }
                },
            }
            Err(PhysicsError::InUse)
        } else {
            let _ = storages.shapes.remove(shape_key);
            proof {
                lemma_wf_shape_empty_remove(pre, *storages, shape_key);
            }
            Ok(())
        }
    }
}

/// Inserting a fresh shape with no registered bodies keeps the whole layer
/// consistent.
proof fn lemma_wf_shape_fresh_insert(
    pre: ServersStorage,
    post: ServersStorage,
    k: StoreKey,
    ns: RigidShape,
)
    requires
        pre.wf(),
        !pre.shapes.live(k),
        post.shapes.wf(),
        post.shapes.contents() == pre.shapes.contents().insert(k, ns),
        forall|k2: StoreKey| k2 != k ==> #[trigger] post.shapes.live(k2) == pre.shapes.live(k2),
        forall|k2: StoreKey| #[trigger] post.shapes.locked(k2) == pre.shapes.locked(k2),
        !post.shapes.locked(k),
        post.bodies == pre.bodies,
        post.colliders == pre.colliders,
        post.joints == pre.joints,
        ns.self_key == Some(k),
        ns.bodies_spec() == Seq::<StoreKey>::empty(),
    ensures
        post.wf(),
{
    assert forall|bk: StoreKey| #[trigger] post.bodies.present(bk) implies post.body_wf(bk) by {
        assert(pre.bodies.present(bk));
        assert(pre.body_wf(bk));
        let b = post.bodies.contents()[bk];
        match b.shape_key {
            Some(sk) => {
                assert(pre.shapes.present(sk));
                assert(sk != k);
                assert(post.shapes.contents()[sk] == pre.shapes.contents()[sk]);
            },
            None => {},
        }
    }
    assert forall|sk: StoreKey| #[trigger] post.shapes.present(sk) implies post.shape_wf(sk) by {
        if sk == k {
            assert(post.shapes.contents()[k] == ns);
            assert forall|bk: StoreKey| #[trigger] ns.bodies_spec().contains(bk) implies post.bodies.present(
                bk,
            ) && post.bodies.contents()[bk].shape_key == Some(sk) by {
                assert(false);
            }
        } else {
            assert(pre.shapes.present(sk));
            assert(pre.shape_wf(sk));
            assert(post.shapes.contents()[sk] == pre.shapes.contents()[sk]);
            let s = post.shapes.contents()[sk];
            assert forall|bk: StoreKey| #[trigger] s.bodies_spec().contains(bk) implies post.bodies.present(
                bk,
            ) && post.bodies.contents()[bk].shape_key == Some(sk) by {
                assert(pre.bodies.present(bk));
            }
        }
    }
    assert forall|ck: StoreKey| #[trigger] post.colliders.present(ck) implies post.collider_wf(ck) by {
        assert(pre.colliders.present(ck));
        assert(pre.collider_wf(ck));
        let c = post.colliders.contents()[ck];
        assert(pre.shapes.present(c.shape_key));
        assert(c.shape_key != k);
    }
    assert forall|jk: StoreKey| #[trigger] post.joints.present(jk) implies post.joint_wf(jk) by {
        assert(pre.joints.present(jk));
        assert(pre.joint_wf(jk));
    }
}

/// Removing a shape that no body is registered against keeps the whole
/// layer consistent: nothing referenced it.
proof fn lemma_wf_shape_empty_remove(pre: ServersStorage, post: ServersStorage, sk: StoreKey)
    requires
        pre.wf(),
        pre.shapes.present(sk),
        pre.shapes.contents()[sk].bodies_spec().len() == 0,
        post.shapes.wf(),
        post.shapes.contents() == pre.shapes.contents().remove(sk),
        forall|k2: StoreKey| k2 != sk ==> #[trigger] post.shapes.live(k2) == pre.shapes.live(k2),
        !post.shapes.live(sk),
        forall|k2: StoreKey| #[trigger] post.shapes.locked(k2) == pre.shapes.locked(k2),
        post.bodies == pre.bodies,
        post.colliders == pre.colliders,
        post.joints == pre.joints,
    ensures
        post.wf(),
{
    assert forall|bk: StoreKey| #[trigger] post.bodies.present(bk) implies post.body_wf(bk) by {
        assert(pre.bodies.present(bk));
        assert(pre.body_wf(bk));
        let b = post.bodies.contents()[bk];
        match b.shape_key {
            Some(sk2) => {
                if sk2 == sk {
                    assert(pre.shapes.contents()[sk].bodies_spec().contains(bk));
                }
                assert(sk2 != sk);
                assert(post.shapes.contents()[sk2] == pre.shapes.contents()[sk2]);
            },
            None => {},
        }
    }
    assert forall|sk2: StoreKey| #[trigger] post.shapes.present(sk2) implies post.shape_wf(sk2) by {
        assert(sk2 != sk);
        assert(pre.shapes.present(sk2));
        assert(pre.shape_wf(sk2));
        assert(post.shapes.contents()[sk2] == pre.shapes.contents()[sk2]);
        let s = post.shapes.contents()[sk2];
        assert forall|bk: StoreKey| #[trigger] s.bodies_spec().contains(bk) implies post.bodies.present(
            bk,
        ) && post.bodies.contents()[bk].shape_key == Some(sk2) by {
            assert(pre.bodies.present(bk));
        }
    }
    assert forall|ck: StoreKey| #[trigger] post.colliders.present(ck) implies post.collider_wf(ck) by {
        assert(pre.colliders.present(ck));
        assert(pre.collider_wf(ck));
        let c = post.colliders.contents()[ck];
        assert(pre.bodies.present(c.body_key));
        assert(pre.body_wf(c.body_key));
        assert(pre.bodies.contents()[c.body_key].collider_key == Some(ck));
        assert(pre.bodies.contents()[c.body_key].shape_key == Some(c.shape_key));
        if c.shape_key == sk {
            assert(pre.shapes.contents()[sk].bodies_spec().contains(c.body_key));
            assert(false);
        }
        assert(post.shapes.contents()[c.shape_key] == pre.shapes.contents()[c.shape_key]);
    }
    assert forall|jk: StoreKey| #[trigger] post.joints.present(jk) implies post.joint_wf(jk) by {
        assert(pre.joints.present(jk));
        assert(pre.joint_wf(jk));
    }
}

/// Swapping one body's collider for a fresh one with the identical value
/// keeps the whole layer consistent.
proof fn lemma_wf_collider_rebuild(
    cur: ServersStorage,
    post: ServersStorage,
    bk: StoreKey,
    ock: StoreKey,
    nck: StoreKey,
    nb: Body,
    nc: Collider,
)
    requires
        cur.wf(),
        cur.bodies.present(bk),
        cur.bodies.contents()[bk].collider_key == Some(ock),
        nb == (Body { collider_key: Some(nck), ..cur.bodies.contents()[bk] }),
        post.bodies.wf(),
        post.bodies.contents() == cur.bodies.contents().insert(bk, nb),
        forall|k2: StoreKey| #[trigger] post.bodies.live(k2) == cur.bodies.live(k2),
        forall|k2: StoreKey| #[trigger] post.bodies.locked(k2) == cur.bodies.locked(k2),
        post.shapes == cur.shapes,
        post.colliders.wf(),
        post.colliders.contents() == cur.colliders.contents().remove(ock).insert(nck, nc),
        !cur.colliders.live(nck),
        post.colliders.live(nck),
        !post.colliders.locked(nck),
        !post.colliders.live(ock),
        forall|k2: StoreKey|
            k2 != ock && k2 != nck ==> #[trigger] post.colliders.live(k2) == cur.colliders.live(
                k2,
            ),
        forall|k2: StoreKey| #[trigger] post.colliders.locked(k2) == cur.colliders.locked(k2),
        nc == cur.colliders.contents()[ock],
        post.joints == cur.joints,
    ensures
        post.wf(),
{
    let cur_b = cur.bodies.contents()[bk];
    assert(cur.body_wf(bk));
    assert(cur.colliders.present(ock));
    assert(cur.collider_wf(ock));
    assert(nck != ock);
    assert forall|bk2: StoreKey| #[trigger] post.bodies.present(bk2) implies post.body_wf(bk2) by {
        assert(cur.bodies.present(bk2));
        assert(cur.body_wf(bk2));
        if bk2 == bk {
            assert(post.bodies.contents()[bk] == nb);
            assert(post.colliders.present(nck));
            assert(post.colliders.contents()[nck] == nc);
            match nb.shape_key {
                Some(sk2) => {
                    assert(post.shapes.contents()[sk2] == cur.shapes.contents()[sk2]);
                },
                None => {},
            }
        } else {
            let b2 = post.bodies.contents()[bk2];
            assert(b2 == cur.bodies.contents()[bk2]);
            match b2.collider_key {
                Some(ck2) => {
                    assert(cur.colliders.present(ck2));
                    assert(cur.collider_wf(ck2));
                    assert(cur.colliders.contents()[ck2].body_key == bk2);
                    assert(cur.colliders.contents()[ock].body_key == bk);
                    assert(ck2 != ock);
                    assert(ck2 != nck);
                    assert(post.colliders.contents()[ck2] == cur.colliders.contents()[ck2]);
                },
                None => {},
            }
        }
    }
    assert forall|sk2: StoreKey| #[trigger] post.shapes.present(sk2) implies post.shape_wf(sk2) by {
        assert(cur.shapes.present(sk2));
        assert(cur.shape_wf(sk2));
        let s2 = post.shapes.contents()[sk2];
        assert(s2 == cur.shapes.contents()[sk2]);
        assert forall|bk2: StoreKey| #[trigger] s2.bodies_spec().contains(bk2) implies post.bodies.present(
            bk2,
        ) && post.bodies.contents()[bk2].shape_key == Some(sk2) by {
            assert(cur.bodies.present(bk2));
            assert(cur.bodies.contents()[bk2].shape_key == Some(sk2));
            if bk2 == bk {
                assert(post.bodies.contents()[bk].shape_key == cur_b.shape_key);
            } else {
                assert(post.bodies.contents()[bk2] == cur.bodies.contents()[bk2]);
            }
        }
    }
    assert forall|ck2: StoreKey| #[trigger] post.colliders.present(ck2) implies post.collider_wf(
        ck2,
    ) by {
        if ck2 == nck {
            assert(post.colliders.contents()[nck] == nc);
            assert(post.bodies.present(bk));
            assert(post.bodies.contents()[bk].collider_key == Some(nck));
            assert(cur.shapes.present(nc.shape_key));
        } else {
            assert(ck2 != ock);
            assert(cur.colliders.present(ck2));
            assert(cur.collider_wf(ck2));
            let c2 = post.colliders.contents()[ck2];
            assert(c2 == cur.colliders.contents()[ck2]);
            if c2.body_key == bk {
                assert(cur.bodies.contents()[bk].collider_key == Some(ck2));
                assert(false);
            }
            assert(post.bodies.contents()[c2.body_key] == cur.bodies.contents()[c2.body_key]);
        }
    }
    assert forall|jk: StoreKey| #[trigger] post.joints.present(jk) implies post.joint_wf(jk) by {
        assert(cur.joints.present(jk));
        assert(cur.joint_wf(jk));
    }
}

/// Copy a key vector, so iteration works on a snapshot while the tables are
/// mutated.
fn copy_keys(v: &Vec<StoreKey>) -> (r: Vec<StoreKey>)
    ensures
        r@ == v@,
{
    let mut out: Vec<StoreKey> = Vec::new();
    let n = v.len();
    let mut i: usize = 0;
    while i < n
        invariant
            i <= n,
            n == v@.len(),
            out@ == v@.subrange(0, i as int),
        decreases n - i,
    {
        let ghost pre = out@;
        out.push(v[i]);
        proof {
            assert(out@ =~= v@.subrange(0, i + 1));
        }
        i = i + 1;
    }
    proof {
        assert(out@ =~= v@);
    }
    out
}

} // verus!
