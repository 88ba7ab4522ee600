//! Area server: lifecycle of area (overlap sensor) bodies.
//!
//! An area is a static rigid body whose colliders are overlap-only sensors;
//! it shares the body store and the body server's shape machinery, and its
//! destruction cascades exactly like a rigid body's.

use vstd::prelude::*;

use crate::body::{Body, BodyData};
use crate::objects::OverlapEvent;
use crate::servers_storage::{bodies_value_set, lemma_wf_body_value_update};
use crate::PhysicsError;
use crate::objects::{ObjectTag, PhysicsAreaTag, PhysicsHandle, PhysicsRigidBodyTag};
use crate::rigid_body_physics_server::RBodyNpServer;
use crate::servers_storage::ServersStorage;
use crate::storage::StoreKey;

verus! {

/// The area server.  It holds no state of its own: every operation works on
/// the [`ServersStorage`] passed to it.
pub struct AreaNpServer {
}

impl AreaNpServer {
    pub fn new() -> (s: AreaNpServer)
    {
        AreaNpServer {  }
    }

    /// Insert a fresh area body, backfill its own key, and hand back the
    /// first counted handle to it.  Colliders later installed on it are
    /// overlap sensors.
    pub fn create_area(&self, storages: &mut ServersStorage) -> (h: PhysicsHandle)
        requires
            old(storages).wf(),
            old(storages).bodies.fresh_generation() < u64::MAX,
        ensures
            final(storages).wf(),
            final(storages).gc == old(storages).gc,
            h.tag is Area,
            ({
                let k = h.tag.key_spec();
                &&& !old(storages).bodies.live(k)
                &&& !old(storages).bodies.stale(k)
                &&& final(storages).bodies.present(k)
                &&& final(storages).bodies.contents()[k].self_key == Some(k)
                &&& final(storages).bodies.contents()[k].body_data is Area
                &&& final(storages).bodies.contents()[k].shape_key is None
                &&& final(storages).bodies.contents()[k].collider_key is None
                &&& final(storages).bodies.contents()[k].entity is None
                &&& final(storages).bodies.contents()[k].handle_count == 1
                &&& final(storages).bodies.contents() == old(storages).bodies.contents().insert(
                    k,
                    final(storages).bodies.contents()[k],
                )
                &&& forall|k2: StoreKey|
                    k2 != k ==> #[trigger] final(storages).bodies.live(k2) == old(
                        storages,
                    ).bodies.live(k2)
                &&& forall|k2: StoreKey|
                    old(storages).bodies.stale(k2) ==> #[trigger] final(storages).bodies.stale(k2)
                &&& final(storages).handle_count(h.tag) == 1
            }),
            final(storages).shapes == old(storages).shapes,
            final(storages).colliders == old(storages).colliders,
            final(storages).joints == old(storages).joints,
    {
        let ghost pre = *storages;
        let body = Body::new_area();
        let k = storages.bodies.insert(body);
        let guard_opt = storages.bodies.get_mut(k);
        match guard_opt {
            Some(mut g) => {
                g.value.self_key = Some(k);
                let ghost nb = g.value;
                storages.bodies.release(g);
                proof {
                    assert(storages.bodies.contents() =~= pre.bodies.contents().insert(k, nb));
                    crate::rigid_body_physics_server::lemma_wf_body_fresh_insert(
                        pre,
                        *storages,
                        k,
                        nb,
                    );
                }
            },
            None => {
                proof {
                    assert(false);
                }
            },
        }
        PhysicsHandle { tag: ObjectTag::Area(k) }
    }

    /// Queue an overlap notification on an area body, as the engine raises
    /// them between steps.  Only areas hold pending overlap events; a rigid
    /// body reports `IncompatibleVariant`.
    pub fn push_overlap_event(
        &self,
        storages: &mut ServersStorage,
        area_tag: PhysicsAreaTag,
        event: OverlapEvent,
    ) -> (r: Result<(), PhysicsError>)
        requires
            old(storages).wf(),
        ensures
            final(storages).wf(),
            final(storages).gc == old(storages).gc,
            !old(storages).bodies.present(area_tag.key) ==> r == Err::<(), PhysicsError>(
                PhysicsError::NotFound,
            ) && *final(storages) == *old(storages),
            old(storages).bodies.present(area_tag.key) && !(old(storages).bodies.contents()[
                area_tag.key
            ].body_data is Area) ==> r == Err::<(), PhysicsError>(PhysicsError::IncompatibleVariant)
                && bodies_value_set(
                *old(storages),
                *final(storages),
                area_tag.key,
                old(storages).bodies.contents()[area_tag.key],
            ),
            old(storages).bodies.present(area_tag.key) && old(storages).bodies.contents()[
                area_tag.key
            ].body_data is Area ==> r == Ok::<(), PhysicsError>(()) && ({
                let pre_b = old(storages).bodies.contents()[area_tag.key];
                let post_b = final(storages).bodies.contents()[area_tag.key];
                &&& bodies_value_set(*old(storages), *final(storages), area_tag.key, post_b)
                &&& post_b == (Body { body_data: post_b.body_data, ..pre_b })
                &&& post_b.body_data matches BodyData::Area(events) && (
                pre_b.body_data matches BodyData::Area(pre_events) && events@ == pre_events@.push(
                    event,
                ))
            }),
    {
        let ghost pre = *storages;
        let guard_opt = storages.bodies.get_mut(area_tag.key);
        match guard_opt {
            Some(mut g) => {
                let is_area = match &g.value.body_data {
                    BodyData::Rigid => false,
                    BodyData::Area(_) => true,
                };
                if !is_area {
                    let ghost nb = g.value;
                    storages.bodies.release(g);
                    proof {
                        assert(storages.bodies.contents() =~= pre.bodies.contents().insert(
                            area_tag.key,
                            nb,
                        ));
                        lemma_wf_body_value_update(pre, *storages, area_tag.key, nb);
                    }
                    return Err(PhysicsError::IncompatibleVariant);
                }
                match &mut g.value.body_data {
                    BodyData::Area(events) => {
                        events.push(event);
                    },
                    BodyData::Rigid => {
                        proof {
                            assert(false);
                        }
                    },
                }
                let ghost nb = g.value;
                storages.bodies.release(g);
                proof {
                    assert(storages.bodies.contents() =~= pre.bodies.contents().insert(
                        area_tag.key,
                        nb,
                    ));
                    lemma_wf_body_value_update(pre, *storages, area_tag.key, nb);
                }
                Ok(())
            },
            None => Err(PhysicsError::NotFound),
        }
    }

    /// Take the pending overlap notifications of an area body, leaving its
    /// queue empty; the host consumes them once per step.
    pub fn take_overlap_events(
        &self,
        storages: &mut ServersStorage,
        area_tag: PhysicsAreaTag,
    ) -> (r: Result<Vec<OverlapEvent>, PhysicsError>)
        requires
            old(storages).wf(),
        ensures
            final(storages).wf(),
            final(storages).gc == old(storages).gc,
            !old(storages).bodies.present(area_tag.key) ==> r == Err::<Vec<OverlapEvent>, PhysicsError>(
                PhysicsError::NotFound,
            ) && *final(storages) == *old(storages),
            old(storages).bodies.present(area_tag.key) && !(old(storages).bodies.contents()[
                area_tag.key
            ].body_data is Area) ==> (r matches Err(e) && e == PhysicsError::IncompatibleVariant)
                && bodies_value_set(
                *old(storages),
                *final(storages),
                area_tag.key,
                old(storages).bodies.contents()[area_tag.key],
            ),
            old(storages).bodies.present(area_tag.key) && old(storages).bodies.contents()[
                area_tag.key
            ].body_data is Area ==> ({
                let pre_b = old(storages).bodies.contents()[area_tag.key];
                let post_b = final(storages).bodies.contents()[area_tag.key];
                &&& (r matches Ok(events) && (pre_b.body_data matches BodyData::Area(pre_events)
                    && events@ == pre_events@))
                &&& bodies_value_set(*old(storages), *final(storages), area_tag.key, post_b)
                &&& post_b == (Body { body_data: post_b.body_data, ..pre_b })
                &&& post_b.body_data matches BodyData::Area(left) && left@ == Seq::<
                    OverlapEvent,
                >::empty()
            }),
    {
        let ghost pre = *storages;
        let guard_opt = storages.bodies.get_mut(area_tag.key);
        match guard_opt {
            Some(mut g) => {
                let is_area = match &g.value.body_data {
                    BodyData::Rigid => false,
                    BodyData::Area(_) => true,
                };
                if !is_area {
                    let ghost nb = g.value;
                    storages.bodies.release(g);
                    proof {
                        assert(storages.bodies.contents() =~= pre.bodies.contents().insert(
                            area_tag.key,
                            nb,
                        ));
                        lemma_wf_body_value_update(pre, *storages, area_tag.key, nb);
                    }
                    return Err(PhysicsError::IncompatibleVariant);
                }
                let mut taken: Vec<OverlapEvent> = Vec::new();
                match &mut g.value.body_data {
                    BodyData::Area(events) => {
                        core::mem::swap(&mut taken, events);
                    },
                    BodyData::Rigid => {
                        proof {
                            assert(false);
                        }
                    },
                }
                let ghost nb = g.value;
                storages.bodies.release(g);
                proof {
                    assert(storages.bodies.contents() =~= pre.bodies.contents().insert(
                        area_tag.key,
                        nb,
                    ));
                    lemma_wf_body_value_update(pre, *storages, area_tag.key, nb);
                }
                Ok(taken)
            },
            None => Err(PhysicsError::NotFound),
        }
    }

    /// Destroy an area body, with the same cascade as a rigid body: its
    /// joints unbind, it detaches from its shape, its sensor collider is
    /// removed, and its store entry goes away.
    pub fn drop_area(&self, area_tag: PhysicsAreaTag, storages: &mut ServersStorage)
        requires
            old(storages).wf(),
        ensures
            final(storages).wf(),
            final(storages).gc == old(storages).gc,
            !old(storages).bodies.present(area_tag.key) ==> *final(storages) == *old(storages),
            !final(storages).bodies.live(area_tag.key),
    {
        RBodyNpServer::drop_body(PhysicsRigidBodyTag { key: area_tag.key }, storages);
        proof {
            if old(storages).bodies.present(area_tag.key) {
            } else {
                assert(!old(storages).bodies.live(area_tag.key) || old(storages).bodies.locked(
                    area_tag.key,
                ));
            }
        }
    }
}

} // verus!
