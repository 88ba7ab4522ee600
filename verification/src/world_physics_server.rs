//! World server: the per-step collection point.
//!
//! Handles queue their object's tag on the garbage collector when the last
//! clone is dropped; nothing is destroyed at drop time.  Once per
//! simulation step — before or after the solver runs, never during — the
//! host invokes the collection point, which drains the queue and dispatches
//! each tag to its manager's destroy routine.  Each routine performs its
//! own cascade, so the order of tags within one pass does not matter.  A
//! shape that is still in use is only marked and re-queued; it is retried
//! at the next collection point, and succeeds once its last dependent has
//! detached.

use vstd::prelude::*;

use crate::joint_physics_server::JointNpServer;
use crate::objects::{ObjectTag, PhysicsJointTag, PhysicsRigidBodyTag, PhysicsShapeTag};
use crate::rigid_body_physics_server::RBodyNpServer;
use crate::servers_storage::ServersStorage;
use crate::shape_physics_server::ShapeNpServer;

verus! {

/// The world server: owner of the collection point.  The solver stepping
/// itself is the engine's business and happens outside this layer.
pub struct WorldNpServer {
}

impl WorldNpServer {
    pub fn new() -> (s: WorldNpServer)
    {
        WorldNpServer {  }
    }

    /// The collection point: drain the deferred-deletion queue and dispatch
    /// every tag to its destroy routine.  Bodies, areas and joints cascade
    /// and go away; a shape still in use is marked and re-queued, so only
    /// shape tags can remain pending afterwards.
    pub fn collect_garbage(&self, storages: &mut ServersStorage)
        requires
            old(storages).wf(),
        ensures
            final(storages).wf(),
            forall|i: int|
                0 <= i < final(storages).gc.pending().len() ==> (#[trigger] final(storages).gc.pending()[i]) is Shape,
            forall|i: int|
                0 <= i < old(storages).gc.pending().len() ==> match #[trigger] old(
                    storages,
                ).gc.pending()[i] {
                    ObjectTag::RigidBody(k) => !final(storages).bodies.live(k),
                    ObjectTag::Area(k) => !final(storages).bodies.live(k),
                    ObjectTag::Joint(k) => !final(storages).joints.live(k),
                    ObjectTag::Shape(k) => true,
                },
    {
        let tags = storages.gc.drain();
        let n = tags.len();
        let mut i: usize = 0;
        while i < n
            invariant
                storages.wf(),
                i <= n,
                n == tags@.len(),
                forall|j: int|
                    0 <= j < storages.gc.pending().len() ==> (#[trigger] storages.gc.pending()[
                        j
                    ]) is Shape,
                forall|j: int|
                    0 <= j < i ==> match #[trigger] tags@[j] {
                        ObjectTag::RigidBody(k) => !storages.bodies.live(k),
                        ObjectTag::Area(k) => !storages.bodies.live(k),
                        ObjectTag::Joint(k) => !storages.joints.live(k),
                        ObjectTag::Shape(k) => true,
                    },
            decreases n - i,
        {
            let ghost cur = *storages;
            let tag = tags[i];
            match tag {
                ObjectTag::RigidBody(k) => {
                    RBodyNpServer::drop_body(PhysicsRigidBodyTag { key: k }, storages);
                },
                ObjectTag::Area(k) => {
                    RBodyNpServer::drop_body(PhysicsRigidBodyTag { key: k }, storages);
                },
                ObjectTag::Shape(k) => {
                    let dropped = ShapeNpServer::drop_shape(
                        PhysicsShapeTag { key: k },
                        storages,
                    );
                    if dropped.is_err() {
                        let ghost preq = storages.gc.pending();
                        storages.gc.enqueue(ObjectTag::Shape(k));
                        proof {
                            assert forall|j: int|
                                0 <= j < storages.gc.pending().len() implies (
                            #[trigger] storages.gc.pending()[j]) is Shape by {
                                if j < preq.len() {
                                    assert(storages.gc.pending()[j] == preq[j]);
                                }
                            }
                        }
                    }
                },
                ObjectTag::Joint(k) => {
                    JointNpServer::drop_joint(PhysicsJointTag { key: k }, storages);
                },
            }
            proof {
                assert forall|j: int| 0 <= j < i + 1 implies match #[trigger] tags@[j] {
                    ObjectTag::RigidBody(k) => !storages.bodies.live(k),
                    ObjectTag::Area(k) => !storages.bodies.live(k),
                    ObjectTag::Joint(k) => !storages.joints.live(k),
                    ObjectTag::Shape(k) => true,
                } by {
                    if j < i {
                        match tags@[j] {
                            ObjectTag::RigidBody(k) => {
                                assert(!cur.bodies.live(k));
                            },
                            ObjectTag::Area(k) => {
                                assert(!cur.bodies.live(k));
                            },
                            ObjectTag::Joint(k) => {
                                assert(!cur.joints.live(k));
                            },
                            ObjectTag::Shape(k) => {},
                        }
                    }
                }
            }
            i = i + 1;
        }
    }
}

} // verus!
