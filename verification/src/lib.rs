//! Object-lifecycle and concurrency-safety layer for a physics simulation.
//!
//! The crate gives every physics object (rigid or area body, collision shape,
//! collider, joint) a stable generational identity, lets several owners share
//! an object through counted handles, and guarantees that destroying an object
//! unwinds everything that depended on it: a body detaches from its shape and
//! drops its collider, a joint retracts its constraint and wakes its bodies.
//!
//! The simulation engine itself (collision detection, constraint solving,
//! integration) is an external collaborator.  Every numeric payload the engine
//! consumes (masses, transforms, velocities) is carried through this layer as
//! opaque 64-bit words chosen by the host; the layer never interprets them.

use vstd::prelude::*;

pub mod area_physics_server;
pub mod body;
pub mod collider;
pub mod joint;
pub mod joint_physics_server;
pub mod objects;
pub mod rigid_body_physics_server;
pub mod servers_storage;
pub mod shape_physics_server;
pub mod shape;
pub mod storage;
pub mod world_physics_server;

verus! {

/// The failure conditions this layer reports.  A stale or unknown key must
/// never abort the host process, so lookup failures surface as `NotFound`
/// rather than panics.
#[derive(Clone, Copy, Debug, PartialEq, Eq, Structural)]
pub enum PhysicsError {
    /// The key is stale or was never issued.
    NotFound,
    /// A delete was requested on a resource with live dependents; the drop is
    /// deferred, not failed.
    InUse,
    /// The joint already has two bodies bound.
    AlreadyBound,
    /// The operation requires a capability the object's variant lacks.
    IncompatibleVariant,
}

/// Backend entry point: build the storages and the servers that operate on
/// them.  The servers hold no state; every operation takes the storage
/// value explicitly, so ownership and borrowing stay visible to the caller.
pub struct NPhysicsBackend;

impl NPhysicsBackend {
    pub fn create_servers() -> (r: (
        servers_storage::ServersStorage,
        world_physics_server::WorldNpServer,
        rigid_body_physics_server::RBodyNpServer,
        area_physics_server::AreaNpServer,
        shape_physics_server::ShapeNpServer,
        joint_physics_server::JointNpServer,
    ))
        ensures
            r.0.wf(),
            r.0.gc.pending() == Seq::<objects::ObjectTag>::empty(),
            forall|k: storage::StoreKey| !(#[trigger] r.0.bodies.live(k)),
            forall|k: storage::StoreKey| !(#[trigger] r.0.shapes.live(k)),
            forall|k: storage::StoreKey| !(#[trigger] r.0.joints.live(k)),
            r.0.bodies.fresh_generation() == 0,
            r.0.shapes.fresh_generation() == 0,
            r.0.joints.fresh_generation() == 0,
            r.0.colliders.fresh_generation() == 0,
    {
        (
            servers_storage::ServersStorage::new(),
            world_physics_server::WorldNpServer::new(),
            rigid_body_physics_server::RBodyNpServer::new(),
            area_physics_server::AreaNpServer::new(),
            shape_physics_server::ShapeNpServer::new(),
            joint_physics_server::JointNpServer::new(),
        )
    }
}

} // verus!
