//! Public identities and payload carriers.
//!
//! Every physics object is named by a typed tag wrapping a [`StoreKey`].
//! Owners share an object through a [`PhysicsHandle`]; the handle protocol
//! (see `servers_storage`) counts the live handles of each object, and the
//! last drop queues the object's tag on the [`PhysicsGarbageCollector`]
//! instead of deleting anything on the spot.  One collection point per
//! simulation step drains the queue, so the stores are never mutated from an
//! arbitrary drop site.
//!
//! Numeric payloads bound for the simulation engine (masses, transforms,
//! velocities) are carried as opaque 64-bit words chosen by the host, for
//! example a float's bit pattern; this layer stores and returns them without
//! interpreting them.

use vstd::prelude::*;

use crate::storage::StoreKey;

verus! {

/// One opaque 64-bit numeric payload word.
pub type Scalar = u64;

/// A three-component payload vector (a force, a velocity, a position).
#[derive(Clone, Copy, Debug, PartialEq, Eq, Structural)]
pub struct Vector3 {
    pub x: Scalar,
    pub y: Scalar,
    pub z: Scalar,
}

impl Vector3 {
    /// The host's encoding of the zero vector is whatever it encodes zero
    /// as; the layer itself uses the all-zero word.
    pub fn zeros() -> (v: Vector3)
        ensures
            v == (Vector3 { x: 0, y: 0, z: 0 }),
    {
        Vector3 { x: 0, y: 0, z: 0 }
    }
}

/// A rotation payload, carried as four opaque words.
#[derive(Clone, Copy, Debug, PartialEq, Eq, Structural)]
pub struct Quaternion {
    pub i: Scalar,
    pub j: Scalar,
    pub k: Scalar,
    pub w: Scalar,
}

/// A rigid transform payload: translation plus rotation, both opaque.
#[derive(Clone, Copy, Debug, PartialEq, Eq, Structural)]
pub struct Isometry {
    pub translation: Vector3,
    pub rotation: Quaternion,
}

impl Isometry {
    /// The all-zero transform word, handed back where the named body is
    /// gone and a neutral value is owed.
    pub fn identity() -> (t: Isometry)
        ensures
            t == Isometry::identity_spec(),
    {
        Isometry {
            translation: Vector3 { x: 0, y: 0, z: 0 },
            rotation: Quaternion { i: 0, j: 0, k: 0, w: 0 },
        }
    }

    pub open spec fn identity_spec() -> Isometry {
        Isometry {
            translation: Vector3 { x: 0, y: 0, z: 0 },
            rotation: Quaternion { i: 0, j: 0, k: 0, w: 0 },
        }
    }
}

/// Opaque reference to the host application's entity that owns an object.
#[derive(Clone, Copy, Debug, PartialEq, Eq, Hash, Structural)]
pub struct Entity {
    pub id: u64,
}

/// Tag of a rigid body.
#[derive(Clone, Copy, Debug, PartialEq, Eq, Hash, Structural)]
pub struct PhysicsRigidBodyTag {
    pub key: StoreKey,
}

/// Tag of an area (overlap sensor) body.
#[derive(Clone, Copy, Debug, PartialEq, Eq, Hash, Structural)]
pub struct PhysicsAreaTag {
    pub key: StoreKey,
}

/// Tag of a collision shape.
#[derive(Clone, Copy, Debug, PartialEq, Eq, Hash, Structural)]
pub struct PhysicsShapeTag {
    pub key: StoreKey,
}

/// Tag of a joint.
#[derive(Clone, Copy, Debug, PartialEq, Eq, Hash, Structural)]
pub struct PhysicsJointTag {
    pub key: StoreKey,
}

/// Kind-carrying tag, used by the garbage collector's queue and by collider
/// user data to route back to the owning object.
#[derive(Clone, Copy, Debug, PartialEq, Eq, Hash, Structural)]
pub enum ObjectTag {
    RigidBody(StoreKey),
    Area(StoreKey),
    Shape(StoreKey),
    Joint(StoreKey),
}

impl ObjectTag {
    /// The store key inside the tag, whatever the kind.
    pub open spec fn key_spec(self) -> StoreKey {
        match self {
            ObjectTag::RigidBody(k) => k,
            ObjectTag::Area(k) => k,
            ObjectTag::Shape(k) => k,
            ObjectTag::Joint(k) => k,
        }
    }

    /// The store key inside the tag, whatever the kind.
    pub fn key(&self) -> (k: StoreKey)
        ensures
            k == self.key_spec(),
    {
        match self {
            ObjectTag::RigidBody(k) => *k,
            ObjectTag::Area(k) => *k,
            ObjectTag::Shape(k) => *k,
            ObjectTag::Joint(k) => *k,
        }
    }
}

/// The resolvable tuple every collider installed by this layer carries, so a
/// collision or overlap notification can be mapped back to the owning object
/// and, when one was associated, the host entity.
#[derive(Clone, Copy, Debug, PartialEq, Eq, Structural)]
pub struct UserData {
    pub object: ObjectTag,
    pub entity: Option<Entity>,
}

/// An overlap notification pending on an area body.
#[derive(Clone, Copy, Debug, PartialEq, Eq, Structural)]
pub enum OverlapEvent {
    Enter { body: StoreKey, entity: Option<Entity> },
    Exit { body: StoreKey, entity: Option<Entity> },
}

/// Counted public identifier of a physics object.
///
/// Handles are cloned and dropped only through the explicit protocol in
/// `servers_storage`, which keeps the object's handle count in its store
/// entry: cloning increments the count, dropping decrements it, and the drop
/// that reaches zero queues the tag on the garbage collector.  No single
/// clone owns the object; the set of live clones does.
#[derive(Clone, Copy, Debug, PartialEq, Eq, Structural)]
pub struct PhysicsHandle {
    pub tag: ObjectTag,
}

impl PhysicsHandle {
    /// The rigid body tag under this handle, when it names a rigid body.
    pub fn rigid_body_tag(&self) -> (r: Option<PhysicsRigidBodyTag>)
        ensures
            r == match self.tag {
                ObjectTag::RigidBody(k) => Some(PhysicsRigidBodyTag { key: k }),
                _ => None::<PhysicsRigidBodyTag>,
            },
    {
        match self.tag {
            ObjectTag::RigidBody(k) => Some(PhysicsRigidBodyTag { key: k }),
            _ => None,
        }
    }

    /// The area tag under this handle, when it names an area body.
    pub fn area_tag(&self) -> (r: Option<PhysicsAreaTag>)
        ensures
            r == match self.tag {
                ObjectTag::Area(k) => Some(PhysicsAreaTag { key: k }),
                _ => None::<PhysicsAreaTag>,
            },
    {
        match self.tag {
            ObjectTag::Area(k) => Some(PhysicsAreaTag { key: k }),
            _ => None,
        }
    }

    /// The shape tag under this handle, when it names a shape.
    pub fn shape_tag(&self) -> (r: Option<PhysicsShapeTag>)
        ensures
            r == match self.tag {
                ObjectTag::Shape(k) => Some(PhysicsShapeTag { key: k }),
                _ => None::<PhysicsShapeTag>,
            },
    {
        match self.tag {
            ObjectTag::Shape(k) => Some(PhysicsShapeTag { key: k }),
            _ => None,
        }
    }

    /// The joint tag under this handle, when it names a joint.
    pub fn joint_tag(&self) -> (r: Option<PhysicsJointTag>)
        ensures
            r == match self.tag {
                ObjectTag::Joint(k) => Some(PhysicsJointTag { key: k }),
                _ => None::<PhysicsJointTag>,
            },
    {
        match self.tag {
            ObjectTag::Joint(k) => Some(PhysicsJointTag { key: k }),
            _ => None,
        }
    }
}

/// Deferred-deletion queue.  Objects whose last handle was dropped wait here
/// until the per-step collection point dispatches them to their manager's
/// destroy routine; nothing is deleted at drop time.
pub struct PhysicsGarbageCollector {
    queue: Vec<ObjectTag>,
}

impl PhysicsGarbageCollector {
    /// The tags waiting for the next collection point, oldest first.
    pub closed spec fn pending(self) -> Seq<ObjectTag> {
        self.queue@
    }

    pub fn new() -> (gc: PhysicsGarbageCollector)
        ensures
            gc.pending() == Seq::<ObjectTag>::empty(),
    {
        let gc = PhysicsGarbageCollector { queue: Vec::new() };
        proof {
            assert(gc.pending() =~= Seq::<ObjectTag>::empty());
        }
        gc
    }

    /// Queue a tag for the next collection point.
    pub fn enqueue(&mut self, tag: ObjectTag)
        ensures
            final(self).pending() == old(self).pending().push(tag),
    {
        self.queue.push(tag);
    }

    /// How many tags wait for the next collection point.
    pub fn pending_count(&self) -> (n: usize)
        ensures
            n == self.pending().len(),
    {
        self.queue.len()
    }

    /// Take every pending tag, leaving the queue empty.
    pub fn drain(&mut self) -> (r: Vec<ObjectTag>)
        ensures
            r@ == old(self).pending(),
            final(self).pending() == Seq::<ObjectTag>::empty(),
    {
        let mut drained: Vec<ObjectTag> = Vec::new();
        core::mem::swap(&mut drained, &mut self.queue);
        proof {
            assert(self.pending() =~= Seq::<ObjectTag>::empty());
        }
        drained
    }
}

} // verus!
