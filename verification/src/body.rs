//! Rigid and area bodies.
//!
//! A [`Body`] records everything this layer must know about one simulation
//! body: its own store key, whether it is a plain rigid body or an area
//! (overlap sensor), the mode and numeric payloads the engine body was built
//! from, the key of its installed collider and of the shape it is registered
//! against, and the host entity associated with it.  The invariant tying
//! these keys to the shape registry and the collider table lives in
//! `servers_storage`.

use vstd::prelude::*;

use crate::objects::{Entity, Isometry, OverlapEvent, Scalar, Vector3};
use crate::storage::StoreKey;

verus! {

/// The mode a body is simulated in.
#[derive(Clone, Copy, Debug, PartialEq, Eq, Hash, Structural)]
pub enum BodyMode {
    /// The body is ignored by the physics engine.
    Disabled,
    /// The body cannot move.
    Static,
    /// The body moves and is subject to forces.
    Dynamic,
    /// The body's velocity is controlled by the user and is not affected by
    /// forces or constraints.
    Kinematic,
}

impl Default for BodyMode {
    fn default() -> (r: Self)
        ensures
            r == BodyMode::Dynamic,
    {
        BodyMode::Dynamic
    }
}

/// Everything a rigid body is created from.
#[derive(Clone, Copy, Debug, PartialEq, Eq, Structural)]
pub struct RigidBodyDesc {
    pub mode: BodyMode,
    pub mass: Scalar,
    pub friction: Scalar,
    pub bounciness: Scalar,
}

impl Default for RigidBodyDesc {
    fn default() -> (r: Self)
        ensures
            r == (RigidBodyDesc { mode: BodyMode::Dynamic, mass: 0, friction: 0, bounciness: 0 }),
    {
        RigidBodyDesc { mode: BodyMode::Dynamic, mass: 0, friction: 0, bounciness: 0 }
    }
}

/// Extra payload depending on the body's kind.  An area is a static rigid
/// body whose colliders are overlap sensors; the pending overlap
/// notifications queue on it.
#[derive(Debug)]
pub enum BodyData {
    Rigid,
    Area(Vec<OverlapEvent>),
}

/// One rigid or area body.
pub struct Body {
    /// This body's own key, filled in right after insertion.
    pub self_key: Option<StoreKey>,
    /// Rigid or area payload.
    pub body_data: BodyData,
    /// The mode the engine body is simulated in.
    pub mode: BodyMode,
    /// Mass payload the engine body was built from.
    pub mass: Scalar,
    pub friction: Scalar,
    pub bounciness: Scalar,
    /// Current transform payload of the engine body.
    pub transform: Isometry,
    pub linear_velocity: Vector3,
    pub angular_velocity: Vector3,
    /// Whether the engine body is awake.
    pub active: bool,
    /// Key of the installed collider; `Some` exactly while a shape is set.
    pub collider_key: Option<StoreKey>,
    /// Key of the shape this body is registered against.
    pub shape_key: Option<StoreKey>,
    /// The host entity that owns this body, when one was associated.
    pub entity: Option<Entity>,
    /// Number of live handles naming this body.
    pub handle_count: u64,
}

impl Body {
    /// A freshly created rigid body: no key yet, no shape, no collider, no
    /// entity, at rest and awake.
    pub fn new_rigid_body(desc: &RigidBodyDesc) -> (b: Body)
        ensures
            b.self_key is None,
            b.body_data is Rigid,
            b.mode == desc.mode,
            b.mass == desc.mass,
            b.friction == desc.friction,
            b.bounciness == desc.bounciness,
            b.transform == Isometry::identity_spec(),
            b.linear_velocity == (Vector3 { x: 0, y: 0, z: 0 }),
            b.angular_velocity == (Vector3 { x: 0, y: 0, z: 0 }),
            b.active,
            b.collider_key is None,
            b.shape_key is None,
            b.entity is None,
            b.handle_count == 1,
    {
        Body {
            self_key: None,
            body_data: BodyData::Rigid,
            mode: desc.mode,
            mass: desc.mass,
            friction: desc.friction,
            bounciness: desc.bounciness,
            transform: Isometry::identity(),
            linear_velocity: Vector3::zeros(),
            angular_velocity: Vector3::zeros(),
            active: true,
            collider_key: None,
            shape_key: None,
            entity: None,
            handle_count: 1,
        }
    }

    /// A freshly created area body: a static rigid substrate with an empty
    /// overlap-event queue.
    pub fn new_area() -> (b: Body)
        ensures
            b.self_key is None,
            b.body_data matches BodyData::Area(events) && events@ == Seq::<OverlapEvent>::empty(),
            b.mode == BodyMode::Static,
            b.mass == 0,
            b.friction == 0,
            b.bounciness == 0,
            b.transform == Isometry::identity_spec(),
            b.linear_velocity == (Vector3 { x: 0, y: 0, z: 0 }),
            b.angular_velocity == (Vector3 { x: 0, y: 0, z: 0 }),
            b.collider_key is None,
            b.shape_key is None,
            b.entity is None,
            b.active,
            b.handle_count == 1,
    {
        let events: Vec<OverlapEvent> = Vec::new();
        proof {
            assert(events@ =~= Seq::<OverlapEvent>::empty());
        }
        Body {
            self_key: None,
            body_data: BodyData::Area(events),
            mode: BodyMode::Static,
            mass: 0,
            friction: 0,
            bounciness: 0,
            transform: Isometry::identity(),
            linear_velocity: Vector3::zeros(),
            angular_velocity: Vector3::zeros(),
            active: true,
            collider_key: None,
            shape_key: None,
            entity: None,
            handle_count: 1,
        }
    }

    /// Wake the engine body up.
    pub fn activate(&mut self)
        ensures
            *final(self) == (Body { active: true, ..*old(self) }),
    {
        self.active = true;
    }

    /// Set the body's transform payload.
    pub fn set_body_transform(&mut self, transf: &Isometry)
        ensures
            *final(self) == (Body { transform: *transf, ..*old(self) }),
    {
        self.transform = *transf;
    }

    /// The body's current transform payload.
    pub fn body_transform(&self) -> (t: Isometry)
        ensures
            t == self.transform,
    {
        self.transform
    }
}

} // verus!
