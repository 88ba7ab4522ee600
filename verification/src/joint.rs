//! Joints: constraints between up to two bodies.
//!
//! A joint is created unbound.  Binding bodies one at a time moves it from
//! `Unbound` to `HalfBound` to `Bound`; only in the `Bound` state does the
//! underlying engine constraint exist.  The anchor of each body is frozen at
//! the moment that body is bound: it is derived from the body's transform at
//! bind time and the joint's initial isometry, not from anything later.

use vstd::prelude::*;

use crate::objects::Isometry;
use crate::storage::StoreKey;

verus! {

/// Constraint-kind descriptor.
#[derive(Clone, Copy, Debug, PartialEq, Eq, Structural)]
pub enum JointDesc {
    Fixed,
}

/// The inputs an engine anchor is computed from, frozen at bind time: the
/// engine derives the relative offset as the inverse of the body's transform
/// at that moment composed with the joint's initial isometry.
#[derive(Clone, Copy, Debug, PartialEq, Eq, Structural)]
pub struct BindAnchor {
    /// The bound body's transform payload at the moment of binding.
    pub body_transform: Isometry,
    /// The joint's initial isometry.
    pub joint_isometry: Isometry,
}

/// A bound body slot: the body's store key and the body part the constraint
/// attaches to.
#[derive(Clone, Copy, Debug, PartialEq, Eq, Hash, Structural)]
pub struct BodyPart {
    pub body: StoreKey,
    pub part: usize,
}

/// Bookkeeping for a materialized engine constraint.
#[derive(Clone, Copy, Debug, PartialEq, Eq, Structural)]
pub struct JointConstraint {
    /// First bound body and its part index.
    pub body_0: BodyPart,
    /// Second bound body and its part index.
    pub body_1: BodyPart,
    pub anchor_0: BindAnchor,
    pub anchor_1: BindAnchor,
}

/// The binding state of a joint.
#[derive(Clone, Copy, Debug, PartialEq, Eq, Structural)]
pub enum JointState {
    /// No bodies attached, no constraint.
    Unbound,
    /// Exactly one body slot filled, no constraint.
    HalfBound,
    /// Both slots filled, engine constraint materialized.
    Bound,
}

/// One joint.
pub struct Joint {
    /// This joint's own key, filled in right after insertion.
    pub self_key: Option<StoreKey>,
    pub joint_desc: JointDesc,
    /// The isometry given at creation, from which each body's anchor is
    /// derived at its bind time.
    pub initial_isometry: Isometry,
    /// First body slot, filled before the second.
    pub body_0: Option<BodyPart>,
    /// Second body slot.
    pub body_1: Option<BodyPart>,
    /// The underlying engine constraint; exists exactly while both slots are
    /// filled.
    pub constraint: Option<JointConstraint>,
    /// Number of live handles naming this joint.
    pub handle_count: u64,
}

impl Joint {
    /// A fresh joint in the `Unbound` state.
    pub fn new(joint_desc: JointDesc, initial_isometry: Isometry) -> (j: Joint)
        ensures
            j.self_key is None,
            j.joint_desc == joint_desc,
            j.initial_isometry == initial_isometry,
            j.body_0 is None,
            j.body_1 is None,
            j.constraint is None,
            j.handle_count == 1,
    {
        Joint {
            self_key: None,
            joint_desc,
            initial_isometry,
            body_0: None,
            body_1: None,
            constraint: None,
            handle_count: 1,
        }
    }

    /// The joint's binding state, read off its slots.
    pub open spec fn state_spec(self) -> JointState {
        if self.body_0 is Some && self.body_1 is Some {
            JointState::Bound
        } else if self.body_0 is Some || self.body_1 is Some {
            JointState::HalfBound
        } else {
            JointState::Unbound
        }
    }

    /// The joint's binding state.
    pub fn state(&self) -> (s: JointState)
        ensures
            s == self.state_spec(),
    {
        if self.body_0.is_some() && self.body_1.is_some() {
            JointState::Bound
        } else if self.body_0.is_some() || self.body_1.is_some() {
            JointState::HalfBound
        } else {
            JointState::Unbound
        }
    }

    /// Whether `key` is bound in either slot.
    pub open spec fn binds_spec(self, key: StoreKey) -> bool {
        (self.body_0 matches Some(b) && b.body == key) || (self.body_1 matches Some(b) && b.body == key)
    }
}

} // verus!
