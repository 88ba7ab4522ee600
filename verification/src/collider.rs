//! Colliders: the per-body physical surface instances.
//!
//! A collider is owned 1:1 by exactly one body and is rebuilt whenever the
//! body's shape is set, cleared or updated.  It records the density policy
//! and material it was built with and carries the resolvable [`UserData`]
//! tuple demanded of every collider this layer installs.

use vstd::prelude::*;

use crate::objects::{Scalar, UserData};
use crate::storage::StoreKey;

verus! {

/// Density policy a collider is built with: concave geometry contributes no
/// mass and takes density zero (collision-only), everything else density one.
#[derive(Clone, Copy, Debug, PartialEq, Eq, Structural)]
pub enum Density {
    Zero,
    One,
}

/// Surface material payload, carried over from the owning body.
#[derive(Clone, Copy, Debug, PartialEq, Eq, Structural)]
pub struct Material {
    pub friction: Scalar,
    pub bounciness: Scalar,
}

/// One installed collider.
#[derive(Clone, Copy, Debug, PartialEq, Eq, Structural)]
pub struct Collider {
    /// The body this collider is installed on.
    pub body_key: StoreKey,
    /// The shape whose geometry this collider was built from.
    pub shape_key: StoreKey,
    /// Density policy chosen from the shape's concavity at build time.
    pub density: Density,
    /// Material carried from the owning body at build time.
    pub material: Material,
    /// Overlap-only collider (set for area bodies).
    pub sensor: bool,
    /// Resolvable routing tuple for engine notifications.
    pub user_data: UserData,
}

} // verus!
