//! Collision shapes and their registry entries.
//!
//! A [`RigidShape`] owns a geometry descriptor together with the set of
//! bodies currently registered against it.  A shape cannot be physically
//! removed while that set is non-empty; a drop requested in that state only
//! marks the shape, and the shape stays fully queryable until its last
//! dependent detaches and a later drop succeeds.

use vstd::prelude::*;

use crate::objects::{Isometry, Scalar, Vector3};
use crate::storage::StoreKey;

verus! {

/// Geometry descriptor.  All extents are opaque payload words; the engine
/// geometry is generated from this descriptor outside this layer.
#[derive(Debug)]
pub enum ShapeDesc {
    Sphere { radius: Scalar },
    Cube { half_extents: Vector3 },
    Capsule { half_height: Scalar, radius: Scalar },
    Cylinder { half_height: Scalar, radius: Scalar },
    /// Infinite plane with normal toward Y+, usually a world margin.
    Plane,
    Convex { points: Vec<Vector3> },
    TriMesh { points: Vec<Vector3>, indices: Vec<(usize, usize, usize)> },
    Compound { shapes: Vec<(Isometry, ShapeDesc)> },
}

impl ShapeDesc {
    /// Concave geometry contributes no mass: colliders built from it take
    /// density zero (collision-only), convex or primitive geometry takes
    /// density one.
    pub open spec fn is_concave_spec(self) -> bool {
        self is Plane || self is TriMesh
    }

    /// Whether colliders built from this descriptor take the concave
    /// (zero-density) policy.
    pub fn is_concave(&self) -> (r: bool)
        ensures
            r == self.is_concave_spec(),
    {
        match self {
            ShapeDesc::Plane => true,
            ShapeDesc::TriMesh { .. } => true,
            _ => false,
        }
    }
}

/// No key occurs twice in the sequence.
pub open spec fn keys_unique(s: Seq<StoreKey>) -> bool {
    forall|i: int, j: int| 0 <= i < j < s.len() ==> s[i] != s[j]
}

/// Two positions of a duplicate-free sequence hold different keys.
pub proof fn lemma_keys_unique_distinct(s: Seq<StoreKey>, i: int, j: int)
    requires
        keys_unique(s),
        0 <= i < j < s.len(),
    ensures
        s[i] != s[j],
{
}

/// One registered shape: the descriptor the engine geometry is generated
/// from, the keys of the bodies using it, and the deferred-drop mark.
pub struct RigidShape {
    /// This shape's own key, filled in right after insertion.
    pub self_key: Option<StoreKey>,
    pub shape_desc: ShapeDesc,
    pub bodies: Vec<StoreKey>,
    /// Set when a drop was requested while bodies were still registered.
    pub marked_for_drop: bool,
    /// Number of live handles naming this shape.
    pub handle_count: u64,
}

impl RigidShape {
    /// The current geometry descriptor.
    pub open spec fn shape_desc_spec(self) -> ShapeDesc {
        self.shape_desc
    }

    /// The keys of the bodies registered against this shape.
    pub open spec fn bodies_spec(self) -> Seq<StoreKey> {
        self.bodies@
    }

    /// Each body registers at most once.
    pub open spec fn bodies_unique(self) -> bool {
        keys_unique(self.bodies_spec())
    }

    /// A fresh shape: descriptor recorded, no registered bodies, unmarked.
    pub fn new(shape_desc: ShapeDesc) -> (s: RigidShape)
        ensures
            s.self_key is None,
            s.shape_desc_spec() == shape_desc,
            s.bodies_spec() == Seq::<StoreKey>::empty(),
            s.bodies_unique(),
            !s.marked_for_drop,
            s.handle_count == 1,
    {
        let s = RigidShape {
            self_key: None,
            shape_desc,
            bodies: Vec::new(),
            marked_for_drop: false,
            handle_count: 1,
        };
        proof {
            assert(s.bodies_spec() =~= Seq::<StoreKey>::empty());
        }
        s
    }

    /// Replace the geometry descriptor.  Registered bodies, the self key and
    /// the drop mark are untouched; rebuilding the dependents' colliders is
    /// the shape server's job.
    pub fn update(&mut self, shape_desc: ShapeDesc)
        ensures
            *final(self) == (RigidShape { shape_desc, ..*old(self) }),
    {
        self.shape_desc = shape_desc;
    }

    /// The descriptor the engine geometry handle is generated from.
    pub fn shape_handle(&self) -> (r: &ShapeDesc)
        ensures
            *r == self.shape_desc_spec(),
    {
        &self.shape_desc
    }

    /// The registered bodies, for iteration.
    pub fn bodies(&self) -> (r: &Vec<StoreKey>)
        ensures
            r@ == self.bodies_spec(),
    {
        &self.bodies
    }

    /// Whether `key` is registered against this shape.
    pub fn has_body(&self, key: StoreKey) -> (r: bool)
        ensures
            r == self.bodies_spec().contains(key),
    {
        let n = self.bodies.len();
        let mut i: usize = 0;
        while i < n
            invariant
                i <= n,
                n == self.bodies@.len(),
                forall|j: int| 0 <= j < i ==> self.bodies@[j] != key,
            decreases n - i,
        {
            if self.bodies[i].index == key.index && self.bodies[i].generation == key.generation {
                proof {
                    assert(self.bodies@[i as int] == key);
                }
                return true;
            }
            i = i + 1;
        }
        false
    }

    /// Register a body against this shape.  Registering an already
    /// registered body changes nothing.
    pub fn register_body(&mut self, key: StoreKey)
        requires
            old(self).bodies_unique(),
        ensures
            final(self).bodies_unique(),
            final(self).bodies_spec().contains(key),
            forall|k2: StoreKey|
                k2 != key ==> #[trigger] final(self).bodies_spec().contains(k2) == old(
                    self,
                ).bodies_spec().contains(k2),
            old(self).bodies_spec().contains(key) ==> final(self).bodies_spec() == old(
                self,
            ).bodies_spec(),
            !old(self).bodies_spec().contains(key) ==> final(self).bodies_spec() == old(
                self,
            ).bodies_spec().push(key),
            final(self).shape_desc_spec() == old(self).shape_desc_spec(),
            final(self).self_key == old(self).self_key,
            final(self).marked_for_drop == old(self).marked_for_drop,
            final(self).handle_count == old(self).handle_count,
    {
        if !self.has_body(key) {
            let ghost pre = self.bodies@;
            self.bodies.push(key);
            proof {
                assert(self.bodies_spec()[self.bodies_spec().len() - 1] == key);
                assert forall|k2: StoreKey| k2 != key implies #[trigger] self.bodies_spec()
                    .contains(k2) == pre.contains(k2) by {
                    if pre.contains(k2) {
                        let j = choose|j: int| 0 <= j < pre.len() && pre[j] == k2;
                        assert(self.bodies_spec()[j] == k2);
                    } else if self.bodies_spec().contains(k2) {
                        let j = choose|j: int|
                            0 <= j < self.bodies_spec().len() && self.bodies_spec()[j] == k2;
                        assert(pre[j] == k2);
                    }
                }
            }
        }
    }

    /// Unregister a body.  Returns whether it was registered; unregistering
    /// an unknown body changes nothing.  When it was registered, the set
    /// shrinks by exactly that one entry.
    pub fn unregister_body(&mut self, key: StoreKey) -> (r: bool)
        requires
            old(self).bodies_unique(),
        ensures
            final(self).bodies_unique(),
            r == old(self).bodies_spec().contains(key),
            !final(self).bodies_spec().contains(key),
            forall|k2: StoreKey|
                k2 != key ==> #[trigger] final(self).bodies_spec().contains(k2) == old(
                    self,
                ).bodies_spec().contains(k2),
            final(self).bodies_spec().len() == if old(self).bodies_spec().contains(key) {
                old(self).bodies_spec().len() - 1
            } else {
                old(self).bodies_spec().len() as int
            },
            final(self).shape_desc_spec() == old(self).shape_desc_spec(),
            final(self).self_key == old(self).self_key,
            final(self).marked_for_drop == old(self).marked_for_drop,
            final(self).handle_count == old(self).handle_count,
    {
        let n = self.bodies.len();
        let mut i: usize = 0;
        while i < n
            invariant
                i <= n,
                n == self.bodies@.len(),
                keys_unique(self.bodies@),
                self.bodies@ == old(self).bodies@,
                self.shape_desc == old(self).shape_desc,
                self.self_key == old(self).self_key,
                self.marked_for_drop == old(self).marked_for_drop,
                self.handle_count == old(self).handle_count,
                forall|j: int| 0 <= j < i ==> self.bodies@[j] != key,
            decreases n - i,
        {
            if self.bodies[i].index == key.index && self.bodies[i].generation == key.generation {
                let ghost pre = self.bodies@;
                proof {
                    assert(keys_unique(pre));
                    assert(pre[i as int] == key);
                    assert(pre.contains(key));
                }
                // Swap the last entry into place and pop; the registered set
                // is unordered.
                let last = self.bodies.len() - 1;
                let last_val = self.bodies[last];
                self.bodies[i] = last_val;
                self.bodies.pop();
                proof {
                    let post = self.bodies@;
                    let i_ = i as int;
                    let m = pre.len() - 1;
                    assert(post =~= pre.update(i_, pre[m]).subrange(0, m));
                    assert forall|j: int| 0 <= j < m implies post[j] == (if j == i_ {
                        pre[m]
                    } else {
                        pre[j]
                    }) by {}
                    assert forall|j: int| 0 <= j < m implies post[j] != key by {
                        if j == i_ {
                            lemma_keys_unique_distinct(pre, i_, m);
                        } else if j < i_ {
                            lemma_keys_unique_distinct(pre, j, i_);
                        } else {
                            lemma_keys_unique_distinct(pre, i_, j);
                        }
                    }
                    assert(!post.contains(key)) by {
                        if post.contains(key) {
                            let j = choose|j: int| 0 <= j < post.len() && post[j] == key;
                            assert(post[j] != key);
                        }
                    }
                    assert forall|j1: int, j2: int| 0 <= j1 < j2 < m implies post[j1] != post[j2] by {
                        let a = if j1 == i_ { m } else { j1 };
                        let b = if j2 == i_ { m } else { j2 };
                        assert(post[j1] == pre[a] && post[j2] == pre[b]);
                        if a < b {
                            lemma_keys_unique_distinct(pre, a, b);
                        } else {
                            lemma_keys_unique_distinct(pre, b, a);
                        }
                    }
                    assert forall|k2: StoreKey| k2 != key implies #[trigger] post.contains(k2)
                        == pre.contains(k2) by {
                        if pre.contains(k2) {
                            let j = choose|j: int| 0 <= j < pre.len() && pre[j] == k2;
                            assert(j != i_);
                            if j == m {
                                assert(i_ < m);
                                assert(post[i_] == k2);
                            } else {
                                assert(post[j] == k2);
                            }
                        } else if post.contains(k2) {
                            let j = choose|j: int| 0 <= j < post.len() && post[j] == k2;
                            if j == i_ {
                                assert(pre[m] == k2);
                            } else {
                                assert(pre[j] == k2);
                            }
                        }
                    }
                }
                return true;
            }
            i = i + 1;
        }
        proof {
            assert(!self.bodies_spec().contains(key)) by {
                if self.bodies_spec().contains(key) {
                    let j = choose|j: int|
                        0 <= j < self.bodies_spec().len() && self.bodies_spec()[j] == key;
                    assert(self.bodies_spec()[j] != key);
                }
            }
        }
        false
    }
}

} // verus!
