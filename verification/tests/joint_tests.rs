//! Joints: the Unbound/HalfBound/Bound state machine, anchors frozen at
//! bind time, constraint retraction, and the wake-up of disturbed bodies.

use phythyst::body::RigidBodyDesc;
use phythyst::joint::{JointDesc, JointState};
use phythyst::objects::{Isometry, Quaternion, Vector3};
use phythyst::joint_physics_server::JointNpServer;
use phythyst::rigid_body_physics_server::RBodyNpServer;
use phythyst::{NPhysicsBackend, PhysicsError};

fn iso(x: u64) -> Isometry {
    Isometry {
        translation: Vector3 { x, y: 0, z: 0 },
        rotation: Quaternion { i: 0, j: 0, k: 0, w: 1 },
    }
}

fn put_to_sleep(s: &mut phythyst::servers_storage::ServersStorage, key: phythyst::storage::StoreKey) {
    let mut g = s.bodies.get_mut(key).unwrap();
    g.value.active = false;
    s.bodies.release(g);
}

#[test]
fn binding_moves_through_half_bound_to_bound_and_freezes_anchors() {
    let (mut s, _world, rb, _area, _shape, joints) = NPhysicsBackend::create_servers();
    let ha = rb.create_body(&mut s, &RigidBodyDesc::default());
    let hb = rb.create_body(&mut s, &RigidBodyDesc::default());
    let a = ha.rigid_body_tag().unwrap();
    let b = hb.rigid_body_tag().unwrap();
    rb.set_body_transform(&mut s, a, &iso(10)).unwrap();
    rb.set_body_transform(&mut s, b, &iso(20)).unwrap();
    let hj = joints.create_joint(&mut s, JointDesc::Fixed, &iso(15));
    let j = hj.joint_tag().unwrap();
    assert_eq!(s.joints.get(j.key).unwrap().state(), JointState::Unbound);
    joints.insert_rigid_body(&mut s, j, a).unwrap();
    // One slot filled: half bound, no constraint yet.
    let jv = s.joints.get(j.key).unwrap();
    assert_eq!(jv.state(), JointState::HalfBound);
    assert!(jv.constraint.is_none());
    // The first body moves before the second arrives; the anchors freeze at
    // the moment the joint becomes bound, from the transforms of that
    // moment.
    rb.set_body_transform(&mut s, a, &iso(11)).unwrap();
    joints.insert_rigid_body(&mut s, j, b).unwrap();
    let jv = s.joints.get(j.key).unwrap();
    assert_eq!(jv.state(), JointState::Bound);
    let c = jv.constraint.unwrap();
    assert_eq!(c.body_0.body, a.key);
    assert_eq!(c.body_0.part, 0);
    assert_eq!(c.body_1.body, b.key);
    assert_eq!(c.anchor_0.body_transform, iso(11));
    assert_eq!(c.anchor_1.body_transform, iso(20));
    assert_eq!(c.anchor_0.joint_isometry, iso(15));
    assert_eq!(c.anchor_1.joint_isometry, iso(15));
}

#[test]
fn third_body_reports_already_bound() {
    let (mut s, _world, rb, _area, _shape, joints) = NPhysicsBackend::create_servers();
    let a = rb.create_body(&mut s, &RigidBodyDesc::default()).rigid_body_tag().unwrap();
    let b = rb.create_body(&mut s, &RigidBodyDesc::default()).rigid_body_tag().unwrap();
    let c = rb.create_body(&mut s, &RigidBodyDesc::default()).rigid_body_tag().unwrap();
    let j = joints.create_joint(&mut s, JointDesc::Fixed, &iso(0)).joint_tag().unwrap();
    joints.insert_rigid_body(&mut s, j, a).unwrap();
    joints.insert_rigid_body(&mut s, j, b).unwrap();
    assert_eq!(joints.insert_rigid_body(&mut s, j, c), Err(PhysicsError::AlreadyBound));
    assert_eq!(s.joints.get(j.key).unwrap().state(), JointState::Bound);
}

#[test]
fn removing_a_body_retracts_the_constraint_and_wakes_both() {
    let (mut s, _world, rb, _area, _shape, joints) = NPhysicsBackend::create_servers();
    let a = rb.create_body(&mut s, &RigidBodyDesc::default()).rigid_body_tag().unwrap();
    let b = rb.create_body(&mut s, &RigidBodyDesc::default()).rigid_body_tag().unwrap();
    let j = joints.create_joint(&mut s, JointDesc::Fixed, &iso(0)).joint_tag().unwrap();
    joints.insert_rigid_body(&mut s, j, a).unwrap();
    joints.insert_rigid_body(&mut s, j, b).unwrap();
    put_to_sleep(&mut s, a.key);
    put_to_sleep(&mut s, b.key);
    joints.remove_rigid_body(&mut s, j, a).unwrap();
    let jv = s.joints.get(j.key).unwrap();
    assert_eq!(jv.state(), JointState::HalfBound);
    assert!(jv.constraint.is_none());
    assert!(jv.body_0.is_none());
    assert_eq!(jv.body_1.unwrap().body, b.key);
    // Both previously bound bodies were reactivated.
    assert!(s.bodies.get(a.key).unwrap().active);
    assert!(s.bodies.get(b.key).unwrap().active);
}

#[test]
fn removing_an_unbound_body_reports_not_found() {
    let (mut s, _world, rb, _area, _shape, joints) = NPhysicsBackend::create_servers();
    let a = rb.create_body(&mut s, &RigidBodyDesc::default()).rigid_body_tag().unwrap();
    let b = rb.create_body(&mut s, &RigidBodyDesc::default()).rigid_body_tag().unwrap();
    let j = joints.create_joint(&mut s, JointDesc::Fixed, &iso(0)).joint_tag().unwrap();
    joints.insert_rigid_body(&mut s, j, a).unwrap();
    assert_eq!(joints.remove_rigid_body(&mut s, j, b), Err(PhysicsError::NotFound));
    assert_eq!(s.joints.get(j.key).unwrap().state(), JointState::HalfBound);
}

#[test]
fn binding_a_stale_body_reports_not_found_and_changes_nothing() {
    let (mut s, _world, rb, _area, _shape, joints) = NPhysicsBackend::create_servers();
    let ha = rb.create_body(&mut s, &RigidBodyDesc::default());
    let a = ha.rigid_body_tag().unwrap();
    RBodyNpServer::drop_body(a, &mut s);
    let j = joints.create_joint(&mut s, JointDesc::Fixed, &iso(0)).joint_tag().unwrap();
    assert_eq!(joints.insert_rigid_body(&mut s, j, a), Err(PhysicsError::NotFound));
    assert_eq!(s.joints.get(j.key).unwrap().state(), JointState::Unbound);
}

#[test]
fn drop_joint_retracts_and_wakes_then_removes() {
    let (mut s, _world, rb, _area, _shape, joints) = NPhysicsBackend::create_servers();
    let a = rb.create_body(&mut s, &RigidBodyDesc::default()).rigid_body_tag().unwrap();
    let b = rb.create_body(&mut s, &RigidBodyDesc::default()).rigid_body_tag().unwrap();
    let j = joints.create_joint(&mut s, JointDesc::Fixed, &iso(0)).joint_tag().unwrap();
    joints.insert_rigid_body(&mut s, j, a).unwrap();
    joints.insert_rigid_body(&mut s, j, b).unwrap();
    put_to_sleep(&mut s, a.key);
    put_to_sleep(&mut s, b.key);
    JointNpServer::drop_joint(j, &mut s);
    assert!(!s.joints.has(j.key));
    assert!(s.bodies.get(a.key).unwrap().active);
    assert!(s.bodies.get(b.key).unwrap().active);
}

#[test]
fn dropping_a_body_unbinds_it_from_its_joints() {
    let (mut s, _world, rb, _area, _shape, joints) = NPhysicsBackend::create_servers();
    let a = rb.create_body(&mut s, &RigidBodyDesc::default()).rigid_body_tag().unwrap();
    let b = rb.create_body(&mut s, &RigidBodyDesc::default()).rigid_body_tag().unwrap();
    let j = joints.create_joint(&mut s, JointDesc::Fixed, &iso(0)).joint_tag().unwrap();
    joints.insert_rigid_body(&mut s, j, a).unwrap();
    joints.insert_rigid_body(&mut s, j, b).unwrap();
    RBodyNpServer::drop_body(a, &mut s);
    assert!(!s.bodies.has(a.key));
    let jv = s.joints.get(j.key).unwrap();
    assert_eq!(jv.state(), JointState::HalfBound);
    assert!(jv.constraint.is_none());
    assert_eq!(jv.body_1.unwrap().body, b.key);
}
