//! Cross-server flows: the backend entry point, direct shape
//! attach/detach helpers, the internal joint recomputation, and a mixed
//! collection pass.

use phythyst::body::RigidBodyDesc;
use phythyst::joint::{Joint, JointDesc, JointState};
use phythyst::joint_physics_server::JointNpServer;
use phythyst::objects::{Isometry, Quaternion, Vector3};
use phythyst::rigid_body_physics_server::RBodyNpServer;
use phythyst::shape::ShapeDesc;
use phythyst::storage::Storage;
use phythyst::NPhysicsBackend;

fn iso(x: u64) -> Isometry {
    Isometry {
        translation: Vector3 { x, y: 0, z: 0 },
        rotation: Quaternion { i: 0, j: 0, k: 0, w: 1 },
    }
}

#[test]
fn create_servers_starts_empty() {
    let (s, _world, _rb, _area, _shape, _joint) = NPhysicsBackend::create_servers();
    assert_eq!(s.gc.pending_count(), 0);
    assert_eq!(s.bodies.live_keys().len(), 0);
    assert_eq!(s.shapes.live_keys().len(), 0);
    assert_eq!(s.joints.live_keys().len(), 0);
}

#[test]
fn install_and_remove_shape_directly() {
    let (mut s, _world, rb, _area, shape_server, _joint) = NPhysicsBackend::create_servers();
    let stag = shape_server.create_shape(&mut s, ShapeDesc::Sphere { radius: 1 })
        .shape_tag()
        .unwrap();
    let btag = rb.create_body(&mut s, &RigidBodyDesc::default()).rigid_body_tag().unwrap();
    RBodyNpServer::install_shape(&mut s, btag.key, stag.key).unwrap();
    assert_eq!(s.bodies.get(btag.key).unwrap().shape_key, Some(stag.key));
    assert!(s.bodies.get(btag.key).unwrap().collider_key.is_some());
    assert!(s.shapes.get(stag.key).unwrap().has_body(btag.key));
    RBodyNpServer::remove_shape(&mut s, btag.key);
    assert_eq!(s.bodies.get(btag.key).unwrap().shape_key, None);
    assert_eq!(s.bodies.get(btag.key).unwrap().collider_key, None);
    assert!(!s.shapes.get(stag.key).unwrap().has_body(btag.key));
}

#[test]
fn update_internal_joint_materializes_and_retracts() {
    let mut bodies: Storage<phythyst::body::Body> = Storage::new(4, 4);
    let mut b0 = phythyst::body::Body::new_rigid_body(&RigidBodyDesc::default());
    b0.set_body_transform(&iso(3));
    let k0 = bodies.insert(b0);
    let mut b1 = phythyst::body::Body::new_rigid_body(&RigidBodyDesc::default());
    b1.set_body_transform(&iso(4));
    let k1 = bodies.insert(b1);
    let mut joint = Joint::new(JointDesc::Fixed, iso(9));
    joint.body_0 = Some(phythyst::joint::BodyPart { body: k0, part: 0 });
    joint.body_1 = Some(phythyst::joint::BodyPart { body: k1, part: 0 });
    JointNpServer::update_internal_joint(&mut joint, &bodies);
    let c = joint.constraint.unwrap();
    assert_eq!(c.anchor_0.body_transform, iso(3));
    assert_eq!(c.anchor_1.body_transform, iso(4));
    assert_eq!(c.anchor_0.joint_isometry, iso(9));
    // A slot empties: the next recomputation retracts the constraint.
    joint.body_1 = None;
    JointNpServer::update_internal_joint(&mut joint, &bodies);
    assert!(joint.constraint.is_none());
    assert_eq!(joint.state(), JointState::HalfBound);
}

#[test]
fn collection_pass_handles_mixed_tags() {
    let (mut s, world, rb, _area, shape_server, joints) = NPhysicsBackend::create_servers();
    let hs = shape_server.create_shape(&mut s, ShapeDesc::Sphere { radius: 1 });
    let stag = hs.shape_tag().unwrap();
    let hb = rb.create_body(&mut s, &RigidBodyDesc::default());
    let btag = hb.rigid_body_tag().unwrap();
    let hj = joints.create_joint(&mut s, JointDesc::Fixed, &iso(0));
    let jtag = hj.joint_tag().unwrap();
    rb.set_shape(&mut s, btag, Some(stag)).unwrap();
    joints.insert_rigid_body(&mut s, jtag, btag).unwrap();
    // Drop everything at once; one pass unwinds the graph in queue order.
    s.drop_handle(hb);
    s.drop_handle(hj);
    s.drop_handle(hs);
    assert_eq!(s.gc.pending_count(), 3);
    world.collect_garbage(&mut s);
    assert!(!s.bodies.has(btag.key));
    assert!(!s.joints.has(jtag.key));
    assert!(!s.shapes.has(stag.key));
    assert_eq!(s.gc.pending_count(), 0);
}

#[test]
fn drop_joint_on_stale_tag_is_noop() {
    let (mut s, _world, _rb, _area, _shape, joints) = NPhysicsBackend::create_servers();
    let jtag = joints.create_joint(&mut s, JointDesc::Fixed, &iso(0)).joint_tag().unwrap();
    JointNpServer::drop_joint(jtag, &mut s);
    assert!(!s.joints.has(jtag.key));
    // Again on the now stale tag: nothing happens, nothing crashes.
    JointNpServer::drop_joint(jtag, &mut s);
    assert!(!s.joints.has(jtag.key));
}

#[test]
fn drop_body_on_stale_tag_is_noop() {
    let (mut s, _world, rb, _area, _shape, _joint) = NPhysicsBackend::create_servers();
    let btag = rb.create_body(&mut s, &RigidBodyDesc::default()).rigid_body_tag().unwrap();
    RBodyNpServer::drop_body(btag, &mut s);
    RBodyNpServer::drop_body(btag, &mut s);
    assert!(!s.bodies.has(btag.key));
}
