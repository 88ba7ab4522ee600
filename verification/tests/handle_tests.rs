//! Counted handles and the deferred-deletion protocol: the last drop queues
//! the tag, and the per-step collection point does the destruction.

use phythyst::body::RigidBodyDesc;
use phythyst::shape::ShapeDesc;
use phythyst::NPhysicsBackend;

#[test]
fn clone_raises_count_and_drop_lowers_it() {
    let (mut s, _world, rb, _area, _shape, _joint) = NPhysicsBackend::create_servers();
    let h = rb.create_body(&mut s, &RigidBodyDesc::default());
    let btag = h.rigid_body_tag().unwrap();
    let h2 = s.clone_handle(&h);
    assert_eq!(s.bodies.get(btag.key).unwrap().handle_count, 2);
    s.drop_handle(h2);
    assert_eq!(s.bodies.get(btag.key).unwrap().handle_count, 1);
    // One handle still lives: nothing was queued.
    assert_eq!(s.gc.pending_count(), 0);
    assert!(s.bodies.has(btag.key));
}

#[test]
fn last_drop_queues_and_collect_removes() {
    let (mut s, world, rb, _area, _shape, _joint) = NPhysicsBackend::create_servers();
    let h = rb.create_body(&mut s, &RigidBodyDesc::default());
    let btag = h.rigid_body_tag().unwrap();
    s.drop_handle(h);
    // The drop itself deletes nothing; it only queues the tag.
    assert!(s.bodies.has(btag.key));
    assert_eq!(s.gc.pending_count(), 1);
    world.collect_garbage(&mut s);
    assert!(!s.bodies.has(btag.key));
    assert_eq!(s.gc.pending_count(), 0);
}

#[test]
fn body_destruction_decrements_shape_set_by_exactly_one() {
    let (mut s, world, rb, _area, shape_server, _joint) = NPhysicsBackend::create_servers();
    let hs = shape_server.create_shape(&mut s, ShapeDesc::Sphere { radius: 1 });
    let stag = hs.shape_tag().unwrap();
    let h1 = rb.create_body(&mut s, &RigidBodyDesc::default());
    let h2 = rb.create_body(&mut s, &RigidBodyDesc::default());
    let b1 = h1.rigid_body_tag().unwrap();
    let b2 = h2.rigid_body_tag().unwrap();
    rb.set_shape(&mut s, b1, Some(stag)).unwrap();
    rb.set_shape(&mut s, b2, Some(stag)).unwrap();
    assert_eq!(s.shapes.get(stag.key).unwrap().bodies().len(), 2);
    s.drop_handle(h1);
    world.collect_garbage(&mut s);
    // The dropped body's store entry is gone and the shape lost exactly it.
    assert!(!s.bodies.has(b1.key));
    let shape = s.shapes.get(stag.key).unwrap();
    assert_eq!(shape.bodies().len(), 1);
    assert!(!shape.has_body(b1.key));
    assert!(shape.has_body(b2.key));
}

#[test]
fn in_use_shape_is_requeued_until_its_dependent_detaches() {
    let (mut s, world, rb, _area, shape_server, _joint) = NPhysicsBackend::create_servers();
    let hs = shape_server.create_shape(&mut s, ShapeDesc::Plane);
    let stag = hs.shape_tag().unwrap();
    let hb = rb.create_body(&mut s, &RigidBodyDesc::default());
    let btag = hb.rigid_body_tag().unwrap();
    rb.set_shape(&mut s, btag, Some(stag)).unwrap();
    s.drop_handle(hs);
    world.collect_garbage(&mut s);
    // Still in use: the shape was only marked and waits for the next pass.
    assert!(s.shapes.has(stag.key));
    assert!(s.shapes.get(stag.key).unwrap().marked_for_drop);
    assert_eq!(s.gc.pending_count(), 1);
    rb.set_shape(&mut s, btag, None).unwrap();
    world.collect_garbage(&mut s);
    assert!(!s.shapes.has(stag.key));
    assert_eq!(s.gc.pending_count(), 0);
}
