//! Bodies: creation from a description, accessors, wake-ups from force
//! application, entities and collider routing tuples, and areas.

use phythyst::area_physics_server::AreaNpServer;
use phythyst::body::{BodyData, BodyMode, RigidBodyDesc};
use phythyst::objects::{
    Entity, Isometry, ObjectTag, OverlapEvent, PhysicsAreaTag, Quaternion, UserData, Vector3,
};
use phythyst::rigid_body_physics_server::RBodyNpServer;
use phythyst::shape::ShapeDesc;
use phythyst::storage::StoreKey;
use phythyst::{NPhysicsBackend, PhysicsError};

fn iso(x: u64) -> Isometry {
    Isometry {
        translation: Vector3 { x, y: 0, z: 0 },
        rotation: Quaternion { i: 0, j: 0, k: 0, w: 1 },
    }
}

#[test]
fn create_body_records_the_description() {
    let (mut s, _world, rb, _area, _shape, _joint) = NPhysicsBackend::create_servers();
    let desc = RigidBodyDesc { mode: BodyMode::Kinematic, mass: 5, friction: 6, bounciness: 7 };
    let h = rb.create_body(&mut s, &desc);
    let btag = h.rigid_body_tag().unwrap();
    let body = s.bodies.get(btag.key).unwrap();
    assert_eq!(body.self_key, Some(btag.key));
    assert!(matches!(body.body_data, BodyData::Rigid));
    assert_eq!(body.mode, BodyMode::Kinematic);
    assert_eq!(body.mass, 5);
    assert_eq!(body.friction, 6);
    assert_eq!(body.bounciness, 7);
    assert!(body.active);
    assert_eq!(body.shape_key, None);
    assert_eq!(body.collider_key, None);
    assert_eq!(body.handle_count, 1);
}

#[test]
fn default_description_is_a_dynamic_body() {
    let desc = RigidBodyDesc::default();
    assert_eq!(desc.mode, BodyMode::Dynamic);
    assert_eq!(BodyMode::default(), BodyMode::Dynamic);
    assert_eq!(desc.mass, 0);
}

#[test]
fn mode_and_transform_and_velocities_round_trip() {
    let (mut s, _world, rb, _area, _shape, _joint) = NPhysicsBackend::create_servers();
    let btag = rb.create_body(&mut s, &RigidBodyDesc::default()).rigid_body_tag().unwrap();
    rb.set_mode(&mut s, btag, BodyMode::Static).unwrap();
    assert_eq!(rb.mode(&s, btag), BodyMode::Static);
    rb.set_body_transform(&mut s, btag, &iso(42)).unwrap();
    assert_eq!(rb.body_transform(&s, btag), Some(iso(42)));
    let v = Vector3 { x: 1, y: 2, z: 3 };
    let w = Vector3 { x: 4, y: 5, z: 6 };
    rb.set_linear_velocity(&mut s, btag, &v).unwrap();
    rb.set_angular_velocity(&mut s, btag, &w).unwrap();
    assert_eq!(rb.linear_velocity(&s, btag), v);
    assert_eq!(rb.angular_velocity(&s, btag), w);
}

#[test]
fn accessors_on_stale_tags_fall_back() {
    let (mut s, _world, rb, _area, _shape, _joint) = NPhysicsBackend::create_servers();
    let btag = rb.create_body(&mut s, &RigidBodyDesc::default()).rigid_body_tag().unwrap();
    RBodyNpServer::drop_body(btag, &mut s);
    assert_eq!(rb.mode(&s, btag), BodyMode::Disabled);
    assert_eq!(rb.body_transform(&s, btag), None);
    assert_eq!(rb.linear_velocity(&s, btag), Vector3 { x: 0, y: 0, z: 0 });
    assert_eq!(rb.angular_velocity(&s, btag), Vector3 { x: 0, y: 0, z: 0 });
    assert_eq!(rb.entity(&s, btag), None);
    assert_eq!(rb.shape(&s, btag), None);
    assert_eq!(rb.set_mode(&mut s, btag, BodyMode::Static), Err(PhysicsError::NotFound));
    assert_eq!(rb.set_body_transform(&mut s, btag, &iso(1)), Err(PhysicsError::NotFound));
    assert_eq!(
        rb.apply_force(&mut s, btag, &Vector3 { x: 1, y: 0, z: 0 }),
        Err(PhysicsError::NotFound)
    );
    assert_eq!(rb.clear_forces(&mut s, btag), Err(PhysicsError::NotFound));
}

#[test]
fn force_and_impulse_application_wakes_the_body() {
    let (mut s, _world, rb, _area, _shape, _joint) = NPhysicsBackend::create_servers();
    let btag = rb.create_body(&mut s, &RigidBodyDesc::default()).rigid_body_tag().unwrap();
    let f = Vector3 { x: 1, y: 0, z: 0 };
    let sleep = |s: &mut phythyst::servers_storage::ServersStorage| {
        let mut g = s.bodies.get_mut(btag.key).unwrap();
        g.value.active = false;
        s.bodies.release(g);
    };
    sleep(&mut s);
    rb.apply_force(&mut s, btag, &f).unwrap();
    assert!(s.bodies.get(btag.key).unwrap().active);
    sleep(&mut s);
    rb.apply_torque(&mut s, btag, &f).unwrap();
    assert!(s.bodies.get(btag.key).unwrap().active);
    sleep(&mut s);
    rb.apply_impulse(&mut s, btag, &f).unwrap();
    assert!(s.bodies.get(btag.key).unwrap().active);
    sleep(&mut s);
    rb.apply_angular_impulse(&mut s, btag, &f).unwrap();
    assert!(s.bodies.get(btag.key).unwrap().active);
    sleep(&mut s);
    rb.apply_force_at_position(&mut s, btag, &f, &f).unwrap();
    assert!(s.bodies.get(btag.key).unwrap().active);
    sleep(&mut s);
    rb.apply_impulse_at_position(&mut s, btag, &f, &f).unwrap();
    assert!(s.bodies.get(btag.key).unwrap().active);
}

#[test]
fn entity_updates_the_collider_routing_tuple() {
    let (mut s, _world, rb, _area, shape_server, _joint) = NPhysicsBackend::create_servers();
    let stag = shape_server.create_shape(&mut s, ShapeDesc::Sphere { radius: 1 })
        .shape_tag()
        .unwrap();
    let btag = rb.create_body(&mut s, &RigidBodyDesc::default()).rigid_body_tag().unwrap();
    rb.set_shape(&mut s, btag, Some(stag)).unwrap();
    let e = Entity { id: 77 };
    rb.set_entity(&mut s, btag, Some(e)).unwrap();
    assert_eq!(rb.entity(&s, btag), Some(e));
    let ck = s.bodies.get(btag.key).unwrap().collider_key.unwrap();
    let c = s.colliders.get(ck).unwrap();
    assert_eq!(
        c.user_data,
        UserData { object: ObjectTag::RigidBody(btag.key), entity: Some(e) }
    );
    rb.set_entity(&mut s, btag, None).unwrap();
    assert_eq!(rb.entity(&s, btag), None);
    let c = s.colliders.get(ck).unwrap();
    assert_eq!(c.user_data, UserData { object: ObjectTag::RigidBody(btag.key), entity: None });
}

#[test]
fn setting_an_entity_on_an_area_is_incompatible() {
    let (mut s, _world, _rb, area, _shape, _joint) = NPhysicsBackend::create_servers();
    let rb = RBodyNpServer::new();
    let ha = area.create_area(&mut s);
    let akey: StoreKey = ha.area_tag().unwrap().key;
    let body = s.bodies.get(akey).unwrap();
    assert!(matches!(body.body_data, BodyData::Area(_)));
    assert_eq!(body.mode, BodyMode::Static);
    let fake_rigid_tag = phythyst::objects::PhysicsRigidBodyTag { key: akey };
    assert_eq!(
        rb.set_entity(&mut s, fake_rigid_tag, Some(Entity { id: 1 })),
        Err(PhysicsError::IncompatibleVariant)
    );
}

#[test]
fn area_colliders_are_sensors() {
    let (mut s, _world, rb, area, shape_server, _joint) = NPhysicsBackend::create_servers();
    let stag = shape_server.create_shape(&mut s, ShapeDesc::Sphere { radius: 1 })
        .shape_tag()
        .unwrap();
    let akey = area.create_area(&mut s).area_tag().unwrap().key;
    // Areas share the body store, so the body server attaches their shapes.
    rb.set_shape(&mut s, phythyst::objects::PhysicsRigidBodyTag { key: akey }, Some(stag))
        .unwrap();
    let ck = s.bodies.get(akey).unwrap().collider_key.unwrap();
    let c = s.colliders.get(ck).unwrap();
    assert!(c.sensor);
    assert_eq!(c.user_data.object, ObjectTag::Area(akey));
    let area_server = AreaNpServer::new();
    area_server.drop_area(PhysicsAreaTag { key: akey }, &mut s);
    assert!(!s.bodies.has(akey));
    assert!(!s.colliders.has(ck));
    assert!(!s.shapes.get(stag.key).unwrap().has_body(akey));
}

#[test]
fn overlap_events_queue_on_areas_only() {
    let (mut s, _world, rb, area, _shape, _joint) = NPhysicsBackend::create_servers();
    let akey = area.create_area(&mut s).area_tag().unwrap().key;
    let atag = PhysicsAreaTag { key: akey };
    let btag = rb.create_body(&mut s, &RigidBodyDesc::default()).rigid_body_tag().unwrap();
    let enter = OverlapEvent::Enter { body: btag.key, entity: None };
    let exit = OverlapEvent::Exit { body: btag.key, entity: None };
    area.push_overlap_event(&mut s, atag, enter).unwrap();
    area.push_overlap_event(&mut s, atag, exit).unwrap();
    let events = area.take_overlap_events(&mut s, atag).unwrap();
    assert_eq!(events, vec![enter, exit]);
    // Taking drains the queue.
    assert_eq!(area.take_overlap_events(&mut s, atag).unwrap(), vec![]);
    // A rigid body holds no overlap queue.
    assert_eq!(
        area.push_overlap_event(&mut s, PhysicsAreaTag { key: btag.key }, enter),
        Err(PhysicsError::IncompatibleVariant)
    );
    assert!(matches!(
        area.take_overlap_events(&mut s, PhysicsAreaTag { key: btag.key }),
        Err(PhysicsError::IncompatibleVariant)
    ));
}
