//! Shapes: attach/detach, the deferred drop of a shape in use, and the
//! all-dependents collider rebuild with its density and material policy.

use phythyst::body::RigidBodyDesc;
use phythyst::collider::{Density, Material};
use phythyst::shape::ShapeDesc;
use phythyst::shape_physics_server::ShapeNpServer;
use phythyst::objects::Vector3;
use phythyst::{NPhysicsBackend, PhysicsError};

#[test]
fn sphere_body_attach_then_detach() {
    // Create a sphere shape, a dynamic body of mass one, set the shape,
    // read it back, clear it, and check that the shape has no dependents.
    let (mut s, _world, rb, _area, shape_server, _joint) = NPhysicsBackend::create_servers();
    let hs = shape_server.create_shape(&mut s, ShapeDesc::Sphere { radius: 1 });
    let stag = hs.shape_tag().unwrap();
    let hb = rb.create_body(&mut s, &RigidBodyDesc { mass: 1, ..RigidBodyDesc::default() });
    let btag = hb.rigid_body_tag().unwrap();
    rb.set_shape(&mut s, btag, Some(stag)).unwrap();
    assert_eq!(rb.shape(&s, btag), Some(stag));
    assert!(ShapeNpServer::has_dependency(stag.key, &s.shapes));
    rb.set_shape(&mut s, btag, None).unwrap();
    assert_eq!(rb.shape(&s, btag), None);
    assert!(!ShapeNpServer::has_dependency(stag.key, &s.shapes));
}

#[test]
fn drop_shape_in_use_defers_and_stays_queryable() {
    let (mut s, _world, rb, _area, shape_server, _joint) = NPhysicsBackend::create_servers();
    let hs = shape_server.create_shape(&mut s, ShapeDesc::Cube {
        half_extents: Vector3 { x: 2, y: 2, z: 2 },
    });
    let stag = hs.shape_tag().unwrap();
    let hb = rb.create_body(&mut s, &RigidBodyDesc::default());
    let btag = hb.rigid_body_tag().unwrap();
    rb.set_shape(&mut s, btag, Some(stag)).unwrap();
    let r = ShapeNpServer::drop_shape(stag, &mut s);
    assert_eq!(r, Err(PhysicsError::InUse));
    // The shape remains fully queryable.
    let shape = s.shapes.get(stag.key).unwrap();
    assert!(shape.marked_for_drop);
    assert!(shape.has_body(btag.key));
    assert!(matches!(shape.shape_handle(), ShapeDesc::Cube { .. }));
    // After the dependent detaches, a later drop succeeds.
    rb.set_shape(&mut s, btag, None).unwrap();
    assert_eq!(ShapeNpServer::drop_shape(stag, &mut s), Ok(()));
    assert!(!s.shapes.has(stag.key));
}

#[test]
fn update_shape_rebuilds_every_dependent_collider() {
    let (mut s, _world, rb, _area, shape_server, _joint) = NPhysicsBackend::create_servers();
    let hs = shape_server.create_shape(&mut s, ShapeDesc::Sphere { radius: 1 });
    let stag = hs.shape_tag().unwrap();
    let h_other = shape_server.create_shape(&mut s, ShapeDesc::Plane);
    let other_tag = h_other.shape_tag().unwrap();
    let h1 = rb.create_body(&mut s, &RigidBodyDesc { friction: 3, bounciness: 4, ..RigidBodyDesc::default() });
    let h2 = rb.create_body(&mut s, &RigidBodyDesc { friction: 5, bounciness: 6, ..RigidBodyDesc::default() });
    let h3 = rb.create_body(&mut s, &RigidBodyDesc::default());
    let b1 = h1.rigid_body_tag().unwrap();
    let b2 = h2.rigid_body_tag().unwrap();
    let b3 = h3.rigid_body_tag().unwrap();
    rb.set_shape(&mut s, b1, Some(stag)).unwrap();
    rb.set_shape(&mut s, b2, Some(stag)).unwrap();
    rb.set_shape(&mut s, b3, Some(other_tag)).unwrap();
    let old_ck1 = s.bodies.get(b1.key).unwrap().collider_key.unwrap();
    let old_ck2 = s.bodies.get(b2.key).unwrap().collider_key.unwrap();
    let old_ck3 = s.bodies.get(b3.key).unwrap().collider_key.unwrap();
    let old_c1 = *s.colliders.get(old_ck1).unwrap();
    let old_c2 = *s.colliders.get(old_ck2).unwrap();
    shape_server.update_shape(&mut s, stag, ShapeDesc::Sphere { radius: 2 }).unwrap();
    // Exactly the two registered bodies got fresh colliders; each preserves
    // its prior density policy and material.
    let new_ck1 = s.bodies.get(b1.key).unwrap().collider_key.unwrap();
    let new_ck2 = s.bodies.get(b2.key).unwrap().collider_key.unwrap();
    assert_ne!(new_ck1, old_ck1);
    assert_ne!(new_ck2, old_ck2);
    assert!(!s.colliders.has(old_ck1));
    assert!(!s.colliders.has(old_ck2));
    let new_c1 = *s.colliders.get(new_ck1).unwrap();
    let new_c2 = *s.colliders.get(new_ck2).unwrap();
    assert_eq!(new_c1, old_c1);
    assert_eq!(new_c2, old_c2);
    assert_eq!(new_c1.density, Density::One);
    assert_eq!(new_c1.material, Material { friction: 3, bounciness: 4 });
    assert_eq!(new_c2.material, Material { friction: 5, bounciness: 6 });
    // The third body, registered to another shape, is untouched.
    assert_eq!(s.bodies.get(b3.key).unwrap().collider_key.unwrap(), old_ck3);
    assert!(s.colliders.has(old_ck3));
    // The descriptor really changed.
    assert!(matches!(
        s.shapes.get(stag.key).unwrap().shape_handle(),
        ShapeDesc::Sphere { radius: 2 }
    ));
}

#[test]
fn concave_shapes_build_zero_density_colliders() {
    let (mut s, _world, rb, _area, shape_server, _joint) = NPhysicsBackend::create_servers();
    let trimesh = shape_server.create_shape(&mut s, ShapeDesc::TriMesh {
        points: vec![
            Vector3 { x: 0, y: 0, z: 0 },
            Vector3 { x: 1, y: 0, z: 0 },
            Vector3 { x: 0, y: 1, z: 0 },
        ],
        indices: vec![(0, 1, 2)],
    });
    let tm_tag = trimesh.shape_tag().unwrap();
    let sphere = shape_server.create_shape(&mut s, ShapeDesc::Sphere { radius: 1 });
    let sp_tag = sphere.shape_tag().unwrap();
    let h1 = rb.create_body(&mut s, &RigidBodyDesc { friction: 7, bounciness: 8, ..RigidBodyDesc::default() });
    let h2 = rb.create_body(&mut s, &RigidBodyDesc::default());
    let b1 = h1.rigid_body_tag().unwrap();
    let b2 = h2.rigid_body_tag().unwrap();
    rb.set_shape(&mut s, b1, Some(tm_tag)).unwrap();
    rb.set_shape(&mut s, b2, Some(sp_tag)).unwrap();
    let c1 = s.colliders.get(s.bodies.get(b1.key).unwrap().collider_key.unwrap()).unwrap();
    let c2 = s.colliders.get(s.bodies.get(b2.key).unwrap().collider_key.unwrap()).unwrap();
    assert_eq!(c1.density, Density::Zero);
    assert_eq!(c2.density, Density::One);
    // Material carried from the owning body.
    assert_eq!(c1.material, Material { friction: 7, bounciness: 8 });
    assert!(!c1.sensor);
}

#[test]
fn set_shape_to_same_shape_is_noop() {
    let (mut s, _world, rb, _area, shape_server, _joint) = NPhysicsBackend::create_servers();
    let hs = shape_server.create_shape(&mut s, ShapeDesc::Sphere { radius: 1 });
    let stag = hs.shape_tag().unwrap();
    let hb = rb.create_body(&mut s, &RigidBodyDesc::default());
    let btag = hb.rigid_body_tag().unwrap();
    rb.set_shape(&mut s, btag, Some(stag)).unwrap();
    let ck = s.bodies.get(btag.key).unwrap().collider_key.unwrap();
    rb.set_shape(&mut s, btag, Some(stag)).unwrap();
    // No rebuild happened: the collider key is unchanged.
    assert_eq!(s.bodies.get(btag.key).unwrap().collider_key.unwrap(), ck);
    assert_eq!(s.shapes.get(stag.key).unwrap().bodies().len(), 1);
}

#[test]
fn set_shape_with_stale_shape_detaches_and_reports_not_found() {
    let (mut s, _world, rb, _area, shape_server, _joint) = NPhysicsBackend::create_servers();
    let hs1 = shape_server.create_shape(&mut s, ShapeDesc::Sphere { radius: 1 });
    let s1 = hs1.shape_tag().unwrap();
    let hs2 = shape_server.create_shape(&mut s, ShapeDesc::Plane);
    let s2 = hs2.shape_tag().unwrap();
    let hb = rb.create_body(&mut s, &RigidBodyDesc::default());
    let btag = hb.rigid_body_tag().unwrap();
    rb.set_shape(&mut s, btag, Some(s1)).unwrap();
    // Make the second tag stale, then try to switch to it.
    assert_eq!(ShapeNpServer::drop_shape(s2, &mut s), Ok(()));
    assert_eq!(rb.set_shape(&mut s, btag, Some(s2)), Err(PhysicsError::NotFound));
    // The detachment had already happened.
    assert_eq!(rb.shape(&s, btag), None);
    assert!(!s.shapes.get(s1.key).unwrap().has_body(btag.key));
}

#[test]
fn shape_ops_on_stale_tags_are_safe() {
    let (mut s, _world, rb, _area, shape_server, _joint) = NPhysicsBackend::create_servers();
    let hs = shape_server.create_shape(&mut s, ShapeDesc::Sphere { radius: 1 });
    let stag = hs.shape_tag().unwrap();
    assert_eq!(ShapeNpServer::drop_shape(stag, &mut s), Ok(()));
    // Stale tag: update reports NotFound, a repeated drop stays a no-op.
    assert_eq!(
        shape_server.update_shape(&mut s, stag, ShapeDesc::Plane),
        Err(PhysicsError::NotFound)
    );
    assert_eq!(ShapeNpServer::drop_shape(stag, &mut s), Ok(()));
    let hb = rb.create_body(&mut s, &RigidBodyDesc::default());
    let btag = hb.rigid_body_tag().unwrap();
    assert_eq!(rb.set_shape(&mut s, btag, Some(stag)), Err(PhysicsError::NotFound));
}
