use narrowphase::collisions::{
    remove_ended_collisions, reset_collision_states, Collisions, EntityActivity,
};
use narrowphase::compute::build_contacts;
use narrowphase::constraints::{
    combine_coefficients, combine_rule, CoefficientCombine, ColliderItem, ContactConstraint,
    ContactSoftnessCoefficients, Friction, Restitution, RigidBody, RigidBodyItem,
    SoftnessCoefficients,
};
use narrowphase::contacts::{ContactManifold, ContactPoint, Contacts};
use narrowphase::margin::{max_contact_distance, scale_by_length_unit, UNBOUNDED_MARGIN};
use narrowphase::math::{floor_sqrt, Rotation, Vector};
use narrowphase::narrow_phase::{
    AnyCollider, NarrowPhase, NarrowPhaseConfig, NarrowPhasePlugin, NarrowPhaseSet,
    DEFAULT_CONTACT_TOLERANCE,
};

/// Length quanta in one length unit.
const UNIT: i64 = 1_000_000;

/// A sphere of the given radius (length quanta), centred on its position.
#[derive(Clone, Copy, Debug)]
struct Sphere {
    radius: i64,
}

impl AnyCollider for Sphere {
    fn contact_manifolds(
        &self,
        other: &Self,
        position1: Vector,
        _rotation1: Rotation,
        position2: Vector,
        _rotation2: Rotation,
        prediction_distance: u64,
    ) -> Vec<ContactManifold> {
        let dx = (position2.x - position1.x) as f64;
        let dy = (position2.y - position1.y) as f64;
        let dz = (position2.z - position1.z) as f64;
        let d = (dx * dx + dy * dy + dz * dz).sqrt();
        let separation = d - (self.radius + other.radius) as f64;
        if separation > prediction_distance as f64 || d == 0.0 {
            return Vec::new();
        }
        let n = (dx / d, dy / d, dz / d);
        let scale = |s: f64, r: i64| {
            Vector::new(
                (n.0 * s * r as f64).round() as i64,
                (n.1 * s * r as f64).round() as i64,
                (n.2 * s * r as f64).round() as i64,
            )
        };
        let point = ContactPoint {
            anchor1: scale(1.0, self.radius),
            anchor2: scale(-1.0, other.radius),
            normal: scale(1.0, UNIT),
            separation: separation.round() as i64,
            feature_id1: 0,
            feature_id2: 0,
            normal_impulse: 0,
            tangent_impulse: 0,
        };
        vec![ContactManifold { points: vec![point], normal: scale(1.0, UNIT) }]
    }
}

fn friction() -> Friction {
    Friction {
        dynamic_coefficient: 500_000,
        static_coefficient: 500_000,
        combine_rule: CoefficientCombine::Average,
    }
}

fn restitution() -> Restitution {
    Restitution { coefficient: 0, combine_rule: CoefficientCombine::Average }
}

fn body(entity: u64, rb: RigidBody, velocity: Vector) -> RigidBodyItem {
    RigidBodyItem {
        entity,
        rb,
        linear_velocity: velocity,
        is_sleeping: false,
        is_sensor: false,
        friction: friction(),
        restitution: restitution(),
        speculative_margin: None,
    }
}

fn sphere(entity: u64, x: i64, parent: Option<u64>) -> ColliderItem<Sphere> {
    ColliderItem {
        entity,
        shape: Sphere { radius: UNIT },
        position: Vector::new(x, 0, 0),
        rotation: Rotation { x: 0, y: 0, z: 0, w: UNIT },
        speculative_margin: None,
        friction: None,
        restitution: None,
        is_sensor: false,
        parent,
    }
}

fn softness() -> ContactSoftnessCoefficients {
    ContactSoftnessCoefficients {
        dynamic: SoftnessCoefficients { bias: 1, impulse_scale: 2, mass_scale: 3 },
        non_dynamic: SoftnessCoefficients { bias: 4, impulse_scale: 5, mass_scale: 6 },
    }
}

/// Two unit spheres at x = 0 and x = `x2`, each the collider of its own body.
fn world(x2: i64, v1: Vector, rb2: RigidBody) -> NarrowPhase<Sphere> {
    NarrowPhase::new(
        vec![sphere(1, 0, Some(11)), sphere(2, x2, Some(12))],
        vec![body(11, RigidBody::Dynamic, v1), body(12, rb2, Vector::zero())],
        Collisions::new(),
        NarrowPhaseConfig::default(),
        UNIT as u64,
    )
}

fn point_at(x: i64, feature: u32, normal_impulse: i64) -> ContactPoint {
    ContactPoint {
        anchor1: Vector::new(x, 0, 0),
        anchor2: Vector::new(x, 0, 0),
        normal: Vector::new(UNIT, 0, 0),
        separation: -1000,
        feature_id1: feature,
        feature_id2: feature,
        normal_impulse,
        tangent_impulse: normal_impulse / 2,
    }
}

fn record(entity1: u64, entity2: u64, current: bool) -> Contacts {
    Contacts {
        entity1,
        entity2,
        body_entity1: None,
        body_entity2: None,
        manifolds: Vec::new(),
        during_current_frame: current,
        during_previous_frame: false,
        is_sensor: false,
        total_normal_impulse: 7,
        total_tangent_impulse: 8,
    }
}

#[test]
fn overlapping_spheres_give_one_contact() {
    let np = world(1_900_000, Vector::zero(), RigidBody::Dynamic);
    let mut constraints: Vec<ContactConstraint> = Vec::new();
    let mut wake: Vec<u64> = Vec::new();
    let contacts = np
        .handle_pair(1, 2, &mut constraints, &mut wake, softness(), true, 16_667)
        .expect("the spheres overlap");
    assert_eq!(contacts.manifolds.len(), 1);
    assert_eq!(contacts.manifolds[0].points.len(), 1);
    let p = contacts.manifolds[0].points[0];
    assert_eq!(p.separation, -100_000);
    assert_eq!(p.normal, Vector::new(UNIT, 0, 0));
    assert!(contacts.during_current_frame);
    assert!(!contacts.is_sensor);
    assert_eq!(constraints.len(), 1);
    assert_eq!(constraints[0].points.len(), 1);
    assert_eq!(constraints[0].context.softness, softness().dynamic);
    assert_eq!(constraints[0].context.dynamic_friction, 500_000);
    assert!(wake.is_empty());
}

#[test]
fn closing_bodies_beyond_effective_margin_give_no_contact() {
    // Closing at 10 units/s for 0.01 s: the margin is 0.1, the gap 0.15.
    let v1 = Vector::new(10 * UNIT, 0, 0);
    let d = max_contact_distance(&v1, &Vector::zero(), UNBOUNDED_MARGIN, UNBOUNDED_MARGIN, 10_000, 5_000);
    assert_eq!(d, 100_000);
    let mut np = world(2_150_000, v1, RigidBody::Dynamic);
    let mut constraints: Vec<ContactConstraint> = Vec::new();
    let mut wake: Vec<u64> = Vec::new();
    assert!(np.handle_pair(1, 2, &mut constraints, &mut wake, softness(), true, 10_000).is_none());
    np.update(&vec![(1, 2)], &mut constraints, &mut wake, softness(), true, 10_000);
    assert_eq!(np.collisions.len(), 0);
    assert!(constraints.is_empty());
}

#[test]
fn closing_bodies_within_effective_margin_give_contact() {
    let v1 = Vector::new(10 * UNIT, 0, 0);
    let mut np = world(2_050_000, v1, RigidBody::Dynamic);
    let mut constraints: Vec<ContactConstraint> = Vec::new();
    let mut wake: Vec<u64> = Vec::new();
    np.update(&vec![(1, 2)], &mut constraints, &mut wake, softness(), true, 10_000);
    assert_eq!(np.collisions.len(), 1);
    assert_eq!(np.collisions.entry(0).manifolds[0].points[0].separation, 50_000);
}

#[test]
fn far_pair_leaves_store_unchanged() {
    let mut np = world(5 * UNIT, Vector::zero(), RigidBody::Dynamic);
    np.collisions.insert_collision_pair(record(3, 4, true));
    let mut constraints: Vec<ContactConstraint> = Vec::new();
    let mut wake: Vec<u64> = Vec::new();
    np.update(&vec![(1, 2)], &mut constraints, &mut wake, softness(), true, 16_667);
    assert_eq!(np.collisions.len(), 1);
    assert_eq!(np.collisions.entry(0).entity1, 3);
}

#[test]
fn speculative_margin_clamps_velocity() {
    // A 0.05 margin caps the distance moved in one step.
    let v1 = Vector::new(10 * UNIT, 0, 0);
    assert_eq!(max_contact_distance(&v1, &Vector::zero(), 50_000, UNBOUNDED_MARGIN, 10_000, 5_000), 50_000);
    assert_eq!(max_contact_distance(&v1, &Vector::zero(), 50_000, 50_000, 10_000, 5_000), 50_000);
}

#[test]
fn max_contact_distance_grows_with_speed_and_respects_tolerance() {
    let mut last = 0;
    for speed in [0i64, 1, 100, 10_000, 1_000_000, 20 * UNIT] {
        let d = max_contact_distance(
            &Vector::new(speed, 0, 0),
            &Vector::new(-speed, 0, 0),
            UNBOUNDED_MARGIN,
            UNBOUNDED_MARGIN,
            10_000,
            5_000,
        );
        assert!(d >= 5_000);
        assert!(d >= last);
        last = d;
    }
    assert_eq!(last, 400_000);
}

#[test]
fn pair_order_gives_equivalent_contacts() {
    let np = world(1_900_000, Vector::zero(), RigidBody::Dynamic);
    let mut constraints: Vec<ContactConstraint> = Vec::new();
    let mut wake: Vec<u64> = Vec::new();
    let ab = np.handle_pair(1, 2, &mut constraints, &mut wake, softness(), true, 16_667).unwrap();
    let ba = np.handle_pair(2, 1, &mut constraints, &mut wake, softness(), true, 16_667).unwrap();
    let p = ab.manifolds[0].points[0];
    let q = ba.manifolds[0].points[0];
    assert_eq!(ab.manifolds[0].points.len(), ba.manifolds[0].points.len());
    assert_eq!(p.separation, q.separation);
    assert_eq!(p.normal.x, -q.normal.x);
    assert_eq!(ba.entity1, 2);
}

#[test]
fn prune_keeps_only_current_records() {
    let mut store = Collisions::new();
    store.insert_collision_pair(record(1, 2, true));
    store.insert_collision_pair(record(3, 4, false));
    store.insert_collision_pair(record(5, 6, true));
    remove_ended_collisions(&mut store);
    assert_eq!(store.len(), 2);
    assert_eq!(store.entry(0).entity1, 1);
    assert_eq!(store.entry(1).entity1, 5);
    for i in 0..store.len() {
        assert!(store.entry(i).during_current_frame);
    }
}

#[test]
fn reset_marks_records_by_activity() {
    let mut store = Collisions::new();
    store.insert_collision_pair(record(1, 2, true));
    store.insert_collision_pair(record(3, 4, true));
    store.insert_collision_pair(record(5, 9, true));
    let entities = vec![
        EntityActivity { entity: 1, rigid_body: Some(RigidBody::Static), is_sleeping: false },
        EntityActivity { entity: 2, rigid_body: Some(RigidBody::Dynamic), is_sleeping: true },
        EntityActivity { entity: 3, rigid_body: Some(RigidBody::Dynamic), is_sleeping: false },
        EntityActivity { entity: 4, rigid_body: None, is_sleeping: false },
        EntityActivity { entity: 5, rigid_body: Some(RigidBody::Static), is_sleeping: false },
    ];
    reset_collision_states(&mut store, &entities);
    // Static and sleeping: stays in contact.
    assert!(store.entry(0).during_current_frame);
    assert!(store.entry(0).during_previous_frame);
    assert_eq!(store.entry(0).total_normal_impulse, 0);
    assert_eq!(store.entry(0).total_tangent_impulse, 0);
    // An active body: must be detected again.
    assert!(!store.entry(1).during_current_frame);
    assert!(store.entry(1).during_previous_frame);
    // A missing entity: ends.
    assert!(!store.entry(2).during_current_frame);
    remove_ended_collisions(&mut store);
    assert_eq!(store.len(), 1);
    assert_eq!(store.entry(0).entity1, 1);
}

#[test]
fn resting_pair_persists_across_frames() {
    let mut store = Collisions::new();
    store.insert_collision_pair(record(1, 2, true));
    let entities = vec![
        EntityActivity { entity: 1, rigid_body: Some(RigidBody::Static), is_sleeping: false },
        EntityActivity { entity: 2, rigid_body: Some(RigidBody::Dynamic), is_sleeping: true },
    ];
    let plugin = NarrowPhasePlugin::new(true);
    for _ in 0..3 {
        plugin.begin_step(&mut store, &entities);
        plugin.end_step(&mut store);
        assert_eq!(store.len(), 1);
        assert!(store.entry(0).during_current_frame);
    }
}

#[test]
fn plugin_without_lifecycle_leaves_store_alone() {
    let mut store = Collisions::new();
    store.insert_collision_pair(record(1, 2, false));
    let plugin = NarrowPhasePlugin::new(false);
    plugin.begin_step(&mut store, &Vec::new());
    plugin.end_step(&mut store);
    assert_eq!(store.len(), 1);
    assert_eq!(store.entry(0).total_normal_impulse, 7);
}

#[test]
fn sensor_pair_yields_no_constraints() {
    let mut np = world(1_900_000, Vector::zero(), RigidBody::Dynamic);
    np.colliders[1].is_sensor = true;
    let mut constraints: Vec<ContactConstraint> = Vec::new();
    let mut wake: Vec<u64> = Vec::new();
    let c = np.handle_pair(1, 2, &mut constraints, &mut wake, softness(), true, 16_667).unwrap();
    assert!(c.is_sensor);
    assert!(constraints.is_empty());
    np.update(&vec![(1, 2)], &mut constraints, &mut wake, softness(), true, 16_667);
    assert_eq!(np.collisions.len(), 1);
    assert!(constraints.is_empty());
}

#[test]
fn collider_without_body_yields_no_constraints() {
    let np = NarrowPhase::new(
        vec![sphere(1, 0, Some(11)), sphere(2, 1_900_000, None)],
        vec![body(11, RigidBody::Dynamic, Vector::zero())],
        Collisions::new(),
        NarrowPhaseConfig::default(),
        UNIT as u64,
    );
    let mut constraints: Vec<ContactConstraint> = Vec::new();
    let mut wake: Vec<u64> = Vec::new();
    let c = np.handle_pair(1, 2, &mut constraints, &mut wake, softness(), true, 16_667).unwrap();
    assert!(c.is_sensor);
    assert_eq!(c.body_entity2, None);
    assert!(constraints.is_empty());
}

#[test]
fn missing_colliders_give_nothing() {
    let np = world(1_900_000, Vector::zero(), RigidBody::Dynamic);
    let mut constraints: Vec<ContactConstraint> = Vec::new();
    let mut wake: Vec<u64> = Vec::new();
    assert!(np.handle_pair(1, 7, &mut constraints, &mut wake, softness(), true, 16_667).is_none());
}

#[test]
fn static_pair_is_reported_without_constraints() {
    let mut np = world(1_900_000, Vector::zero(), RigidBody::Static);
    np.bodies[0].rb = RigidBody::Kinematic;
    let mut constraints: Vec<ContactConstraint> = Vec::new();
    let mut wake: Vec<u64> = Vec::new();
    assert!(np.handle_pair(1, 2, &mut constraints, &mut wake, softness(), true, 16_667).is_some());
    assert!(constraints.is_empty());
}

#[test]
fn sleeping_body_is_woken_and_softness_is_non_dynamic() {
    let mut np = world(1_900_000, Vector::zero(), RigidBody::Dynamic);
    np.bodies[1].is_sleeping = true;
    np.bodies[0].rb = RigidBody::Kinematic;
    let mut constraints: Vec<ContactConstraint> = Vec::new();
    let mut wake: Vec<u64> = Vec::new();
    np.handle_pair(1, 2, &mut constraints, &mut wake, softness(), true, 16_667).unwrap();
    assert_eq!(wake, vec![12]);
    assert_eq!(constraints.len(), 1);
    assert_eq!(constraints[0].context.softness, softness().non_dynamic);
}

#[test]
fn warm_start_carries_impulses_of_matched_points() {
    let previous = Contacts {
        manifolds: vec![ContactManifold {
            points: vec![point_at(0, 1, 40), point_at(500_000, 2, 60)],
            normal: Vector::new(UNIT, 0, 0),
        }],
        ..record(1, 2, true)
    };
    let fresh = vec![ContactManifold {
        points: vec![point_at(10, 9, 0), point_at(900_000, 2, 0), point_at(300_000, 8, 0)],
        normal: Vector::new(UNIT, 0, 0),
    }];
    let c = build_contacts(1, 2, None, None, false, &fresh, Some(&previous), true, 100_000)
        .unwrap();
    let pts = &c.manifolds[0].points;
    // Near the first old point, on the feature of the second, and neither.
    assert_eq!(pts[0].normal_impulse, 40);
    assert_eq!(pts[0].tangent_impulse, 20);
    assert_eq!(pts[1].normal_impulse, 60);
    assert_eq!(pts[2].normal_impulse, 0);
    assert_eq!(c.total_normal_impulse, 100);
    assert_eq!(c.total_tangent_impulse, 50);
    let cold = build_contacts(1, 2, None, None, false, &fresh, Some(&previous), false, 100_000)
        .unwrap();
    for p in cold.manifolds[0].points.iter() {
        assert_eq!(p.normal_impulse, 0);
        assert_eq!(p.tangent_impulse, 0);
    }
    assert_eq!(cold.total_normal_impulse, 0);
}

#[test]
fn backend_manifolds_are_kept_and_empty_result_is_none() {
    let mut far = point_at(0, 1, 0);
    far.separation = 6_000;
    let ms = vec![
        ContactManifold { points: vec![far], normal: Vector::new(UNIT, 0, 0) },
        ContactManifold { points: Vec::new(), normal: Vector::new(0, UNIT, 0) },
    ];
    let c = build_contacts(1, 2, None, None, false, &ms, None, true, 100_000).unwrap();
    assert_eq!(c.manifolds.len(), 2);
    assert_eq!(c.manifolds[0].points.len(), 1);
    assert_eq!(c.manifolds[0].points[0].separation, 6_000);
    assert_eq!(c.manifolds[1].points.len(), 0);
    assert_eq!(c.manifolds[1].normal, Vector::new(0, UNIT, 0));
    let pointless = vec![ContactManifold { points: Vec::new(), normal: Vector::zero() }];
    assert!(build_contacts(1, 2, None, None, false, &pointless, None, true, 100_000).is_some());
    assert!(build_contacts(1, 2, None, None, false, &Vec::new(), None, true, 100_000).is_none());
}

#[test]
fn last_matching_previous_manifold_wins() {
    let previous = Contacts {
        manifolds: vec![
            ContactManifold { points: vec![point_at(0, 1, 40)], normal: Vector::zero() },
            ContactManifold { points: vec![point_at(900_000, 1, 70)], normal: Vector::zero() },
        ],
        ..record(1, 2, true)
    };
    let fresh = vec![ContactManifold { points: vec![point_at(0, 1, 0)], normal: Vector::zero() }];
    let c = build_contacts(1, 2, None, None, false, &fresh, Some(&previous), true, 100_000).unwrap();
    assert_eq!(c.manifolds[0].points[0].normal_impulse, 70);
    assert_eq!(c.manifolds[0].points[0].tangent_impulse, 35);
}

#[test]
fn more_than_four_backend_manifolds_skip_matching() {
    let previous = Contacts {
        manifolds: vec![ContactManifold { points: vec![point_at(0, 1, 40)], normal: Vector::zero() }],
        ..record(1, 2, true)
    };
    let mut fresh = vec![ContactManifold { points: vec![point_at(0, 1, 0)], normal: Vector::zero() }];
    for _ in 0..4 {
        fresh.push(ContactManifold { points: Vec::new(), normal: Vector::zero() });
    }
    let c = build_contacts(1, 2, None, None, false, &fresh, Some(&previous), true, 100_000).unwrap();
    assert_eq!(c.manifolds.len(), 5);
    assert_eq!(c.manifolds[0].points[0].normal_impulse, 0);
    assert_eq!(c.total_normal_impulse, 0);
    fresh.pop();
    let d = build_contacts(1, 2, None, None, false, &fresh, Some(&previous), true, 100_000).unwrap();
    assert_eq!(d.manifolds[0].points[0].normal_impulse, 40);
}

#[test]
fn bounded_margin_distance_is_monotone_in_speed() {
    // Margin 10 quanta over one second, the other body at rest.
    let slow = max_contact_distance(&Vector::new(10, 0, 0), &Vector::zero(), 10, 10, 1_000_000, 0);
    let fast = max_contact_distance(&Vector::new(8, 8, 0), &Vector::zero(), 10, 10, 1_000_000, 0);
    assert_eq!(slow, 10);
    assert_eq!(fast, 10);
    assert!(fast >= slow);
    let slower = max_contact_distance(&Vector::new(0, 6, 0), &Vector::zero(), 10, 10, 1_000_000, 0);
    assert_eq!(slower, 6);
}

#[test]
fn run_step_resets_updates_and_prunes() {
    let mut np = world(1_900_000, Vector::zero(), RigidBody::Dynamic);
    np.collisions.insert_collision_pair(record(1, 7, true));
    let entities = vec![
        EntityActivity { entity: 1, rigid_body: None, is_sleeping: false },
        EntityActivity { entity: 2, rigid_body: None, is_sleeping: false },
    ];
    let plugin = NarrowPhasePlugin::new(true);
    let mut constraints: Vec<ContactConstraint> = Vec::new();
    let mut wake: Vec<u64> = Vec::new();
    plugin.run_step(&mut np, &entities, &vec![(1, 2)], &mut constraints, &mut wake, softness(), true, 16_667);
    assert_eq!(np.collisions.len(), 1);
    assert_eq!(np.collisions.entry(0).entity1, 1);
    assert_eq!(np.collisions.entry(0).entity2, 2);
    assert_eq!(constraints.len(), 1);
}

#[test]
fn update_clears_old_constraints() {
    let mut np = world(5 * UNIT, Vector::zero(), RigidBody::Dynamic);
    let mut constraints: Vec<ContactConstraint> = Vec::new();
    let mut wake: Vec<u64> = Vec::new();
    let near = world(1_900_000, Vector::zero(), RigidBody::Dynamic);
    near.handle_pair(1, 2, &mut constraints, &mut wake, softness(), true, 16_667).unwrap();
    assert_eq!(constraints.len(), 1);
    np.update(&vec![(1, 2)], &mut constraints, &mut wake, softness(), true, 16_667);
    assert!(constraints.is_empty());
}

#[test]
fn previous_frame_flag_is_copied_from_earlier_record() {
    let previous = Contacts { during_previous_frame: true, ..record(2, 1, true) };
    let ms = vec![ContactManifold { points: vec![point_at(0, 1, 0)], normal: Vector::zero() }];
    let c = build_contacts(1, 2, None, None, true, &ms, Some(&previous), true, 100_000).unwrap();
    assert!(c.during_previous_frame);
    assert!(c.is_sensor);
    let d = build_contacts(1, 2, None, None, false, &ms, None, true, 100_000).unwrap();
    assert!(!d.during_previous_frame);
}

#[test]
fn store_replaces_a_pair_stored_in_reverse_order() {
    let mut store = Collisions::new();
    assert!(store.insert_collision_pair(record(1, 2, false)).is_none());
    let old = store.insert_collision_pair(record(2, 1, true)).unwrap();
    assert_eq!(old.entity1, 1);
    assert_eq!(store.len(), 1);
    assert_eq!(store.entry(0).entity1, 2);
    assert!(store.get(1, 2).is_some());
    assert!(store.get(2, 1).is_some());
    assert!(store.get(1, 3).is_none());
}

#[test]
fn coefficients_combine_by_winning_rule() {
    assert_eq!(combine_coefficients(300_000, 500_000, CoefficientCombine::Average), 400_000);
    assert_eq!(combine_coefficients(300_000, 500_000, CoefficientCombine::Min), 300_000);
    assert_eq!(combine_coefficients(400_000, 500_000, CoefficientCombine::Multiply), 200_000);
    assert_eq!(combine_coefficients(300_000, 500_000, CoefficientCombine::Max), 500_000);
    assert_eq!(combine_rule(CoefficientCombine::Min, CoefficientCombine::Multiply), CoefficientCombine::Multiply);
    assert_eq!(combine_rule(CoefficientCombine::Max, CoefficientCombine::Average), CoefficientCombine::Max);
}

#[test]
fn config_defaults_and_scaling() {
    let c = NarrowPhaseConfig::default();
    assert_eq!(c.default_speculative_margin, UNBOUNDED_MARGIN);
    assert_eq!(c.contact_tolerance, DEFAULT_CONTACT_TOLERANCE);
    assert_eq!(scale_by_length_unit(5_000, 1_000_000), 5_000);
    assert_eq!(scale_by_length_unit(5_000, 2_000), 10);
    assert_eq!(scale_by_length_unit(UNBOUNDED_MARGIN, 3), UNBOUNDED_MARGIN);
    let np = world(0, Vector::zero(), RigidBody::Dynamic);
    assert_eq!(np.contact_tolerance, 5_000);
    assert_eq!(np.default_speculative_margin, UNBOUNDED_MARGIN);
}

#[test]
fn set_config_rescales() {
    let mut np = world(0, Vector::zero(), RigidBody::Dynamic);
    np.set_config(NarrowPhaseConfig { default_speculative_margin: 200_000, contact_tolerance: 10_000 });
    assert_eq!(np.default_speculative_margin, 200_000);
    assert_eq!(np.contact_tolerance, 10_000);
}

#[test]
fn integer_square_root() {
    assert_eq!(floor_sqrt(0), 0);
    assert_eq!(floor_sqrt(15), 3);
    assert_eq!(floor_sqrt(16), 4);
    assert_eq!(floor_sqrt(u128::MAX), u64::MAX);
    assert_eq!(Vector::new(3, 4, 12).length(), 13);
    let clamped = Vector::new(30, 40, 0).clamp_length_max(5);
    assert_eq!(clamped, Vector::new(3, 4, 0));
}

#[test]
fn stages_are_distinct() {
    assert_ne!(NarrowPhaseSet::First, NarrowPhaseSet::Last);
    assert_ne!(NarrowPhaseSet::CollectCollisions, NarrowPhaseSet::PostProcess);
}

#[test]
fn reset_reads_the_attached_bodies() {
    let mut store = Collisions::new();
    store.insert_collision_pair(Contacts {
        body_entity1: Some(11),
        body_entity2: Some(12),
        ..record(1, 2, true)
    });
    // The colliders have no activity of their own; their bodies are both resting.
    let entities = vec![
        EntityActivity { entity: 1, rigid_body: None, is_sleeping: false },
        EntityActivity { entity: 2, rigid_body: None, is_sleeping: false },
        EntityActivity { entity: 11, rigid_body: Some(RigidBody::Static), is_sleeping: false },
        EntityActivity { entity: 12, rigid_body: Some(RigidBody::Dynamic), is_sleeping: true },
    ];
    reset_collision_states(&mut store, &entities);
    assert!(store.entry(0).during_current_frame);
    let active = vec![
        EntityActivity { entity: 11, rigid_body: Some(RigidBody::Static), is_sleeping: false },
        EntityActivity { entity: 12, rigid_body: Some(RigidBody::Dynamic), is_sleeping: false },
    ];
    reset_collision_states(&mut store, &active);
    assert!(!store.entry(0).during_current_frame);
}

#[test]
fn owning_step_prunes_a_pair_of_active_bodies() {
    let mut np = world(5 * UNIT, Vector::zero(), RigidBody::Dynamic);
    np.collisions.insert_collision_pair(Contacts {
        body_entity1: Some(11),
        body_entity2: Some(12),
        ..record(1, 2, true)
    });
    let entities = vec![
        EntityActivity { entity: 11, rigid_body: Some(RigidBody::Dynamic), is_sleeping: false },
        EntityActivity { entity: 12, rigid_body: Some(RigidBody::Dynamic), is_sleeping: false },
    ];
    let mut constraints: Vec<ContactConstraint> = Vec::new();
    let mut wake: Vec<u64> = Vec::new();
    NarrowPhasePlugin::new(true).run_step(&mut np, &entities, &Vec::new(), &mut constraints, &mut wake, softness(), true, 16_667);
    assert_eq!(np.collisions.len(), 0);
}
