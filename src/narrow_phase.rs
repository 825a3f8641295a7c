//! The narrow phase: computes the contacts of each candidate pair of
//! colliders, stores them, and generates contact constraints for them.
use crate::collisions::{
    current_records, find_pair, has_current, has_pair, inserted, lemma_current_survives_prune,
    lemma_inserted_keeps_current, reset_record, remove_ended_collisions, reset_collision_states, Collisions, EntityActivity,
};
use crate::compute::{build_contacts, is_built_contacts};
use crate::constraints::{
    appends_constraints, combine_coefficients, combine_rule, combined, push_constraints,
    winning_rule, ColliderItem, ConstraintContext, ContactConstraint,
    ContactSoftnessCoefficients, Friction, Restitution, RigidBody, RigidBodyItem,
};
use crate::contacts::{ContactManifold, Contacts, ManifoldModel};
use crate::margin::{
    clamped_velocity, lemma_max_contact_distance_symmetric, speed_limit,
    max_contact_distance, max_contact_distance_of, resolve_speculative_margin, resolved_margin,
    scale_by_length_unit, scaled_distance, UNBOUNDED_MARGIN,
};
use crate::math::{Rotation, Vector};
use vstd::prelude::*;

verus! {

/// Default contact tolerance: 0.005 length units.
pub const DEFAULT_CONTACT_TOLERANCE: u64 = 5_000;

/// A shape that the geometry backend can compute contacts for.
pub trait AnyCollider {
    /// The contact manifolds between `self` at `position1`, `rotation1` and
    /// `other` at `position2`, `rotation2`, with the points that lie at most
    /// `prediction_distance` apart.
    fn contact_manifolds(
        &self,
        other: &Self,
        position1: Vector,
        rotation1: Rotation,
        position2: Vector,
        rotation2: Rotation,
        prediction_distance: u64,
    ) -> Vec<ContactManifold>;
}

/// Configuration of the narrow phase. Distances are in millionths of a
/// length unit.
#[derive(Clone, Copy, Debug, PartialEq, Eq, Structural)]
pub struct NarrowPhaseConfig {
    /// The largest speculative margin of a collider that has none of its own
    /// and whose body has none; `UNBOUNDED_MARGIN` for no limit.
    pub default_speculative_margin: u64,
    /// Colliders this close are in contact even where they are apart.
    pub contact_tolerance: u64,
}

impl Default for NarrowPhaseConfig {
    fn default() -> (r: Self)
        ensures
            r.default_speculative_margin == UNBOUNDED_MARGIN,
            r.contact_tolerance == DEFAULT_CONTACT_TOLERANCE,
    {
        NarrowPhaseConfig {
            default_speculative_margin: UNBOUNDED_MARGIN,
            contact_tolerance: DEFAULT_CONTACT_TOLERANCE,
        }
    }
}

/// The stages of a narrow-phase pass, in the order in which they run.
#[derive(Clone, Copy, Debug, PartialEq, Eq, Hash, Structural)]
pub enum NarrowPhaseSet {
    /// Runs first.
    First,
    /// Computes contacts and stores them.
    CollectCollisions,
    /// Lets the user filter and modify the stored contacts.
    PostProcess,
    /// Runs last.
    Last,
}

/// The first collider of `s` with entity `e`.
#[verifier::opaque]
pub open spec fn collider_index<C>(s: Seq<ColliderItem<C>>, e: u64) -> Option<int> {
    if exists|i: int|
        0 <= i < s.len() && (#[trigger] s[i]).entity == e && forall|k: int|
            0 <= k < i ==> (#[trigger] s[k]).entity != e {
        Some(
            choose|i: int|
                0 <= i < s.len() && (#[trigger] s[i]).entity == e && forall|k: int|
                    0 <= k < i ==> (#[trigger] s[k]).entity != e,
        )
    } else {
        None
    }
}

/// The first body of `s` with entity `e`.
#[verifier::opaque]
pub open spec fn body_index(s: Seq<RigidBodyItem>, e: u64) -> Option<int> {
    if exists|i: int|
        0 <= i < s.len() && (#[trigger] s[i]).entity == e && forall|k: int|
            0 <= k < i ==> (#[trigger] s[k]).entity != e {
        Some(
            choose|i: int|
                0 <= i < s.len() && (#[trigger] s[i]).entity == e && forall|k: int|
                    0 <= k < i ==> (#[trigger] s[k]).entity != e,
        )
    } else {
        None
    }
}

pub open spec fn is_dynamic(b: RigidBodyItem) -> bool {
    b.rb == RigidBody::Dynamic
}

/// Static or sleeping.
pub open spec fn is_inactive(b: RigidBodyItem) -> bool {
    b.rb == RigidBody::Static || b.is_sleeping
}

/// No constraint comes of a pair whose bodies are both inactive, or where
/// either collider or body is a sensor.
pub open spec fn skips_constraints<C>(
    b1: RigidBodyItem,
    b2: RigidBodyItem,
    c1: ColliderItem<C>,
    c2: ColliderItem<C>,
) -> bool {
    (is_inactive(b1) && is_inactive(b2)) || c1.is_sensor || b1.is_sensor || c2.is_sensor
        || b2.is_sensor
}

/// The wake actions after a pair of an active and a sleeping body: the
/// sleeping body is woken.
pub open spec fn woken(b1: RigidBodyItem, b2: RigidBodyItem, wake: Seq<u64>) -> Seq<u64> {
    if b1.is_sleeping {
        wake.push(b1.entity)
    } else if b2.is_sleeping {
        wake.push(b2.entity)
    } else {
        wake
    }
}

pub open spec fn friction_of<C>(c: ColliderItem<C>, b: RigidBodyItem) -> Friction {
    match c.friction {
        Some(f) => f,
        None => b.friction,
    }
}

pub open spec fn restitution_of<C>(c: ColliderItem<C>, b: RigidBodyItem) -> Restitution {
    match c.restitution {
        Some(r) => r,
        None => b.restitution,
    }
}

/// What the constraints of a pair share.
pub open spec fn expected_context<C>(
    b1: RigidBodyItem,
    b2: RigidBodyItem,
    c1: ColliderItem<C>,
    c2: ColliderItem<C>,
    softness: ContactSoftnessCoefficients,
    speculative_margin: u64,
    warm_start: bool,
    delta_micros: u32,
) -> ConstraintContext {
    let f1 = friction_of(c1, b1);
    let f2 = friction_of(c2, b2);
    let r1 = restitution_of(c1, b1);
    let r2 = restitution_of(c2, b2);
    let fr = winning_rule(f1.combine_rule, f2.combine_rule);
    ConstraintContext {
        entity1: c1.entity,
        entity2: c2.entity,
        body1: b1.entity,
        body2: b2.entity,
        dynamic_friction: combined(
            f1.dynamic_coefficient as int,
            f2.dynamic_coefficient as int,
            fr,
        ) as u64,
        static_friction: combined(
            f1.static_coefficient as int,
            f2.static_coefficient as int,
            fr,
        ) as u64,
        restitution: combined(
            r1.coefficient as int,
            r2.coefficient as int,
            winning_rule(r1.combine_rule, r2.combine_rule),
        ) as u64,
        softness: if is_dynamic(b1) && is_dynamic(b2) {
            softness.dynamic
        } else {
            softness.non_dynamic
        },
        speculative_margin,
        warm_start,
        delta_micros,
    }
}

/// The narrow phase over the colliders and bodies of one step.
pub struct NarrowPhase<C> {
    pub colliders: Vec<ColliderItem<C>>,
    pub bodies: Vec<RigidBodyItem>,
    /// Contacts found by the narrow phase.
    pub collisions: Collisions,
    pub config: NarrowPhaseConfig,
    /// Length quanta in one length unit.
    pub length_unit: u64,
    /// The configured default margin, in length quanta.
    pub default_speculative_margin: u64,
    /// The configured contact tolerance, in length quanta.
    pub contact_tolerance: u64,
}

impl<C: AnyCollider> NarrowPhase<C> {
    pub open spec fn wf(&self) -> bool {
        &&& self.collisions.wf()
        &&& self.default_speculative_margin == scaled_distance(
            self.config.default_speculative_margin as int,
            self.length_unit as int,
        )
        &&& self.contact_tolerance == scaled_distance(
            self.config.contact_tolerance as int,
            self.length_unit as int,
        )
        &&& forall|i: int|
            0 <= i < self.bodies@.len() ==> (#[trigger] self.bodies@[i]).linear_velocity.wf()
    }

    /// The body that collider `c` is attached to, if it is among the bodies.
    pub open spec fn body_of(&self, c: ColliderItem<C>) -> Option<RigidBodyItem> {
        match c.parent {
            Some(p) => match body_index(self.bodies@, p) {
                Some(i) => Some(self.bodies@[i]),
                None => None,
            },
            None => None,
        }
    }

    /// The distance (length quanta) up to which contacts between `c1` and
    /// `c2` are detected.
    pub open spec fn pair_max_distance(
        &self,
        c1: ColliderItem<C>,
        c2: ColliderItem<C>,
        delta_micros: u32,
    ) -> int {
        let b1 = self.body_of(c1);
        let b2 = self.body_of(c2);
        let v1 = match b1 {
            Some(b) => b.linear_velocity,
            None => Vector { x: 0, y: 0, z: 0 },
        };
        let v2 = match b2 {
            Some(b) => b.linear_velocity,
            None => Vector { x: 0, y: 0, z: 0 },
        };
        let m1 = resolved_margin(
            c1.speculative_margin,
            match b1 {
                Some(b) => b.speculative_margin,
                None => None,
            },
            self.default_speculative_margin,
        );
        let m2 = resolved_margin(
            c2.speculative_margin,
            match b2 {
                Some(b) => b.speculative_margin,
                None => None,
            },
            self.default_speculative_margin,
        );
        max_contact_distance_of(
            v1,
            v2,
            m1 as int,
            m2 as int,
            delta_micros as int,
            self.contact_tolerance as int,
        )
    }

    /// Either collider is a sensor or lacks a rigid body.
    pub open spec fn pair_is_sensor(&self, c1: ColliderItem<C>, c2: ColliderItem<C>) -> bool {
        c1.is_sensor || c2.is_sensor || self.body_of(c1) is None || self.body_of(c2) is None
    }

    /// What generating the constraints of `contacts` does to the constraint
    /// list and to the wake actions.
    pub open spec fn generates(
        &self,
        contacts: Contacts,
        constraints_before: Seq<ContactConstraint>,
        constraints_after: Seq<ContactConstraint>,
        wake_before: Seq<u64>,
        wake_after: Seq<u64>,
        b1: RigidBodyItem,
        b2: RigidBodyItem,
        c1: ColliderItem<C>,
        c2: ColliderItem<C>,
        softness: ContactSoftnessCoefficients,
        warm_start: bool,
        delta_micros: u32,
    ) -> bool {
        if skips_constraints(b1, b2, c1, c2) {
            constraints_after == constraints_before && wake_after == wake_before
        } else {
            &&& wake_after == woken(b1, b2, wake_before)
            &&& appends_constraints(
                constraints_before,
                constraints_after,
                contacts,
                expected_context(
                    b1,
                    b2,
                    c1,
                    c2,
                    softness,
                    self.default_speculative_margin,
                    warm_start,
                    delta_micros,
                ),
            )
        }
    }

    /// A narrow phase over the given colliders, bodies and stored contacts,
    /// with `length_unit` length quanta in one length unit.
    pub fn new(
        colliders: Vec<ColliderItem<C>>,
        bodies: Vec<RigidBodyItem>,
        collisions: Collisions,
        config: NarrowPhaseConfig,
        length_unit: u64,
    ) -> (r: Self)
        requires
            collisions.wf(),
            forall|i: int| 0 <= i < bodies@.len() ==> (#[trigger] bodies@[i]).linear_velocity.wf(),
        ensures
            r.wf(),
            r.colliders == colliders,
            r.bodies == bodies,
            r.collisions == collisions,
            r.config == config,
            r.length_unit == length_unit,
    {
        let default_speculative_margin = scale_by_length_unit(
            config.default_speculative_margin,
            length_unit,
        );
        let contact_tolerance = scale_by_length_unit(config.contact_tolerance, length_unit);
        NarrowPhase {
            colliders,
            bodies,
            collisions,
            config,
            length_unit,
            default_speculative_margin,
            contact_tolerance,
        }
    }

    /// Replaces the configuration and rescales the distances it gives.
    pub fn set_config(&mut self, config: NarrowPhaseConfig)
        requires
            old(self).wf(),
        ensures
            final(self).wf(),
            final(self).config == config,
            final(self).colliders == old(self).colliders,
            final(self).bodies == old(self).bodies,
            final(self).collisions == old(self).collisions,
            final(self).length_unit == old(self).length_unit,
    {
        self.default_speculative_margin = scale_by_length_unit(
            config.default_speculative_margin,
            self.length_unit,
        );
        self.contact_tolerance = scale_by_length_unit(config.contact_tolerance, self.length_unit);
        self.config = config;
    }

    fn find_collider(&self, e: u64) -> (r: Option<usize>)
        ensures
            match r {
                Some(i) => i < self.colliders@.len() && self.colliders@[i as int].entity == e
                    && collider_index(self.colliders@, e) == Some(i as int),
                None => collider_index(self.colliders@, e) == None::<int>,
            },
    {
        let ghost s = self.colliders@;
        let mut i: usize = 0;
        while i < self.colliders.len()
            invariant
                i <= s.len(),
                s == self.colliders@,
                forall|k: int| 0 <= k < i ==> (#[trigger] s[k]).entity != e,
            decreases s.len() - i,
        {
            if self.colliders[i].entity == e {
                proof {
                    reveal(collider_index);
                    assert(0 <= i < s.len() && s[i as int].entity == e && forall|k: int|
                        0 <= k < i ==> (#[trigger] s[k]).entity != e);
                    let j = choose|j: int|
                        0 <= j < s.len() && (#[trigger] s[j]).entity == e && forall|k: int|
                            0 <= k < j ==> (#[trigger] s[k]).entity != e;
                    if j < i {
                        assert(s[j].entity != e);
                    } else if j > i {
                        assert(s[i as int].entity != e);
                    }
                }
                return Some(i);
            }
            i += 1;
        }
        proof {
            reveal(collider_index);
            reveal(body_index);
        }
        None
    }

    fn find_body(&self, e: u64) -> (r: Option<usize>)
        ensures
            match r {
                Some(i) => i < self.bodies@.len() && self.bodies@[i as int].entity == e
                    && body_index(self.bodies@, e) == Some(i as int),
                None => body_index(self.bodies@, e) == None::<int>,
            },
    {
        let ghost s = self.bodies@;
        let mut i: usize = 0;
        while i < self.bodies.len()
            invariant
                i <= s.len(),
                s == self.bodies@,
                forall|k: int| 0 <= k < i ==> (#[trigger] s[k]).entity != e,
            decreases s.len() - i,
        {
            if self.bodies[i].entity == e {
                proof {
                    reveal(body_index);
                    assert(0 <= i < s.len() && s[i as int].entity == e && forall|k: int|
                        0 <= k < i ==> (#[trigger] s[k]).entity != e);
                    let j = choose|j: int|
                        0 <= j < s.len() && (#[trigger] s[j]).entity == e && forall|k: int|
                            0 <= k < j ==> (#[trigger] s[k]).entity != e;
                    if j < i {
                        assert(s[j].entity != e);
                    } else if j > i {
                        assert(s[i as int].entity != e);
                    }
                }
                return Some(i);
            }
            i += 1;
        }
        proof {
            reveal(collider_index);
            reveal(body_index);
        }
        None
    }

    fn parent_body(&self, c: &ColliderItem<C>) -> (r: Option<&RigidBodyItem>)
        requires
            self.wf(),
        ensures
            r is Some ==> r.unwrap().linear_velocity.wf(),
            match r {
                Some(b) => self.body_of(*c) == Some(*b),
                None => self.body_of(*c) == None::<RigidBodyItem>,
            },
    {
        match c.parent {
            Some(p) => match self.find_body(p) {
                Some(i) => Some(&self.bodies[i]),
                None => None,
            },
            None => None,
        }
    }

    /// Generates the constraints of `contacts` between `body1`, `body2` and
    /// their colliders `collider1`, `collider2`, and appends them to
    /// `constraints`: one for each manifold that has a point closer than the
    /// default speculative margin. Nothing is generated where both bodies are
    /// static or sleeping, or where a collider or a body is a sensor.
    /// Otherwise a sleeping body is woken: its entity joins `wake`.
    pub fn generate_constraints(
        &self,
        contacts: &Contacts,
        constraints: &mut Vec<ContactConstraint>,
        wake: &mut Vec<u64>,
        body1: &RigidBodyItem,
        body2: &RigidBodyItem,
        collider1: &ColliderItem<C>,
        collider2: &ColliderItem<C>,
        contact_softness: ContactSoftnessCoefficients,
        warm_start: bool,
        delta_micros: u32,
    )
        ensures
            self.generates(
                *contacts,
                old(constraints)@,
                final(constraints)@,
                old(wake)@,
                final(wake)@,
                *body1,
                *body2,
                *collider1,
                *collider2,
                contact_softness,
                warm_start,
                delta_micros,
            ),
    {
        let inactive1 = body1.rb == RigidBody::Static || body1.is_sleeping;
        let inactive2 = body2.rb == RigidBody::Static || body2.is_sleeping;
        if (inactive1 && inactive2) || (collider1.is_sensor || body1.is_sensor) || (
        collider2.is_sensor || body2.is_sensor) {
            return ;
        }
        if body1.is_sleeping {
            wake.push(body1.entity);
        } else if body2.is_sleeping {
            wake.push(body2.entity);
        }
        let f1 = match collider1.friction {
            Some(f) => f,
            None => body1.friction,
        };
        let f2 = match collider2.friction {
            Some(f) => f,
            None => body2.friction,
        };
        let r1 = match collider1.restitution {
            Some(r) => r,
            None => body1.restitution,
        };
        let r2 = match collider2.restitution {
            Some(r) => r,
            None => body2.restitution,
        };
        let friction_rule = combine_rule(f1.combine_rule, f2.combine_rule);
        let restitution_rule = combine_rule(r1.combine_rule, r2.combine_rule);
        let softness = if body1.rb != RigidBody::Dynamic || body2.rb != RigidBody::Dynamic {
            contact_softness.non_dynamic
        } else {
            contact_softness.dynamic
        };
        let ctx = ConstraintContext {
            entity1: collider1.entity,
            entity2: collider2.entity,
            body1: body1.entity,
            body2: body2.entity,
            dynamic_friction: combine_coefficients(
                f1.dynamic_coefficient,
                f2.dynamic_coefficient,
                friction_rule,
            ),
            static_friction: combine_coefficients(
                f1.static_coefficient,
                f2.static_coefficient,
                friction_rule,
            ),
            restitution: combine_coefficients(r1.coefficient, r2.coefficient, restitution_rule),
            softness,
            speculative_margin: self.default_speculative_margin,
            warm_start,
            delta_micros,
        };
        push_constraints(contacts, &ctx, constraints);
    }

    /// `contacts` and the constraint and wake lists after `handle_pair` on
    /// `entity1`, `entity2` returned `contacts`.
    pub open spec fn handled(
        &self,
        contacts: Contacts,
        entity1: u64,
        entity2: u64,
        constraints_before: Seq<ContactConstraint>,
        constraints_after: Seq<ContactConstraint>,
        wake_before: Seq<u64>,
        wake_after: Seq<u64>,
        softness: ContactSoftnessCoefficients,
        warm_start: bool,
        delta_micros: u32,
    ) -> bool {
        let i1 = collider_index(self.colliders@, entity1);
        let i2 = collider_index(self.colliders@, entity2);
        let c1 = self.colliders@[i1.unwrap()];
        let c2 = self.colliders@[i2.unwrap()];
        &&& i1 is Some
        &&& i2 is Some
        &&& exists|ms: Seq<ManifoldModel>|
            #[trigger] is_built_contacts(
                contacts,
                entity1,
                entity2,
                c1.parent,
                c2.parent,
                self.pair_is_sensor(c1, c2),
                ms,
                find_pair(self.collisions@, entity1, entity2),
                warm_start,
                (self.length_unit / 10) as int,
            )
        &&& match (self.body_of(c1), self.body_of(c2)) {
            (Some(b1), Some(b2)) => if !is_dynamic(b1) && !is_dynamic(b2) {
                constraints_after == constraints_before && wake_after == wake_before
            } else {
                self.generates(
                    contacts,
                    constraints_before,
                    constraints_after,
                    wake_before,
                    wake_after,
                    b1,
                    b2,
                    c1,
                    c2,
                    softness,
                    warm_start,
                    delta_micros,
                )
            },
            _ => constraints_after == constraints_before && wake_after == wake_before,
        }
    }

    /// Computes the contacts between the colliders `entity1` and `entity2`
    /// and returns their record, or nothing where either collider is missing
    /// or the backend reports no manifold.
    /// The backend is asked for contacts up to that distance, which grows with
    /// the speed at which the bodies approach each other (each clamped to its
    /// speculative margin) and is at least the contact tolerance. With
    /// `warm_start`, impulses are carried over from the stored record of the
    /// pair. Where both colliders have bodies and one of them is dynamic, the
    /// constraints of the record are appended to `constraints`.
    pub fn handle_pair(
        &self,
        entity1: u64,
        entity2: u64,
        constraints: &mut Vec<ContactConstraint>,
        wake: &mut Vec<u64>,
        contact_softness: ContactSoftnessCoefficients,
        warm_start: bool,
        delta_micros: u32,
    ) -> (r: Option<Contacts>)
        requires
            self.wf(),
        ensures
            collider_index(self.colliders@, entity1) is None
                || collider_index(self.colliders@, entity2) is None ==> r is None,
            r is None ==> final(constraints)@ == old(constraints)@ && final(wake)@ == old(wake)@,
            r is Some ==> self.handled(
                r.unwrap(),
                entity1,
                entity2,
                old(constraints)@,
                final(constraints)@,
                old(wake)@,
                final(wake)@,
                contact_softness,
                warm_start,
                delta_micros,
            ),
            r is Some ==> r.unwrap().wf() && r.unwrap().during_current_frame,
            final(constraints)@.len() >= old(constraints)@.len(),
            final(constraints)@.subrange(0, old(constraints)@.len() as int) == old(constraints)@,
            forall|j: int|
                old(constraints)@.len() <= j < final(constraints)@.len()
                    ==> (#[trigger] final(constraints)@[j]).context.entity1 == entity1
                    && final(constraints)@[j].context.entity2 == entity2,
    {
        proof {
            assert(constraints@.subrange(0, constraints@.len() as int) =~= constraints@);
        }
        let i1 = match self.find_collider(entity1) {
            Some(i) => i,
            None => {
                return None;
            },
        };
        let i2 = match self.find_collider(entity2) {
            Some(i) => i,
            None => {
                return None;
            },
        };
        let collider1 = &self.colliders[i1];
        let collider2 = &self.colliders[i2];
        let body1 = self.parent_body(collider1);
        let body2 = self.parent_body(collider2);
        let (lin_vel1, rb_margin1) = match body1 {
            Some(b) => (b.linear_velocity, b.speculative_margin),
            None => (Vector::zero(), None),
        };
        let (lin_vel2, rb_margin2) = match body2 {
            Some(b) => (b.linear_velocity, b.speculative_margin),
            None => (Vector::zero(), None),
        };
        let margin1 = resolve_speculative_margin(
            collider1.speculative_margin,
            rb_margin1,
            self.default_speculative_margin,
        );
        let margin2 = resolve_speculative_margin(
            collider2.speculative_margin,
            rb_margin2,
            self.default_speculative_margin,
        );
        let max_distance = max_contact_distance(
            &lin_vel1,
            &lin_vel2,
            margin1,
            margin2,
            delta_micros,
            self.contact_tolerance,
        );
        let manifolds = collider1.shape.contact_manifolds(
            &collider2.shape,
            collider1.position,
            collider1.rotation,
            collider2.position,
            collider2.rotation,
            max_distance,
        );
        let previous = self.collisions.get(entity1, entity2);
        let is_sensor = collider1.is_sensor || collider2.is_sensor || body1.is_none()
            || body2.is_none();
        let contacts = match build_contacts(
            entity1,
            entity2,
            collider1.parent,
            collider2.parent,
            is_sensor,
            &manifolds,
            previous,
            warm_start,
            self.length_unit / 10,
        ) {
            Some(c) => c,
            None => {
                return None;
            },
        };
        proof {
            assert(crate::compute::deref_contacts(previous) == find_pair(self.collisions@, entity1, entity2));
            assert(is_built_contacts(
                contacts,
                entity1,
                entity2,
                collider1.parent,
                collider2.parent,
                self.pair_is_sensor(*collider1, *collider2),
                crate::contacts::models(manifolds@),
                find_pair(self.collisions@, entity1, entity2),
                warm_start,
                (self.length_unit / 10) as int,
            ));
        }
        if let (Some(b1), Some(b2)) = (body1, body2) {
            if b1.rb != RigidBody::Dynamic && b2.rb != RigidBody::Dynamic {
                proof {
                    assert(constraints@.subrange(0, constraints@.len() as int) =~= constraints@);
                }
                return Some(contacts);
            }
            let ghost before = constraints@;
            self.generate_constraints(
                &contacts,
                constraints,
                wake,
                b1,
                b2,
                collider1,
                collider2,
                contact_softness,
                warm_start,
                delta_micros,
            );
            proof {
                if !skips_constraints(*b1, *b2, *collider1, *collider2) {
                    let ctx = expected_context(
                        *b1,
                        *b2,
                        *collider1,
                        *collider2,
                        contact_softness,
                        self.default_speculative_margin,
                        warm_start,
                        delta_micros,
                    );
                    assert forall|j: int| before.len() <= j < constraints@.len() implies (
                    #[trigger] constraints@[j]).context.entity1 == entity1
                        && constraints@[j].context.entity2 == entity2 by {
                        let t = j - before.len();
                        assert(constraints@[before.len() + t] == constraints@[j]);
                    }
                } else {
                    assert(constraints@.subrange(0, before.len() as int) =~= before);
                }
            }
            return Some(contacts);
        }
        proof {
            assert(constraints@.subrange(0, constraints@.len() as int) =~= constraints@);
        }
        Some(contacts)
    }

    /// The narrow phase with `store` in place of its contact records.
    pub open spec fn with_store(&self, store: Collisions) -> NarrowPhase<C> {
        NarrowPhase {
            colliders: self.colliders,
            bodies: self.bodies,
            collisions: store,
            config: self.config,
            length_unit: self.length_unit,
            default_speculative_margin: self.default_speculative_margin,
            contact_tolerance: self.contact_tolerance,
        }
    }

    /// One candidate pair of a pass: `outcome` is what `handle_pair` returned
    /// for it on the store `store_before`, and the store, the constraint list
    /// and the wake list moved accordingly. A pair with a missing collider
    /// changes nothing.
    pub open spec fn pass_step(
        &self,
        store_before: Collisions,
        store_after: Collisions,
        pair: (u64, u64),
        outcome: Option<Contacts>,
        constraints_before: Seq<ContactConstraint>,
        constraints_after: Seq<ContactConstraint>,
        wake_before: Seq<u64>,
        wake_after: Seq<u64>,
        softness: ContactSoftnessCoefficients,
        warm_start: bool,
        delta_micros: u32,
    ) -> bool {
        &&& (collider_index(self.colliders@, pair.0) is None || collider_index(self.colliders@, pair.1)
            is None) ==> outcome is None
        &&& match outcome {
            None => constraints_after == constraints_before && wake_after == wake_before
                && store_after@ == store_before@,
            Some(c) => self.with_store(store_before).handled(
                c,
                pair.0,
                pair.1,
                constraints_before,
                constraints_after,
                wake_before,
                wake_after,
                softness,
                warm_start,
                delta_micros,
            ) && store_after@ == inserted(store_before@, c) && (c.is_sensor ==> constraints_after
                == constraints_before && wake_after == wake_before),
        }
    }

    pub open spec fn pass_step_at(
        &self,
        pairs: Seq<(u64, u64)>,
        stores: Seq<Collisions>,
        outcomes: Seq<Option<Contacts>>,
        lists: Seq<Seq<ContactConstraint>>,
        wakes: Seq<Seq<u64>>,
        q: int,
        softness: ContactSoftnessCoefficients,
        warm_start: bool,
        delta_micros: u32,
    ) -> bool {
        self.pass_step(
            stores[q],
            stores[q + 1],
            pairs[q],
            outcomes[q],
            lists[q],
            lists[q + 1],
            wakes[q],
            wakes[q + 1],
            softness,
            warm_start,
            delta_micros,
        )
    }

    /// A pass over `pairs` from this narrow phase: the stores, outcomes,
    /// constraint lists and wake lists after each pair, starting from this
    /// store and an empty constraint list.
    pub open spec fn pass_trace(
        &self,
        pairs: Seq<(u64, u64)>,
        stores: Seq<Collisions>,
        outcomes: Seq<Option<Contacts>>,
        lists: Seq<Seq<ContactConstraint>>,
        wakes: Seq<Seq<u64>>,
        softness: ContactSoftnessCoefficients,
        warm_start: bool,
        delta_micros: u32,
    ) -> bool {
        &&& stores.len() == pairs.len() + 1
        &&& outcomes.len() == pairs.len()
        &&& lists.len() == pairs.len() + 1
        &&& wakes.len() == pairs.len() + 1
        &&& stores[0]@ == self.collisions@
        &&& lists[0] == Seq::<ContactConstraint>::empty()
        &&& forall|q: int|
            0 <= q < pairs.len() ==> #[trigger] self.pass_step_at(
                pairs,
                stores,
                outcomes,
                lists,
                wakes,
                q,
                softness,
                warm_start,
                delta_micros,
            )
    }

    /// Runs `handle_pair` on every candidate pair in order and stores each
    /// record it returns, in place of the earlier record of the pair (see
    /// `pass_trace`). The constraint list is cleared first and then holds the
    /// constraints of this pass, pair after pair. No record is removed, and
    /// every stored record is either one stored before or the new record of a
    /// candidate pair.
    pub fn update(
        &mut self,
        broad_collision_pairs: &Vec<(u64, u64)>,
        constraints: &mut Vec<ContactConstraint>,
        wake: &mut Vec<u64>,
        contact_softness: ContactSoftnessCoefficients,
        warm_start: bool,
        delta_micros: u32,
    )
        requires
            old(self).wf(),
        ensures
            final(self).wf(),
            final(self).colliders == old(self).colliders,
            final(self).bodies == old(self).bodies,
            final(self).config == old(self).config,
            final(self).length_unit == old(self).length_unit,
            final(self).default_speculative_margin == old(self).default_speculative_margin,
            final(self).contact_tolerance == old(self).contact_tolerance,
            forall|i: int|
                0 <= i < old(self).collisions@.len() ==> has_pair(
                    final(self).collisions@,
                    (#[trigger] old(self).collisions@[i]).entity1,
                    old(self).collisions@[i].entity2,
                ),
            forall|j: int|
                0 <= j < final(self).collisions@.len() ==> old(self).collisions@.contains(
                    #[trigger] final(self).collisions@[j],
                ) || (final(self).collisions@[j].during_current_frame && exists|k: int|
                    0 <= k < broad_collision_pairs@.len() && broad_collision_pairs@[k] == (
                        final(self).collisions@[j].entity1,
                        final(self).collisions@[j].entity2,
                    )),
            forall|j: int|
                0 <= j < final(constraints)@.len() ==> pair_listed(
                    broad_collision_pairs@,
                    broad_collision_pairs@.len() as int,
                    (#[trigger] final(constraints)@[j]).context.entity1,
                    final(constraints)@[j].context.entity2,
                ),
            exists|
                stores: Seq<Collisions>,
                outcomes: Seq<Option<Contacts>>,
                lists: Seq<Seq<ContactConstraint>>,
                wakes: Seq<Seq<u64>>,
            |
                #[trigger] old(self).pass_trace(
                    broad_collision_pairs@,
                    stores,
                    outcomes,
                    lists,
                    wakes,
                    contact_softness,
                    warm_start,
                    delta_micros,
                ) && final(self).collisions@ == stores.last()@ && final(constraints)@
                    == lists.last() && wakes[0] == old(wake)@ && final(wake)@ == wakes.last()
                    && forall|q: int|
                    0 <= q < broad_collision_pairs@.len() && (#[trigger] outcomes[q]) is Some
                        ==> has_current(
                        final(self).collisions@,
                        broad_collision_pairs@[q].0,
                        broad_collision_pairs@[q].1,
                    ),
            forall|i: int|
                0 <= i < old(self).collisions@.len()
                    && (#[trigger] old(self).collisions@[i]).during_current_frame ==> has_current(
                    final(self).collisions@,
                    old(self).collisions@[i].entity1,
                    old(self).collisions@[i].entity2,
                ),
    {
        let ghost s0 = self.collisions@;
        constraints.clear();
        let ghost mut stores: Seq<Collisions> = seq![self.collisions];
        let ghost mut outcomes: Seq<Option<Contacts>> = Seq::empty();
        let ghost mut lists: Seq<Seq<ContactConstraint>> = seq![constraints@];
        let ghost mut wakes: Seq<Seq<u64>> = seq![wake@];
        let mut k: usize = 0;
        while k < broad_collision_pairs.len()
            invariant
                self.wf(),
                self.colliders == old(self).colliders,
                self.bodies == old(self).bodies,
                self.config == old(self).config,
                self.length_unit == old(self).length_unit,
                self.default_speculative_margin == old(self).default_speculative_margin,
                self.contact_tolerance == old(self).contact_tolerance,
                s0 == old(self).collisions@,
                k <= broad_collision_pairs@.len(),
                forall|i: int|
                    0 <= i < s0.len() ==> has_pair(
                        self.collisions@,
                        (#[trigger] s0[i]).entity1,
                        s0[i].entity2,
                    ),
                forall|j: int|
                    0 <= j < self.collisions@.len() ==> s0.contains(#[trigger] self.collisions@[j])
                        || (self.collisions@[j].during_current_frame && exists|q: int|
                        0 <= q < k && broad_collision_pairs@[q] == (
                            self.collisions@[j].entity1,
                            self.collisions@[j].entity2,
                        )),
                forall|j: int|
                    0 <= j < constraints@.len() ==> pair_listed(
                        broad_collision_pairs@,
                        k as int,
                        (#[trigger] constraints@[j]).context.entity1,
                        constraints@[j].context.entity2,
                    ),
                stores.len() == k + 1,
                outcomes.len() == k,
                lists.len() == k + 1,
                wakes.len() == k + 1,
                stores[0]@ == old(self).collisions@,
                lists[0] == Seq::<ContactConstraint>::empty(),
                wakes[0] == old(wake)@,
                stores[k as int]@ == self.collisions@,
                stores[k as int] == self.collisions,
                lists[k as int] == constraints@,
                wakes[k as int] == wake@,
                forall|q: int|
                    0 <= q < k && (#[trigger] outcomes[q]) is Some ==> has_current(
                        self.collisions@,
                        broad_collision_pairs@[q].0,
                        broad_collision_pairs@[q].1,
                    ),
                forall|i: int|
                    0 <= i < s0.len() && (#[trigger] s0[i]).during_current_frame ==> has_current(
                        self.collisions@,
                        s0[i].entity1,
                        s0[i].entity2,
                    ),
                forall|q: int|
                    0 <= q < k ==> #[trigger] old(self).pass_step_at(
                        broad_collision_pairs@,
                        stores,
                        outcomes,
                        lists,
                        wakes,
                        q,
                        contact_softness,
                        warm_start,
                        delta_micros,
                    ),
            decreases broad_collision_pairs@.len() - k,
        {
            let (entity1, entity2) = broad_collision_pairs[k];
            let ghost cbefore = constraints@;
            let ghost wbefore = wake@;
            let ghost store_before = self.collisions;
            proof {
                assert(old(self).with_store(store_before) == *self);
            }
            let found = self.handle_pair(
                entity1,
                entity2,
                constraints,
                wake,
                contact_softness,
                warm_start,
                delta_micros,
            );
            proof {
                assert forall|j: int| 0 <= j < constraints@.len() implies pair_listed(
                    broad_collision_pairs@,
                    k + 1,
                    (#[trigger] constraints@[j]).context.entity1,
                    constraints@[j].context.entity2,
                ) by {
                    if j < cbefore.len() {
                        assert(constraints@[j] == constraints@.subrange(0, cbefore.len() as int)[j]);
                        let cj = cbefore[j];
                        assert(pair_listed(broad_collision_pairs@, k as int, cj.context.entity1, cj.context.entity2));
                        lemma_listed_grows(broad_collision_pairs@, k as int, k + 1, cj.context.entity1, cj.context.entity2);
                    } else {
                        assert(broad_collision_pairs@[k as int] == (
                            constraints@[j].context.entity1,
                            constraints@[j].context.entity2,
                        ));
                    }
                }
            }
            if let Some(contacts) = found {
                let ghost before = self.collisions@;
                let ghost c = contacts;
                proof {
                    let ms = choose|ms: Seq<ManifoldModel>|
                        #[trigger] is_built_contacts(
                            contacts,
                            entity1,
                            entity2,
                            self.colliders@[collider_index(self.colliders@, entity1).unwrap()].parent,
                            self.colliders@[collider_index(self.colliders@, entity2).unwrap()].parent,
                            self.pair_is_sensor(
                                self.colliders@[collider_index(self.colliders@, entity1).unwrap()],
                                self.colliders@[collider_index(self.colliders@, entity2).unwrap()],
                            ),
                            ms,
                            find_pair(self.collisions@, entity1, entity2),
                            warm_start,
                            (self.length_unit / 10) as int,
                        );
                    assert(contacts.entity1 == entity1 && contacts.entity2 == entity2);
                    if contacts.is_sensor {
                        self.lemma_sensor_pair_yields_no_constraints(
                            contacts,
                            entity1,
                            entity2,
                            cbefore,
                            constraints@,
                            wbefore,
                            wake@,
                            contact_softness,
                            warm_start,
                            delta_micros,
                        );
                    }
                }
                self.collisions.insert_collision_pair(contacts);
                proof {
                    let after = self.collisions@;
                    lemma_inserted_keeps_current(before, c, entity1, entity2);
                    assert forall|q: int|
                        0 <= q < k && (#[trigger] outcomes[q]) is Some implies has_current(
                        after,
                        broad_collision_pairs@[q].0,
                        broad_collision_pairs@[q].1,
                    ) by {
                        lemma_inserted_keeps_current(
                            before,
                            c,
                            broad_collision_pairs@[q].0,
                            broad_collision_pairs@[q].1,
                        );
                    }
                    assert forall|i: int|
                        0 <= i < s0.len() && (#[trigger] s0[i]).during_current_frame implies has_current(
                        after,
                        s0[i].entity1,
                        s0[i].entity2,
                    ) by {
                        lemma_inserted_keeps_current(before, c, s0[i].entity1, s0[i].entity2);
                    }
                    assert(broad_collision_pairs@[k as int] == (c.entity1, c.entity2));
                    if has_pair(before, c.entity1, c.entity2) {
                        let m = choose|m: int|
                            0 <= m < before.len() && (#[trigger] before[m]).is_pair(c.entity1, c.entity2)
                                && after == before.update(m, c);
                        assert forall|i: int| 0 <= i < s0.len() implies has_pair(
                            after,
                            (#[trigger] s0[i]).entity1,
                            s0[i].entity2,
                        ) by {
                            let x = choose|x: int|
                                0 <= x < before.len() && (#[trigger] before[x]).is_pair(
                                    s0[i].entity1,
                                    s0[i].entity2,
                                );
                            if x == m {
                                assert(after[m].is_pair(s0[i].entity1, s0[i].entity2));
                            } else {
                                assert(after[x].is_pair(s0[i].entity1, s0[i].entity2));
                            }
                        }
                    } else {
                        assert forall|i: int| 0 <= i < s0.len() implies has_pair(
                            after,
                            (#[trigger] s0[i]).entity1,
                            s0[i].entity2,
                        ) by {
                            let x = choose|x: int|
                                0 <= x < before.len() && (#[trigger] before[x]).is_pair(
                                    s0[i].entity1,
                                    s0[i].entity2,
                                );
                            assert(after[x].is_pair(s0[i].entity1, s0[i].entity2));
                        }
                    }
                }
            }
            proof {
                let ns = stores.push(self.collisions);
                let no = outcomes.push(found);
                let nl = lists.push(constraints@);
                let nw = wakes.push(wake@);
                assert(old(self).pass_step(
                    store_before,
                    self.collisions,
                    broad_collision_pairs@[k as int],
                    found,
                    cbefore,
                    constraints@,
                    wbefore,
                    wake@,
                    contact_softness,
                    warm_start,
                    delta_micros,
                ));
                assert forall|q: int| 0 <= q < k + 1 implies #[trigger] old(self).pass_step_at(
                    broad_collision_pairs@,
                    ns,
                    no,
                    nl,
                    nw,
                    q,
                    contact_softness,
                    warm_start,
                    delta_micros,
                ) by {
                    if q < k {
                        assert(old(self).pass_step_at(
                            broad_collision_pairs@,
                            stores,
                            outcomes,
                            lists,
                            wakes,
                            q,
                            contact_softness,
                            warm_start,
                            delta_micros,
                        ));
                    }
                }
                stores = ns;
                outcomes = no;
                lists = nl;
                wakes = nw;
            }
            k += 1;
        }
        proof {
            assert(old(self).pass_trace(
                broad_collision_pairs@,
                stores,
                outcomes,
                lists,
                wakes,
                contact_softness,
                warm_start,
                delta_micros,
            ));
        }
    }
}

/// The pair `(e1, e2)` is among the first `n` of `pairs`.
pub open spec fn pair_listed(pairs: Seq<(u64, u64)>, n: int, e1: u64, e2: u64) -> bool {
    exists|q: int| 0 <= q < n && #[trigger] pairs[q] == (e1, e2)
}

proof fn lemma_listed_grows(pairs: Seq<(u64, u64)>, n: int, m: int, e1: u64, e2: u64)
    requires
        n <= m,
        pair_listed(pairs, n, e1, e2),
    ensures
        pair_listed(pairs, m, e1, e2),
{
    let q = choose|q: int| 0 <= q < n && #[trigger] pairs[q] == (e1, e2);
    assert(0 <= q < m && pairs[q] == (e1, e2));
}

/// The single owner of the collision lifecycle: where several narrow phases
/// run, only the one built as the owner resets and prunes the store.
#[derive(Clone, Copy, Debug, PartialEq, Eq, Structural)]
pub struct NarrowPhasePlugin {
    pub manages_collision_states: bool,
}

impl NarrowPhasePlugin {
    pub fn new(manages_collision_states: bool) -> (r: Self)
        ensures
            r.manages_collision_states == manages_collision_states,
    {
        NarrowPhasePlugin { manages_collision_states }
    }

    /// Before the pairs are processed: resets the store, if this plugin
    /// owns the lifecycle.
    pub fn begin_step(&self, collisions: &mut Collisions, entities: &Vec<EntityActivity>)
        requires
            old(collisions).wf(),
        ensures
            final(collisions).wf(),
            !self.manages_collision_states ==> final(collisions)@ == old(collisions)@,
            self.manages_collision_states ==> final(collisions)@.len() == old(collisions)@.len()
                && forall|i: int|
                0 <= i < old(collisions)@.len() ==> #[trigger] final(collisions)@[i]
                    == crate::collisions::reset_record(old(collisions)@[i], entities@),
    {
        if self.manages_collision_states {
            reset_collision_states(collisions, entities);
        }
    }

    /// After the constraints are consumed: prunes the store, if this plugin
    /// owns the lifecycle.
    pub fn end_step(&self, collisions: &mut Collisions)
        requires
            old(collisions).wf(),
        ensures
            final(collisions).wf(),
            !self.manages_collision_states ==> final(collisions)@ == old(collisions)@,
            self.manages_collision_states ==> final(collisions)@
                == crate::collisions::current_records(old(collisions)@),
    {
        if self.manages_collision_states {
            remove_ended_collisions(collisions);
        }
    }

    /// One simulation step of the narrow phase: resets the store (if this
    /// plugin owns the lifecycle), processes every candidate pair with
    /// `update`, and then prunes the records that were not found in contact
    /// (again if this plugin owns the lifecycle). The constraints of the step
    /// are left in `constraints` and the bodies to wake in `wake`.
    pub fn run_step<C: AnyCollider>(
        &self,
        narrow_phase: &mut NarrowPhase<C>,
        entities: &Vec<EntityActivity>,
        broad_collision_pairs: &Vec<(u64, u64)>,
        constraints: &mut Vec<ContactConstraint>,
        wake: &mut Vec<u64>,
        contact_softness: ContactSoftnessCoefficients,
        warm_start: bool,
        delta_micros: u32,
    )
        requires
            old(narrow_phase).wf(),
        ensures
            final(narrow_phase).wf(),
            final(narrow_phase).colliders == old(narrow_phase).colliders,
            final(narrow_phase).bodies == old(narrow_phase).bodies,
            final(narrow_phase).config == old(narrow_phase).config,
            self.manages_collision_states ==> forall|i: int|
                0 <= i < final(narrow_phase).collisions@.len()
                    ==> (#[trigger] final(narrow_phase).collisions@[i]).during_current_frame,
            exists|
                reset: Collisions,
                stores: Seq<Collisions>,
                outcomes: Seq<Option<Contacts>>,
                lists: Seq<Seq<ContactConstraint>>,
                wakes: Seq<Seq<u64>>,
            |
                #[trigger] old(narrow_phase).with_store(reset).pass_trace(
                    broad_collision_pairs@,
                    stores,
                    outcomes,
                    lists,
                    wakes,
                    contact_softness,
                    warm_start,
                    delta_micros,
                ) && (self.manages_collision_states ==> reset@.len()
                    == old(narrow_phase).collisions@.len() && forall|i: int|
                    0 <= i < reset@.len() ==> #[trigger] reset@[i] == reset_record(
                        old(narrow_phase).collisions@[i],
                        entities@,
                    )) && (!self.manages_collision_states ==> reset@
                    == old(narrow_phase).collisions@) && final(constraints)@ == lists.last()
                    && wakes[0] == old(wake)@ && final(wake)@ == wakes.last()
                    && final(narrow_phase).collisions@ == (if self.manages_collision_states {
                    current_records(stores.last()@)
                } else {
                    stores.last()@
                }),
            self.manages_collision_states ==> forall|i: int|
                0 <= i < old(narrow_phase).collisions@.len() && reset_record(
                    #[trigger] old(narrow_phase).collisions@[i],
                    entities@,
                ).during_current_frame ==> has_current(
                    final(narrow_phase).collisions@,
                    old(narrow_phase).collisions@[i].entity1,
                    old(narrow_phase).collisions@[i].entity2,
                ),
            forall|j: int|
                0 <= j < final(constraints)@.len() ==> pair_listed(
                    broad_collision_pairs@,
                    broad_collision_pairs@.len() as int,
                    (#[trigger] final(constraints)@[j]).context.entity1,
                    final(constraints)@[j].context.entity2,
                ),
    {
        let ghost start = *narrow_phase;
        self.begin_step(&mut narrow_phase.collisions, entities);
        let ghost mid = *narrow_phase;
        assert(mid == start.with_store(mid.collisions));
        narrow_phase.update(
            broad_collision_pairs,
            constraints,
            wake,
            contact_softness,
            warm_start,
            delta_micros,
        );
        let ghost after = narrow_phase.collisions@;
        self.end_step(&mut narrow_phase.collisions);
        proof {
            let (stores, outcomes, lists, wakes) = choose|
                stores: Seq<Collisions>,
                outcomes: Seq<Option<Contacts>>,
                lists: Seq<Seq<ContactConstraint>>,
                wakes: Seq<Seq<u64>>,
            |
                #[trigger] mid.pass_trace(
                    broad_collision_pairs@,
                    stores,
                    outcomes,
                    lists,
                    wakes,
                    contact_softness,
                    warm_start,
                    delta_micros,
                ) && after == stores.last()@ && constraints@ == lists.last() && wakes[0]
                    == old(wake)@ && wake@ == wakes.last() && forall|q: int|
                    0 <= q < broad_collision_pairs@.len() && (#[trigger] outcomes[q]) is Some
                        ==> has_current(
                        after,
                        broad_collision_pairs@[q].0,
                        broad_collision_pairs@[q].1,
                    );
            assert(start.with_store(mid.collisions).pass_trace(
                broad_collision_pairs@,
                stores,
                outcomes,
                lists,
                wakes,
                contact_softness,
                warm_start,
                delta_micros,
            ));
            if self.manages_collision_states {
                assert forall|i: int|
                    0 <= i < start.collisions@.len() && reset_record(
                        #[trigger] start.collisions@[i],
                        entities@,
                    ).during_current_frame implies has_current(
                    narrow_phase.collisions@,
                    start.collisions@[i].entity1,
                    start.collisions@[i].entity2,
                ) by {
                    assert(mid.collisions@[i] == reset_record(start.collisions@[i], entities@));
                    assert(mid.collisions@[i].during_current_frame);
                    lemma_current_survives_prune(
                        after,
                        start.collisions@[i].entity1,
                        start.collisions@[i].entity2,
                    );
                }
            }
        }
    }
}

impl<C: AnyCollider> NarrowPhase<C> {
    /// A pair where either collider is a sensor or lacks a rigid body yields
    /// no constraint and wakes no body, though its record is returned.
    pub proof fn lemma_sensor_pair_yields_no_constraints(
        &self,
        contacts: Contacts,
        entity1: u64,
        entity2: u64,
        constraints_before: Seq<ContactConstraint>,
        constraints_after: Seq<ContactConstraint>,
        wake_before: Seq<u64>,
        wake_after: Seq<u64>,
        softness: ContactSoftnessCoefficients,
        warm_start: bool,
        delta_micros: u32,
    )
        requires
            self.handled(
                contacts,
                entity1,
                entity2,
                constraints_before,
                constraints_after,
                wake_before,
                wake_after,
                softness,
                warm_start,
                delta_micros,
            ),
            contacts.is_sensor,
        ensures
            constraints_after == constraints_before,
            wake_after == wake_before,
    {
        let c1 = self.colliders@[collider_index(self.colliders@, entity1).unwrap()];
        let c2 = self.colliders@[collider_index(self.colliders@, entity2).unwrap()];
        let ms = choose|ms: Seq<ManifoldModel>|
            #[trigger] is_built_contacts(
                contacts,
                entity1,
                entity2,
                c1.parent,
                c2.parent,
                self.pair_is_sensor(c1, c2),
                ms,
                find_pair(self.collisions@, entity1, entity2),
                warm_start,
                (self.length_unit / 10) as int,
            );
        assert(self.pair_is_sensor(c1, c2));
    }

    proof fn lemma_side_velocity_wf(&self, c: ColliderItem<C>)
        requires
            self.wf(),
        ensures
            self.body_of(c) is Some ==> self.body_of(c).unwrap().linear_velocity.wf(),
    {
        reveal(body_index);
        if c.parent is Some && body_index(self.bodies@, c.parent.unwrap()) is Some {
            let k = body_index(self.bodies@, c.parent.unwrap()).unwrap();
            let e = c.parent.unwrap();
            assert(0 <= k < self.bodies@.len());
        }
    }

    proof fn lemma_side_clamped_wf(&self, v: Vector, margin: int, delta_micros: int)
        requires
            v.wf(),
            0 <= margin,
            0 <= delta_micros,
        ensures
            clamped_velocity(v, margin, delta_micros).wf(),
    {
        if speed_limit(margin, delta_micros) is Some {
            let limit = speed_limit(margin, delta_micros).unwrap();
            assert(limit >= 0) by (nonlinear_arith)
                requires
                    limit == margin * 1_000_000 / delta_micros,
                    margin >= 0,
                    delta_micros > 0,
            ;
            crate::math::lemma_clamped_wf(v, limit);
        }
    }

    /// Which collider of a pair comes first changes neither the maximum
    /// contact distance, nor whether the pair counts as a sensor, nor the
    /// earlier record that is found for it.
    pub proof fn lemma_pair_order_irrelevant(
        &self,
        c1: ColliderItem<C>,
        c2: ColliderItem<C>,
        delta_micros: u32,
    )
        requires
            self.wf(),
        ensures
            self.pair_max_distance(c1, c2, delta_micros) == self.pair_max_distance(
                c2,
                c1,
                delta_micros,
            ),
            self.pair_is_sensor(c1, c2) == self.pair_is_sensor(c2, c1),
            find_pair(self.collisions@, c1.entity, c2.entity) == find_pair(
                self.collisions@,
                c2.entity,
                c1.entity,
            ),
    {
        self.lemma_side_velocity_wf(c1);
        self.lemma_side_velocity_wf(c2);
        let b1 = self.body_of(c1);
        let b2 = self.body_of(c2);
        let v1 = match b1 {
            Some(b) => b.linear_velocity,
            None => Vector { x: 0, y: 0, z: 0 },
        };
        let v2 = match b2 {
            Some(b) => b.linear_velocity,
            None => Vector { x: 0, y: 0, z: 0 },
        };
        let m1 = resolved_margin(
            c1.speculative_margin,
            match b1 {
                Some(b) => b.speculative_margin,
                None => None,
            },
            self.default_speculative_margin,
        );
        let m2 = resolved_margin(
            c2.speculative_margin,
            match b2 {
                Some(b) => b.speculative_margin,
                None => None,
            },
            self.default_speculative_margin,
        );
        self.lemma_side_clamped_wf(v1, m1 as int, delta_micros as int);
        self.lemma_side_clamped_wf(v2, m2 as int, delta_micros as int);
        lemma_max_contact_distance_symmetric(
            v1,
            v2,
            m1 as int,
            m2 as int,
            delta_micros as int,
            self.contact_tolerance as int,
        );
        let s = self.collisions@;
        let a = c1.entity;
        let b = c2.entity;
        if has_pair(s, a, b) {
            let i = choose|i: int| 0 <= i < s.len() && (#[trigger] s[i]).is_pair(a, b);
            assert(s[i].is_pair(b, a));
            let j = choose|j: int| 0 <= j < s.len() && (#[trigger] s[j]).is_pair(b, a);
            if i != j {
                assert(!s[i].is_pair(s[j].entity1, s[j].entity2));
            }
        } else {
            assert(!has_pair(s, b, a)) by {
                if has_pair(s, b, a) {
                    let j = choose|j: int| 0 <= j < s.len() && (#[trigger] s[j]).is_pair(b, a);
                    assert(s[j].is_pair(a, b));
                }
            }
        }
    }
}

} // verus!
