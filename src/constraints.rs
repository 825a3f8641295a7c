//! Bodies, colliders and their materials as the narrow phase reads them, and
//! the contact constraints it hands to the solver.
use crate::contacts::{models, ContactPoint, Contacts, ManifoldModel};
use crate::margin::PARTS_PER_UNIT;
use crate::math::{Rotation, Vector};
use vstd::prelude::*;

verus! {

/// How two coefficients are combined; where the two sides ask for different
/// rules, the later one in this order wins.
#[derive(Clone, Copy, Debug, PartialEq, Eq, Structural)]
pub enum CoefficientCombine {
    Average,
    Min,
    Multiply,
    Max,
}

pub open spec fn rule_priority(r: CoefficientCombine) -> int {
    match r {
        CoefficientCombine::Average => 1,
        CoefficientCombine::Min => 2,
        CoefficientCombine::Multiply => 3,
        CoefficientCombine::Max => 4,
    }
}

/// The rule that wins between `a` and `b`.
pub open spec fn winning_rule(a: CoefficientCombine, b: CoefficientCombine) -> CoefficientCombine {
    if rule_priority(a) >= rule_priority(b) {
        a
    } else {
        b
    }
}

/// Two coefficients (millionths) combined by `rule`.
pub open spec fn combined(a: int, b: int, rule: CoefficientCombine) -> int {
    match rule {
        CoefficientCombine::Average => (a + b) / 2,
        CoefficientCombine::Min => if a <= b {
            a
        } else {
            b
        },
        CoefficientCombine::Multiply => a * b / (PARTS_PER_UNIT as int),
        CoefficientCombine::Max => if a >= b {
            a
        } else {
            b
        },
    }
}

/// Friction coefficients, in millionths.
#[derive(Clone, Copy, Debug, PartialEq, Eq, Structural)]
pub struct Friction {
    pub dynamic_coefficient: u32,
    pub static_coefficient: u32,
    pub combine_rule: CoefficientCombine,
}

/// A restitution coefficient, in millionths.
#[derive(Clone, Copy, Debug, PartialEq, Eq, Structural)]
pub struct Restitution {
    pub coefficient: u32,
    pub combine_rule: CoefficientCombine,
}

#[derive(Clone, Copy, Debug, PartialEq, Eq, Structural)]
pub enum RigidBody {
    Static,
    Kinematic,
    Dynamic,
}

/// What the narrow phase reads of a rigid body.
#[derive(Clone, Copy, Debug, PartialEq, Eq, Structural)]
pub struct RigidBodyItem {
    pub entity: u64,
    pub rb: RigidBody,
    /// Linear velocity in length quanta per second.
    pub linear_velocity: Vector,
    pub is_sleeping: bool,
    pub is_sensor: bool,
    pub friction: Friction,
    pub restitution: Restitution,
    /// The body's own speculative margin, in length quanta.
    pub speculative_margin: Option<u64>,
}

/// What the narrow phase reads of a collider; `C` is the shape that the
/// geometry backend works on.
#[derive(Clone, Copy, Debug)]
pub struct ColliderItem<C> {
    pub entity: u64,
    pub shape: C,
    pub position: Vector,
    pub rotation: Rotation,
    /// The collider's own speculative margin, in length quanta.
    pub speculative_margin: Option<u64>,
    pub friction: Option<Friction>,
    pub restitution: Option<Restitution>,
    pub is_sensor: bool,
    /// The rigid body that the collider is attached to.
    pub parent: Option<u64>,
}

/// Softness of contact constraints, handed on to the solver.
#[derive(Clone, Copy, Debug, PartialEq, Eq, Structural)]
pub struct SoftnessCoefficients {
    pub bias: i64,
    pub impulse_scale: i64,
    pub mass_scale: i64,
}

/// The softness for contacts between two dynamic bodies, and for contacts in
/// which a static or kinematic body takes part.
#[derive(Clone, Copy, Debug, PartialEq, Eq, Structural)]
pub struct ContactSoftnessCoefficients {
    pub dynamic: SoftnessCoefficients,
    pub non_dynamic: SoftnessCoefficients,
}

/// What the constraints of one pair share.
#[derive(Clone, Copy, Debug, PartialEq, Eq, Structural)]
pub struct ConstraintContext {
    pub entity1: u64,
    pub entity2: u64,
    pub body1: u64,
    pub body2: u64,
    /// Combined coefficients, in millionths.
    pub dynamic_friction: u64,
    pub static_friction: u64,
    pub restitution: u64,
    pub softness: SoftnessCoefficients,
    pub speculative_margin: u64,
    pub warm_start: bool,
    pub delta_micros: u32,
}

/// One point of a contact constraint.
#[derive(Clone, Copy, Debug, PartialEq, Eq, Structural)]
pub struct ContactConstraintPoint {
    pub anchor1: Vector,
    pub anchor2: Vector,
    pub separation: i64,
    /// The impulses that the solver starts from.
    pub normal_impulse: i64,
    pub tangent_impulse: i64,
}

/// The constraint of one contact manifold.
#[derive(Clone, Debug)]
pub struct ContactConstraint {
    pub context: ConstraintContext,
    /// The position of the manifold in its contact record.
    pub manifold_index: usize,
    pub normal: Vector,
    pub points: Vec<ContactConstraintPoint>,
}

/// The constraint point of `p`; it starts from `p`'s impulses only when
/// warm starting.
pub open spec fn constraint_point(p: ContactPoint, warm_start: bool) -> ContactConstraintPoint {
    ContactConstraintPoint {
        anchor1: p.anchor1,
        anchor2: p.anchor2,
        separation: p.separation,
        normal_impulse: if warm_start {
            p.normal_impulse
        } else {
            0
        },
        tangent_impulse: if warm_start {
            p.tangent_impulse
        } else {
            0
        },
    }
}

/// The constraint points of the points of `pts` closer than `margin`.
pub open spec fn constraint_points(pts: Seq<ContactPoint>, margin: int, warm_start: bool) -> Seq<
    ContactConstraintPoint,
>
    decreases pts.len(),
{
    if pts.len() == 0 {
        Seq::empty()
    } else {
        let rest = constraint_points(pts.drop_last(), margin, warm_start);
        if pts.last().separation < margin {
            rest.push(constraint_point(pts.last(), warm_start))
        } else {
            rest
        }
    }
}

/// The positions of the manifolds that yield a constraint: those with a
/// point closer than `margin`.
pub open spec fn emitted_manifolds(ms: Seq<ManifoldModel>, margin: int) -> Seq<int>
    decreases ms.len(),
{
    if ms.len() == 0 {
        Seq::empty()
    } else {
        let rest = emitted_manifolds(ms.drop_last(), margin);
        if constraint_points(ms.last().points, margin, true).len() > 0 {
            rest.push(ms.len() - 1)
        } else {
            rest
        }
    }
}

/// `c` is the constraint of manifold `i` of `ms`.
pub open spec fn is_constraint_of(
    c: ContactConstraint,
    ms: Seq<ManifoldModel>,
    i: int,
    ctx: ConstraintContext,
) -> bool {
    &&& 0 <= i < ms.len()
    &&& c.context == ctx
    &&& c.manifold_index == i
    &&& c.normal == ms[i].normal
    &&& c.points@ == constraint_points(ms[i].points, ctx.speculative_margin as int, ctx.warm_start)
}

/// `after` is `before` followed by the constraints of the manifolds of `contacts`.
pub open spec fn appends_constraints(
    before: Seq<ContactConstraint>,
    after: Seq<ContactConstraint>,
    contacts: Contacts,
    ctx: ConstraintContext,
) -> bool {
    let ms = models(contacts.manifolds@);
    let idx = emitted_manifolds(ms, ctx.speculative_margin as int);
    &&& after.len() == before.len() + idx.len()
    &&& after.subrange(0, before.len() as int) == before
    &&& forall|j: int|
        0 <= j < idx.len() ==> is_constraint_of(
            #[trigger] after[before.len() + j],
            ms,
            idx[j],
            ctx,
        )
}

/// Combines two coefficients (millionths) by `rule`.
pub fn combine_coefficients(a: u32, b: u32, rule: CoefficientCombine) -> (r: u64)
    ensures
        r as int == combined(a as int, b as int, rule),
{
    match rule {
        CoefficientCombine::Average => (a as u64 + b as u64) / 2,
        CoefficientCombine::Min => if a <= b {
            a as u64
        } else {
            b as u64
        },
        CoefficientCombine::Multiply => {
            assert((a as int) * (b as int) <= 0xffff_ffff * 0xffff_ffffint) by (nonlinear_arith)
                requires a <= 0xffff_ffffint, b <= 0xffff_ffffint;
            assert((a as int) * (b as int) >= 0) by (nonlinear_arith)
                requires a >= 0, b >= 0;
            (a as u64) * (b as u64) / PARTS_PER_UNIT
        },
        CoefficientCombine::Max => if a >= b {
            a as u64
        } else {
            b as u64
        },
    }
}

/// The rule that wins between `a` and `b`.
pub fn combine_rule(a: CoefficientCombine, b: CoefficientCombine) -> (r: CoefficientCombine)
    ensures
        r == winning_rule(a, b),
{
    let pa: u8 = match a {
        CoefficientCombine::Average => 1,
        CoefficientCombine::Min => 2,
        CoefficientCombine::Multiply => 3,
        CoefficientCombine::Max => 4,
    };
    let pb: u8 = match b {
        CoefficientCombine::Average => 1,
        CoefficientCombine::Min => 2,
        CoefficientCombine::Multiply => 3,
        CoefficientCombine::Max => 4,
    };
    if pa >= pb {
        a
    } else {
        b
    }
}

/// Combining coefficients does not depend on which side comes first.
pub proof fn lemma_combine_commutative(
    a: int,
    b: int,
    ra: CoefficientCombine,
    rb: CoefficientCombine,
)
    ensures
        winning_rule(ra, rb) == winning_rule(rb, ra),
        combined(a, b, winning_rule(ra, rb)) == combined(b, a, winning_rule(rb, ra)),
{
    assert(a * b == b * a) by (nonlinear_arith);
}

fn build_constraint_points(pts: &Vec<ContactPoint>, margin: u64, warm_start: bool) -> (r: Vec<
    ContactConstraintPoint,
>)
    ensures
        r@ == constraint_points(pts@, margin as int, warm_start),
{
    let mut out: Vec<ContactConstraintPoint> = Vec::new();
    let mut j: usize = 0;
    while j < pts.len()
        invariant
            j <= pts@.len(),
            out@ == constraint_points(pts@.take(j as int), margin as int, warm_start),
        decreases pts@.len() - j,
    {
        proof {
            assert(pts@.take(j as int + 1).drop_last() =~= pts@.take(j as int));
        }
        let p = pts[j];
        if p.separation < 0 || (p.separation as u64) < margin {
            out.push(
                ContactConstraintPoint {
                    anchor1: p.anchor1,
                    anchor2: p.anchor2,
                    separation: p.separation,
                    normal_impulse: if warm_start {
                        p.normal_impulse
                    } else {
                        0
                    },
                    tangent_impulse: if warm_start {
                        p.tangent_impulse
                    } else {
                        0
                    },
                },
            );
        }
        j += 1;
    }
    proof {
        assert(pts@.take(pts@.len() as int) =~= pts@);
    }
    out
}

proof fn lemma_constraint_points_len(pts: Seq<ContactPoint>, margin: int, warm_start: bool)
    ensures
        constraint_points(pts, margin, warm_start).len() == constraint_points(pts, margin, true).len(),
    decreases pts.len(),
{
    if pts.len() > 0 {
        lemma_constraint_points_len(pts.drop_last(), margin, warm_start);
    }
}

/// Appends to `constraints` one constraint for each manifold of `contacts`
/// that has a point closer than the context's speculative margin; a manifold
/// without such a point yields none.
pub fn push_constraints(
    contacts: &Contacts,
    ctx: &ConstraintContext,
    constraints: &mut Vec<ContactConstraint>,
)
    ensures
        appends_constraints(old(constraints)@, final(constraints)@, *contacts, *ctx),
{
    let ghost before = constraints@;
    let ghost ms = models(contacts.manifolds@);
    let mut i: usize = 0;
    while i < contacts.manifolds.len()
        invariant
            i <= contacts.manifolds@.len(),
            ms == models(contacts.manifolds@),
            constraints@.len() == before.len() + emitted_manifolds(ms.take(i as int), ctx.speculative_margin as int).len(),
            constraints@.subrange(0, before.len() as int) == before,
            forall|j: int|
                0 <= j < emitted_manifolds(ms.take(i as int), ctx.speculative_margin as int).len() ==> is_constraint_of(
                    #[trigger] constraints@[before.len() + j],
                    ms,
                    emitted_manifolds(ms.take(i as int), ctx.speculative_margin as int)[j],
                    *ctx,
                ),
        decreases contacts.manifolds@.len() - i,
    {
        let ghost idx = emitted_manifolds(ms.take(i as int), ctx.speculative_margin as int);
        let ghost prev = constraints@;
        proof {
            assert(ms.take(i as int + 1).drop_last() =~= ms.take(i as int));
            lemma_constraint_points_len(ms[i as int].points, ctx.speculative_margin as int, ctx.warm_start);
        }
        let m = &contacts.manifolds[i];
        let points = build_constraint_points(&m.points, ctx.speculative_margin, ctx.warm_start);
        if points.len() > 0 {
            constraints.push(
                ContactConstraint { context: *ctx, manifold_index: i, normal: m.normal, points },
            );
            proof {
                let idx2 = emitted_manifolds(ms.take(i as int + 1), ctx.speculative_margin as int);
                assert(idx2 == idx.push(i as int));
                assert(constraints@.subrange(0, before.len() as int) =~= prev.subrange(0, before.len() as int));
                assert forall|j: int| 0 <= j < idx2.len() implies is_constraint_of(
                    #[trigger] constraints@[before.len() + j],
                    ms,
                    idx2[j],
                    *ctx,
                ) by {
                    if j < idx.len() {
                        assert(constraints@[before.len() + j] == prev[before.len() + j]);
                    }
                }
            }
        }
        i += 1;
    }
    proof {
        assert(ms.take(ms.len() as int) =~= ms);
    }
}

} // verus!
