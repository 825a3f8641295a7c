//! The speculative margin: how far apart two colliders may be and still have
//! their contacts computed this step.
use crate::math::{is_floor_sqrt, lemma_sqrt_floor_monotone, sqrt_floor, Vector};
use vstd::arithmetic::div_mod::lemma_div_is_ordered;
use vstd::arithmetic::mul::lemma_mul_inequality;
use vstd::prelude::*;

verus! {

/// A margin of this value is unbounded: it never clamps a velocity.
pub const UNBOUNDED_MARGIN: u64 = 0xffff_ffff_ffff_ffff;

/// Configured distances are given in millionths of a length unit.
pub const PARTS_PER_UNIT: u64 = 1_000_000;

/// Time steps are given in microseconds.
pub const MICROS_PER_SECOND: u64 = 1_000_000;

/// A configured distance (millionths of a length unit) in length quanta, where
/// one length unit holds `length_unit` quanta. The unbounded margin stays
/// unbounded and a distance too large to hold becomes unbounded.
pub open spec fn scaled_distance(value: int, length_unit: int) -> int {
    if value == UNBOUNDED_MARGIN || value * length_unit / (PARTS_PER_UNIT as int) >= UNBOUNDED_MARGIN {
        UNBOUNDED_MARGIN as int
    } else {
        value * length_unit / (PARTS_PER_UNIT as int)
    }
}

/// The margin of one side: the collider's own, else its body's, else the default.
pub open spec fn resolved_margin(collider: Option<u64>, body: Option<u64>, default: u64) -> u64 {
    match collider {
        Some(m) => m,
        None => match body {
            Some(m) => m,
            None => default,
        },
    }
}

/// The speed (quanta per second) at which a side moves exactly its margin in
/// one step; none where the margin is unbounded or the step is empty.
pub open spec fn speed_limit(margin: int, delta_micros: int) -> Option<int> {
    if margin == UNBOUNDED_MARGIN || delta_micros == 0 {
        None
    } else {
        Some(margin * (MICROS_PER_SECOND as int) / delta_micros)
    }
}

/// A side's velocity, clamped to its speed limit.
pub open spec fn clamped_velocity(v: Vector, margin: int, delta_micros: int) -> Vector {
    match speed_limit(margin, delta_micros) {
        None => v,
        Some(limit) => v.clamped(limit),
    }
}

/// How far two bodies closing at `speed` quanta per second move towards
/// each other in one step, but never less than the contact tolerance.
pub open spec fn detection_distance(speed: int, delta_micros: int, tolerance: int) -> int {
    let effective = delta_micros * speed / (MICROS_PER_SECOND as int);
    if effective >= tolerance {
        effective
    } else {
        tolerance
    }
}

/// A side's speed, clamped to its speed limit. Clamping scales the velocity
/// to the limit exactly, so the clamped speed is the smaller of the two.
pub open spec fn clamped_speed(v: Vector, margin: int, delta_micros: int) -> int {
    match speed_limit(margin, delta_micros) {
        None => v.norm(),
        Some(limit) => if v.norm2() <= limit * limit {
            v.norm()
        } else {
            limit
        },
    }
}

/// The speed at which the two sides approach each other: where one side is
/// at rest, the other's clamped speed; otherwise the length of the difference
/// of the clamped velocities.
pub open spec fn relative_speed(
    v1: Vector,
    v2: Vector,
    margin1: int,
    margin2: int,
    delta_micros: int,
) -> int {
    if v2 == (Vector { x: 0, y: 0, z: 0 }) {
        clamped_speed(v1, margin1, delta_micros)
    } else if v1 == (Vector { x: 0, y: 0, z: 0 }) {
        clamped_speed(v2, margin2, delta_micros)
    } else {
        let c1 = clamped_velocity(v1, margin1, delta_micros);
        let c2 = clamped_velocity(v2, margin2, delta_micros);
        c1.minus(c2).norm()
    }
}

/// The distance up to which contacts between two sides are computed.
pub open spec fn max_contact_distance_of(
    v1: Vector,
    v2: Vector,
    margin1: int,
    margin2: int,
    delta_micros: int,
    tolerance: int,
) -> int {
    detection_distance(
        relative_speed(v1, v2, margin1, margin2, delta_micros),
        delta_micros,
        tolerance,
    )
}

proof fn lemma_wf_norm_bound(v: Vector)
    requires
        v.wf(),
    ensures
        0 <= v.norm2() <= 3 * 0x1_0000_0000_0000_0000_0000int,
        0 <= v.norm() < 0x200_0000_0000,
        is_floor_sqrt(v.norm2(), v.norm()),
{
    assert(0 <= v.norm2() <= 3 * 0x1_0000_0000_0000_0000_0000int) by (nonlinear_arith)
        requires
            -0x100_0000_0000int <= v.x <= 0x100_0000_0000int,
            -0x100_0000_0000int <= v.y <= 0x100_0000_0000int,
            -0x100_0000_0000int <= v.z <= 0x100_0000_0000int,
            v.norm2() == v.x * v.x + v.y * v.y + v.z * v.z,
    ;
    crate::math::lemma_floor_sqrt_exists(v.norm2());
    assert(is_floor_sqrt(v.norm2(), v.norm()));
    if v.norm() >= 0x200_0000_0000 {
        crate::math::lemma_square_monotone(0x200_0000_0000, v.norm());
    }
}

/// Where `n` is at most `limit` squared, so is its rounded-down root at most `limit`.
proof fn lemma_sqrt_floor_below(n: int, limit: int)
    requires
        0 <= n <= limit * limit,
        0 <= limit,
    ensures
        sqrt_floor(n) <= limit,
{
    crate::math::lemma_floor_sqrt_exists(n);
    let r = sqrt_floor(n);
    assert(is_floor_sqrt(n, r));
    if r > limit {
        crate::math::lemma_square_monotone(limit + 1, r);
        assert((limit + 1) * (limit + 1) > limit * limit) by (nonlinear_arith)
            requires limit >= 0;
    }
}

fn clamp_speed(v: &Vector, margin: u64, delta_micros: u32) -> (r: u64)
    requires
        v.wf(),
    ensures
        r as int == clamped_speed(*v, margin as int, delta_micros as int),
        r < 0x200_0000_0000,
{
    proof {
        lemma_wf_norm_bound(*v);
    }
    if margin == UNBOUNDED_MARGIN || delta_micros == 0 {
        return v.length();
    }
    assert((margin as int) * 1_000_000 <= 0xffff_ffff_ffff_ffff * 1_000_000int);
    let limit = (margin as u128) * (MICROS_PER_SECOND as u128) / (delta_micros as u128);
    let len2 = v.length_squared();
    if limit >= 0x200_0000_0000 {
        assert(v.norm2() <= limit * limit) by (nonlinear_arith)
            requires
                limit >= 0x200_0000_0000int,
                v.norm2() <= 3 * 0x1_0000_0000_0000_0000_0000int,
        ;
        return v.length();
    }
    assert(limit * limit < 0x4_0000_0000_0000_0000_0000) by (nonlinear_arith)
        requires limit < 0x200_0000_0000int;
    if len2 <= limit * limit {
        v.length()
    } else {
        limit as u64
    }
}

/// Scales a configured distance by the length unit.
pub fn scale_by_length_unit(value: u64, length_unit: u64) -> (r: u64)
    ensures
        r as int == scaled_distance(value as int, length_unit as int),
{
    if value == UNBOUNDED_MARGIN {
        return UNBOUNDED_MARGIN;
    }
    assert((value as int) * (length_unit as int) <= 0xffff_ffff_ffff_ffff * 0xffff_ffff_ffff_ffffint)
        by (nonlinear_arith)
        requires
            value <= 0xffff_ffff_ffff_ffffint,
            length_unit <= 0xffff_ffff_ffff_ffffint,
    ;
    let product = (value as u128) * (length_unit as u128);
    let scaled = product / (PARTS_PER_UNIT as u128);
    if scaled >= UNBOUNDED_MARGIN as u128 {
        UNBOUNDED_MARGIN
    } else {
        scaled as u64
    }
}

/// The collider's margin if it has one, else its body's, else the default.
pub fn resolve_speculative_margin(collider: Option<u64>, body: Option<u64>, default: u64) -> (r:
    u64)
    ensures
        r == resolved_margin(collider, body, default),
{
    match collider {
        Some(m) => m,
        None => match body {
            Some(m) => m,
            None => default,
        },
    }
}

fn clamp_velocity(v: &Vector, margin: u64, delta_micros: u32) -> (r: Vector)
    requires
        v.wf(),
    ensures
        r == clamped_velocity(*v, margin as int, delta_micros as int),
        r.wf(),
{
    if margin == UNBOUNDED_MARGIN || delta_micros == 0 {
        *v
    } else {
        assert((margin as int) * 1_000_000 <= 0xffff_ffff_ffff_ffff * 1_000_000int);
        let limit = (margin as u128) * (MICROS_PER_SECOND as u128) / (delta_micros as u128);
        v.clamp_length_max(limit)
    }
}

/// The maximum distance at which contacts between two sides are detected:
/// each side's velocity is clamped so that it moves at most its margin in one
/// step, the distance is how far the clamped velocities carry the sides towards
/// each other in `delta_micros` (see `relative_speed`), and never less than
/// `contact_tolerance`.
pub fn max_contact_distance(
    v1: &Vector,
    v2: &Vector,
    margin1: u64,
    margin2: u64,
    delta_micros: u32,
    contact_tolerance: u64,
) -> (r: u64)
    requires
        v1.wf(),
        v2.wf(),
    ensures
        r as int == max_contact_distance_of(
            *v1,
            *v2,
            margin1 as int,
            margin2 as int,
            delta_micros as int,
            contact_tolerance as int,
        ),
        r >= contact_tolerance,
{
    let zero = Vector::zero();
    let speed: u64 = if *v2 == zero {
        clamp_speed(v1, margin1, delta_micros)
    } else if *v1 == zero {
        clamp_speed(v2, margin2, delta_micros)
    } else {
        let c1 = clamp_velocity(v1, margin1, delta_micros);
        let c2 = clamp_velocity(v2, margin2, delta_micros);
        let rel = c1.sub(&c2);
        let speed = rel.length();
        proof {
            let n = rel.norm2();
            assert(n <= 3 * 0x4_0000_0000_0000_0000_0000int) by (nonlinear_arith)
                requires
                    -0x200_0000_0000int <= rel.x <= 0x200_0000_0000int,
                    -0x200_0000_0000int <= rel.y <= 0x200_0000_0000int,
                    -0x200_0000_0000int <= rel.z <= 0x200_0000_0000int,
                    n == rel.x * rel.x + rel.y * rel.y + rel.z * rel.z,
            ;
            assert(is_floor_sqrt(n, speed as int));
            if speed >= 0x400_0000_0000 {
                crate::math::lemma_square_monotone(0x400_0000_0000, speed as int);
            }
        }
        speed
    };
    proof {
        assert((delta_micros as int) * (speed as int) <= 0xffff_ffff * 0x400_0000_0000int)
            by (nonlinear_arith)
            requires
                delta_micros <= 0xffff_ffff,
                speed < 0x400_0000_0000,
        ;
    }
    let effective = ((delta_micros as u128) * (speed as u128) / (MICROS_PER_SECOND as u128)) as u64;
    if effective >= contact_tolerance {
        effective
    } else {
        contact_tolerance
    }
}

/// The detection distance never decreases as the relative speed grows, and
/// never falls below the contact tolerance.
pub proof fn lemma_detection_distance_monotone(
    speed1: int,
    speed2: int,
    delta_micros: int,
    tolerance: int,
)
    requires
        0 <= speed1 <= speed2,
        0 <= delta_micros,
    ensures
        detection_distance(speed1, delta_micros, tolerance) <= detection_distance(
            speed2,
            delta_micros,
            tolerance,
        ),
        detection_distance(speed1, delta_micros, tolerance) >= tolerance,
{
    lemma_mul_inequality(speed1, speed2, delta_micros);
    assert(delta_micros * speed1 <= delta_micros * speed2) by (nonlinear_arith)
        requires speed1 * delta_micros <= speed2 * delta_micros;
    lemma_div_is_ordered(
        delta_micros * speed1,
        delta_micros * speed2,
        MICROS_PER_SECOND as int,
    );
}

/// Where neither side's margin clamps its velocity, the maximum contact
/// distance never decreases as the relative speed of the two sides grows, and
/// never falls below the contact tolerance.
pub proof fn lemma_max_contact_distance_monotone(
    a1: Vector,
    a2: Vector,
    b1: Vector,
    b2: Vector,
    delta_micros: int,
    tolerance: int,
)
    requires
        0 <= delta_micros,
        a1.wf(),
        a2.wf(),
        b1.wf(),
        b2.wf(),
        a1.minus(a2).norm2() <= b1.minus(b2).norm2(),
    ensures
        max_contact_distance_of(
            a1,
            a2,
            UNBOUNDED_MARGIN as int,
            UNBOUNDED_MARGIN as int,
            delta_micros,
            tolerance,
        ) <= max_contact_distance_of(
            b1,
            b2,
            UNBOUNDED_MARGIN as int,
            UNBOUNDED_MARGIN as int,
            delta_micros,
            tolerance,
        ),
        max_contact_distance_of(
            a1,
            a2,
            UNBOUNDED_MARGIN as int,
            UNBOUNDED_MARGIN as int,
            delta_micros,
            tolerance,
        ) >= tolerance,
{
    let ra = a1.minus(a2);
    let rb = b1.minus(b2);
    assert(ra.norm2() >= 0) by (nonlinear_arith)
        requires ra.norm2() == ra.x * ra.x + ra.y * ra.y + ra.z * ra.z;
    lemma_sqrt_floor_monotone(ra.norm2(), rb.norm2());
    lemma_unbounded_relative_speed(a1, a2, delta_micros);
    lemma_unbounded_relative_speed(b1, b2, delta_micros);
    lemma_detection_distance_monotone(ra.norm(), rb.norm(), delta_micros, tolerance);
}

proof fn lemma_unbounded_relative_speed(v1: Vector, v2: Vector, delta_micros: int)
    requires
        v1.wf(),
        v2.wf(),
    ensures
        relative_speed(v1, v2, UNBOUNDED_MARGIN as int, UNBOUNDED_MARGIN as int, delta_micros)
            == v1.minus(v2).norm(),
{
    let zero = Vector { x: 0, y: 0, z: 0 };
    if v2 == zero {
        assert(v1.minus(v2) == v1);
    } else if v1 == zero {
        let d = v1.minus(v2);
        assert(d.norm2() == v2.norm2()) by (nonlinear_arith)
            requires
                d.x == -v2.x,
                d.y == -v2.y,
                d.z == -v2.z,
                d.norm2() == d.x * d.x + d.y * d.y + d.z * d.z,
                v2.norm2() == v2.x * v2.x + v2.y * v2.y + v2.z * v2.z,
        ;
    }
}

/// With the other side at rest, the maximum contact distance never decreases
/// as the speed of the moving side grows, whatever the margins.
pub proof fn lemma_max_contact_distance_monotone_at_rest(
    a: Vector,
    b: Vector,
    margin1: int,
    margin2: int,
    delta_micros: int,
    tolerance: int,
)
    requires
        0 <= delta_micros,
        0 <= margin1,
        a.wf(),
        b.wf(),
        a.norm2() <= b.norm2(),
    ensures
        max_contact_distance_of(
            a,
            Vector { x: 0, y: 0, z: 0 },
            margin1,
            margin2,
            delta_micros,
            tolerance,
        ) <= max_contact_distance_of(
            b,
            Vector { x: 0, y: 0, z: 0 },
            margin1,
            margin2,
            delta_micros,
            tolerance,
        ),
        max_contact_distance_of(
            a,
            Vector { x: 0, y: 0, z: 0 },
            margin1,
            margin2,
            delta_micros,
            tolerance,
        ) >= tolerance,
{
    lemma_wf_norm_bound(a);
    lemma_wf_norm_bound(b);
    lemma_sqrt_floor_monotone(a.norm2(), b.norm2());
    let sa = clamped_speed(a, margin1, delta_micros);
    let sb = clamped_speed(b, margin1, delta_micros);
    if speed_limit(margin1, delta_micros) is Some {
        let limit = speed_limit(margin1, delta_micros).unwrap();
        assert(limit >= 0) by (nonlinear_arith)
            requires
                limit == margin1 * 1_000_000 / delta_micros,
                margin1 >= 0,
                delta_micros > 0,
        ;
        if a.norm2() <= limit * limit {
            lemma_sqrt_floor_below(a.norm2(), limit);
        }
    }
    assert(0 <= sa <= sb);
    lemma_detection_distance_monotone(sa, sb, delta_micros, tolerance);
}

/// The maximum contact distance is the same whichever side comes first.
pub proof fn lemma_max_contact_distance_symmetric(
    v1: Vector,
    v2: Vector,
    margin1: int,
    margin2: int,
    delta_micros: int,
    tolerance: int,
)
    requires
        v1.wf(),
        v2.wf(),
        clamped_velocity(v1, margin1, delta_micros).wf(),
        clamped_velocity(v2, margin2, delta_micros).wf(),
    ensures
        max_contact_distance_of(v1, v2, margin1, margin2, delta_micros, tolerance)
            == max_contact_distance_of(v2, v1, margin2, margin1, delta_micros, tolerance),
{
    let zero = Vector { x: 0, y: 0, z: 0 };
    if v1 == zero && v2 == zero {
        crate::math::lemma_floor_sqrt_unique(0, 0);
        assert(zero.norm2() == 0);
        if speed_limit(margin1, delta_micros) is Some {
            assert(0 <= speed_limit(margin1, delta_micros).unwrap() * speed_limit(margin1, delta_micros).unwrap()) by (nonlinear_arith);
        }
        if speed_limit(margin2, delta_micros) is Some {
            assert(0 <= speed_limit(margin2, delta_micros).unwrap() * speed_limit(margin2, delta_micros).unwrap()) by (nonlinear_arith);
        }
    }
    let c1 = clamped_velocity(v1, margin1, delta_micros);
    let c2 = clamped_velocity(v2, margin2, delta_micros);
    let d = c1.minus(c2);
    let e = c2.minus(c1);
    assert(d.norm2() == e.norm2()) by (nonlinear_arith)
        requires
            d.x == -e.x,
            d.y == -e.y,
            d.z == -e.z,
            d.norm2() == d.x * d.x + d.y * d.y + d.z * d.z,
            e.norm2() == e.x * e.x + e.y * e.y + e.z * e.z,
    ;
}

} // verus!
