//! Fixed-point vectors and the integer square root they need.
use vstd::arithmetic::div_mod::{lemma_div_is_ordered, lemma_div_multiples_vanish};
use vstd::arithmetic::mul::lemma_mul_inequality;
use vstd::math::abs;
use vstd::prelude::*;

verus! {

/// Largest magnitude of a vector component (positions in length quanta,
/// velocities in length quanta per second).
pub const MAX_COMPONENT: i64 = 1_099_511_627_776;

/// A 3D vector of fixed-point components.
#[derive(Clone, Copy, Debug, PartialEq, Eq, Structural)]
pub struct Vector {
    pub x: i64,
    pub y: i64,
    pub z: i64,
}

/// A rotation as a fixed-point unit quaternion; only handed on to the geometry backend.
#[derive(Clone, Copy, Debug, PartialEq, Eq, Structural)]
pub struct Rotation {
    pub x: i64,
    pub y: i64,
    pub z: i64,
    pub w: i64,
}

pub open spec fn component_wf(c: int) -> bool {
    -MAX_COMPONENT <= c <= MAX_COMPONENT
}

/// `r` is the integer square root of `n`, rounded down.
pub open spec fn is_floor_sqrt(n: int, r: int) -> bool {
    0 <= r && r * r <= n && n < (r + 1) * (r + 1)
}

/// The integer square root of `n`, rounded down.
pub open spec fn sqrt_floor(n: int) -> int {
    if exists|r: int| #[trigger] is_floor_sqrt(n, r) {
        choose|r: int| #[trigger] is_floor_sqrt(n, r)
    } else {
        0
    }
}

/// `c * num / den`, rounded toward zero.
pub open spec fn scale_component(c: int, num: int, den: int) -> int {
    if c >= 0 {
        (c * num) / den
    } else {
        -(((-c) * num) / den)
    }
}

pub proof fn lemma_floor_sqrt_exists(n: int)
    requires
        n >= 0,
    ensures
        exists|r: int| #[trigger] is_floor_sqrt(n, r),
    decreases n,
{
    if n == 0 {
        assert(is_floor_sqrt(0, 0));
    } else {
        lemma_floor_sqrt_exists(n - 1);
        let r = choose|r: int| #[trigger] is_floor_sqrt(n - 1, r);
        if n < (r + 1) * (r + 1) {
            assert(is_floor_sqrt(n, r));
        } else {
            assert((r + 1) * (r + 1) <= n);
            assert(n < (r + 2) * (r + 2)) by (nonlinear_arith)
                requires
                    n - 1 < (r + 1) * (r + 1),
                    r >= 0,
            ;
            assert(is_floor_sqrt(n, r + 1));
        }
    }
}

/// Squaring is monotone on non-negative integers.
pub proof fn lemma_square_monotone(a: int, b: int)
    requires
        0 <= a <= b,
    ensures
        a * a <= b * b,
{
    lemma_mul_inequality(a, b, a);
    lemma_mul_inequality(a, b, b);
}

pub proof fn lemma_floor_sqrt_unique(n: int, r: int)
    requires
        is_floor_sqrt(n, r),
    ensures
        sqrt_floor(n) == r,
{
    let s = sqrt_floor(n);
    assert(is_floor_sqrt(n, s));
    if s < r {
        lemma_square_monotone(s + 1, r);
    } else if r < s {
        lemma_square_monotone(r + 1, s);
    }
}

/// The rounded-down square root never decreases as its argument grows.
pub proof fn lemma_sqrt_floor_monotone(a: int, b: int)
    requires
        0 <= a <= b,
    ensures
        0 <= sqrt_floor(a) <= sqrt_floor(b),
{
    lemma_floor_sqrt_exists(a);
    lemma_floor_sqrt_exists(b);
    let ra = sqrt_floor(a);
    let rb = sqrt_floor(b);
    assert(is_floor_sqrt(a, ra));
    assert(is_floor_sqrt(b, rb));
    if ra > rb {
        lemma_square_monotone(rb + 1, ra);
    }
}

/// Integer square root of `n`, rounded down.
pub fn floor_sqrt(n: u128) -> (r: u64)
    ensures
        is_floor_sqrt(n as int, r as int),
        r as int == sqrt_floor(n as int),
{
    let mut lo: u128 = 0;
    let mut hi: u128 = 0x1_0000_0000_0000_0000;
    assert(n < hi * hi) by (nonlinear_arith)
        requires
            hi == 0x1_0000_0000_0000_0000u128,
            n <= 0xffff_ffff_ffff_ffff_ffff_ffff_ffff_ffffu128,
    ;
    while hi - lo > 1
        invariant
            lo < hi <= 0x1_0000_0000_0000_0000u128,
            lo * lo <= n,
            n < hi * hi,
        decreases hi - lo,
    {
        let mid: u128 = lo + (hi - lo) / 2;
        assert(mid * mid < 0x1_0000_0000_0000_0000_0000_0000_0000_0000) by (nonlinear_arith)
            requires
                mid < 0x1_0000_0000_0000_0000int,
        ;
        if mid * mid <= n {
            lo = mid;
        } else {
            hi = mid;
        }
    }
    assert(hi == lo + 1);
    proof {
        lemma_floor_sqrt_unique(n as int, lo as int);
    }
    lo as u64
}

proof fn lemma_scale_component_bound(c: int, num: int, den: int)
    requires
        0 <= num <= den,
        den > 0,
    ensures
        abs(scale_component(c, num, den)) <= abs(c),
{
    let m = abs(c) as int;
    lemma_mul_inequality(num, den, m);
    assert(m * num <= m * den) by (nonlinear_arith)
        requires num <= den, m >= 0;
    lemma_div_is_ordered(m * num, m * den, den);
    lemma_div_multiples_vanish(m, den);
    assert(m * num >= 0) by (nonlinear_arith)
        requires num >= 0, m >= 0;
    assert((m * num) / den >= 0);
}

/// Clamping keeps every component within the bounds of the unclamped vector.
pub proof fn lemma_clamped_wf(v: Vector, max: int)
    requires
        v.wf(),
        max >= 0,
    ensures
        v.clamped(max).wf(),
{
    let n = v.norm2();
    if n > max * max {
        assert(max * max >= 0) by (nonlinear_arith);
        lemma_floor_sqrt_exists(n);
        let l = v.norm();
        assert(is_floor_sqrt(n, l));
        if max > l {
            lemma_square_monotone(l + 1, max);
        }
        assert(l >= 1) by (nonlinear_arith)
            requires
                n < (l + 1) * (l + 1),
                n > max * max,
                max * max >= 0,
                l >= 0,
        ;
        lemma_scale_component_bound(v.x as int, max, l);
        lemma_scale_component_bound(v.y as int, max, l);
        lemma_scale_component_bound(v.z as int, max, l);
    }
}

impl Vector {
    pub open spec fn wf(&self) -> bool {
        component_wf(self.x as int) && component_wf(self.y as int) && component_wf(self.z as int)
    }

    /// The squared Euclidean length.
    pub open spec fn norm2(&self) -> int {
        self.x * self.x + self.y * self.y + self.z * self.z
    }

    /// The Euclidean length, rounded down.
    pub open spec fn norm(&self) -> int {
        sqrt_floor(self.norm2())
    }

    pub open spec fn minus(&self, o: Vector) -> Vector {
        Vector { x: (self.x - o.x) as i64, y: (self.y - o.y) as i64, z: (self.z - o.z) as i64 }
    }

    /// The vector scaled so that its length is at most `max`, each component
    /// rounded toward zero.
    pub open spec fn clamped(&self, max: int) -> Vector {
        if self.norm2() <= max * max {
            *self
        } else {
            let l = self.norm();
            Vector {
                x: scale_component(self.x as int, max, l) as i64,
                y: scale_component(self.y as int, max, l) as i64,
                z: scale_component(self.z as int, max, l) as i64,
            }
        }
    }

    pub fn zero() -> (r: Vector)
        ensures
            r == (Vector { x: 0, y: 0, z: 0 }),
    {
        Vector { x: 0, y: 0, z: 0 }
    }

    pub fn new(x: i64, y: i64, z: i64) -> (r: Vector)
        ensures
            r == (Vector { x, y, z }),
    {
        Vector { x, y, z }
    }

    /// The squared length; exact for every `i64` vector.
    pub fn length_squared(&self) -> (r: u128)
        ensures
            r as int == self.norm2(),
    {
        let x = self.x as i128;
        let y = self.y as i128;
        let z = self.z as i128;
        proof {
            assert(0 <= x * x <= 0x4000_0000_0000_0000_0000_0000_0000_0000) by (nonlinear_arith)
                requires
                    -0x8000_0000_0000_0000 <= x <= 0x7fff_ffff_ffff_ffff,
            ;
            assert(0 <= y * y <= 0x4000_0000_0000_0000_0000_0000_0000_0000) by (nonlinear_arith)
                requires
                    -0x8000_0000_0000_0000 <= y <= 0x7fff_ffff_ffff_ffff,
            ;
            assert(0 <= z * z <= 0x4000_0000_0000_0000_0000_0000_0000_0000) by (nonlinear_arith)
                requires
                    -0x8000_0000_0000_0000 <= z <= 0x7fff_ffff_ffff_ffff,
            ;
        }
        let xx = (x * x) as u128;
        let yy = (y * y) as u128;
        let zz = (z * z) as u128;
        xx + yy + zz
    }

    /// The Euclidean length, rounded down.
    pub fn length(&self) -> (r: u64)
        ensures
            r as int == self.norm(),
            is_floor_sqrt(self.norm2(), r as int),
    {
        floor_sqrt(self.length_squared())
    }

    pub fn sub(&self, o: &Vector) -> (r: Vector)
        requires
            self.wf(),
            o.wf(),
        ensures
            r == self.minus(*o),
            r.x == self.x - o.x,
            r.y == self.y - o.y,
            r.z == self.z - o.z,
    {
        Vector { x: self.x - o.x, y: self.y - o.y, z: self.z - o.z }
    }

    /// Scales the vector down so that its length is at most `max`.
    pub fn clamp_length_max(&self, max: u128) -> (r: Vector)
        requires
            self.wf(),
        ensures
            r == self.clamped(max as int),
            r.wf(),
            abs(r.x as int) <= abs(self.x as int),
            abs(r.y as int) <= abs(self.y as int),
            abs(r.z as int) <= abs(self.z as int),
    {
        let len2 = self.length_squared();
        if max >= 0x1_0000_0000_0000_0000 {
            assert(self.norm2() <= max * max) by (nonlinear_arith)
                requires
                    max >= 0x1_0000_0000_0000_0000int,
                    self.norm2() == len2,
                    len2 <= 0xffff_ffff_ffff_ffff_ffff_ffff_ffff_ffffint,
            ;
            return *self;
        }
        assert(max * max < 0x1_0000_0000_0000_0000_0000_0000_0000_0000) by (nonlinear_arith)
            requires
                0 <= max < 0x1_0000_0000_0000_0000int,
        ;
        if len2 <= max * max {
            return *self;
        }
        let l = floor_sqrt(len2);
        proof {
            // max < l + 1, so max <= l
            if max > l {
                lemma_square_monotone(l as int + 1, max as int);
            }
            assert(l >= 1) by (nonlinear_arith)
                requires
                    (len2 as int) < (l as int + 1) * (l as int + 1),
                    (len2 as int) > (max as int) * (max as int),
                    l >= 0,
            ;
        }
        let x = Self::scale_toward_zero(self.x, max as u64, l);
        let y = Self::scale_toward_zero(self.y, max as u64, l);
        let z = Self::scale_toward_zero(self.z, max as u64, l);
        Vector { x, y, z }
    }

    fn scale_toward_zero(c: i64, num: u64, den: u64) -> (r: i64)
        requires
            component_wf(c as int),
            0 < den,
            num <= den,
        ensures
            r == scale_component(c as int, num as int, den as int),
            abs(r as int) <= abs(c as int),
    {
        let m: u128 = if c >= 0 { c as u128 } else { (-c) as u128 };
        proof {
            lemma_mul_inequality(num as int, den as int, m as int);
            assert(m * num <= m * den) by (nonlinear_arith)
                requires num <= den, m >= 0;
            lemma_div_is_ordered((m * num) as int, (m * den) as int, den as int);
            lemma_div_multiples_vanish(m as int, den as int);
            assert((m * den) / (den as int) == m) by (nonlinear_arith)
                requires m * den / (den as int) == m as int;
            assert(m * num <= 0xffff_ffff_ffff_ffff_ffff_ffff_ffff) by (nonlinear_arith)
                requires m <= MAX_COMPONENT as int, num <= 0xffff_ffff_ffff_ffffint;
        }
        let s = (m * (num as u128)) / (den as u128);
        if c >= 0 {
            s as i64
        } else {
            -(s as i64)
        }
    }
}

} // verus!
