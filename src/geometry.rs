use vstd::prelude::*;

verus! {

/// Largest magnitude of a coordinate in world or camera space.
pub const COORD_LIMIT: i64 = 0x8000_0000;

/// Largest magnitude of a coordinate in screen space (pixels).
pub const SCREEN_LIMIT: i64 = 0x8000_0000_0000;

/// The fixed-point one of rotation and scale factors.
pub const FIXED_ONE: i64 = 0x10000;

/// Full intensity of the shading attribute `h`; zero intensity is black.
pub const INTENSITY_ONE: i64 = 256;

pub open spec fn abs_int(v: int) -> int {
    if v < 0 {
        -v
    } else {
        v
    }
}

/// Clamps a shading intensity into `0..=INTENSITY_ONE`.
pub open spec fn clamp_intensity(h: int) -> int {
    if h < 0 {
        0
    } else if h > INTENSITY_ONE {
        INTENSITY_ONE as int
    } else {
        h
    }
}

/// Clamps a world or camera-space coordinate into `-COORD_LIMIT..=COORD_LIMIT`.
pub open spec fn clamp_coord(v: int) -> i64 {
    if v < -COORD_LIMIT {
        (-COORD_LIMIT) as i64
    } else if v > COORD_LIMIT {
        COORD_LIMIT
    } else {
        v as i64
    }
}

/// `a / b` rounded down.
pub fn floor_div(a: i128, b: i128) -> (q: i128)
    requires
        b > 0,
        -0x1_0000_0000_0000_0000_0000_0000 <= a <= 0x1_0000_0000_0000_0000_0000_0000,
    ensures
        q == a / b,
{
    proof {
        if a >= 0 {
            vstd::arithmetic::div_mod::lemma_div_is_ordered_by_denominator(a as int, 1, b as int);
            vstd::arithmetic::div_mod::lemma_div_pos_is_pos(a as int, b as int);
        } else {
            vstd::arithmetic::div_mod::lemma_div_is_ordered(a as int, 0, b as int);
            vstd::arithmetic::div_mod::lemma_fundamental_div_mod(a as int, b as int);
            assert((a as int) / (b as int) >= a) by (nonlinear_arith)
                requires
                    a < 0,
                    b > 0,
                    a == b * (a / b) + a % b,
                    0 <= a % b < b,
            ;
        }
    }
    match a.checked_div_euclid(b) {
        Some(q) => q,
        None => 0,
    }
}

pub fn clamp_intensity_exec(h: i64) -> (r: i64)
    ensures
        r == clamp_intensity(h as int),
{
    if h < 0 {
        0
    } else if h > INTENSITY_ONE {
        INTENSITY_ONE
    } else {
        h
    }
}

pub fn clamp_coord_exec(v: i128) -> (r: i64)
    ensures
        r == clamp_coord(v as int),
{
    if v < -(COORD_LIMIT as i128) {
        -COORD_LIMIT
    } else if v > COORD_LIMIT as i128 {
        COORD_LIMIT
    } else {
        v as i64
    }
}

/// A point in screen space (origin at the center, +y up) with a shading intensity.
#[derive(Clone, Copy, Debug, PartialEq, Eq, Structural)]
pub struct Point2 {
    pub x: i64,
    pub y: i64,
    pub h: i64,
}

impl Point2 {
    /// Builds a screen point; the intensity is clamped into `0..=INTENSITY_ONE`.
    pub fn new(x: i64, y: i64, h: i64) -> (p: Point2)
        ensures
            p.x == x,
            p.y == y,
            p.h == clamp_intensity(h as int),
    {
        Point2 { x, y, h: clamp_intensity_exec(h) }
    }

    /// Coordinates within `SCREEN_LIMIT` and an intensity within `0..=INTENSITY_ONE`.
    pub open spec fn in_range(&self) -> bool {
        &&& -SCREEN_LIMIT <= self.x <= SCREEN_LIMIT
        &&& -SCREEN_LIMIT <= self.y <= SCREEN_LIMIT
        &&& 0 <= self.h <= INTENSITY_ONE
    }
}

/// A point in world or camera space with a shading intensity.
#[derive(Clone, Copy, Debug, PartialEq, Eq, Structural)]
pub struct Point3 {
    pub x: i64,
    pub y: i64,
    pub z: i64,
    pub h: i64,
}

impl Point3 {
    /// Builds a point; the intensity is clamped into `0..=INTENSITY_ONE`.
    pub fn new(x: i64, y: i64, z: i64, h: i64) -> (p: Point3)
        ensures
            p.x == x,
            p.y == y,
            p.z == z,
            p.h == clamp_intensity(h as int),
    {
        Point3 { x, y, z, h: clamp_intensity_exec(h) }
    }

    /// Coordinates within `COORD_LIMIT` and an intensity within `0..=INTENSITY_ONE`.
    pub open spec fn in_range(&self) -> bool {
        &&& -COORD_LIMIT <= self.x <= COORD_LIMIT
        &&& -COORD_LIMIT <= self.y <= COORD_LIMIT
        &&& -COORD_LIMIT <= self.z <= COORD_LIMIT
        &&& 0 <= self.h <= INTENSITY_ONE
    }
}

/// A triple of integers: a plane normal, a translation, or fixed-point scale factors.
#[derive(Clone, Copy, Debug, PartialEq, Eq, Structural)]
pub struct Vector3 {
    pub x: i64,
    pub y: i64,
    pub z: i64,
}

impl Vector3 {
    pub fn new(x: i64, y: i64, z: i64) -> (v: Vector3)
        ensures
            v == (Vector3 { x, y, z }),
    {
        Vector3 { x, y, z }
    }

    /// Every component within `COORD_LIMIT`.
    pub open spec fn in_range(&self) -> bool {
        &&& -COORD_LIMIT <= self.x <= COORD_LIMIT
        &&& -COORD_LIMIT <= self.y <= COORD_LIMIT
        &&& -COORD_LIMIT <= self.z <= COORD_LIMIT
    }
}

/// An angle held as its cosine and sine in fixed point (`FIXED_ONE` is 1).
#[derive(Clone, Copy, Debug, PartialEq, Eq, Structural)]
pub struct Angle {
    pub cos: i64,
    pub sin: i64,
}

pub open spec fn clamp_unit(v: int) -> int {
    if v < -FIXED_ONE {
        -FIXED_ONE as int
    } else if v > FIXED_ONE {
        FIXED_ONE as int
    } else {
        v
    }
}

fn clamp_unit_exec(v: i64) -> (r: i64)
    ensures
        r == clamp_unit(v as int),
{
    if v < -FIXED_ONE {
        -FIXED_ONE
    } else if v > FIXED_ONE {
        FIXED_ONE
    } else {
        v
    }
}

impl Angle {
    /// Builds an angle from its fixed-point cosine and sine, each clamped into
    /// `-FIXED_ONE..=FIXED_ONE`.
    pub fn new(cos: i64, sin: i64) -> (a: Angle)
        ensures
            a.cos == clamp_unit(cos as int),
            a.sin == clamp_unit(sin as int),
    {
        Angle { cos: clamp_unit_exec(cos), sin: clamp_unit_exec(sin) }
    }

    /// The angle zero.
    pub fn zero() -> (a: Angle)
        ensures
            a.cos == FIXED_ONE,
            a.sin == 0,
    {
        Angle { cos: FIXED_ONE, sin: 0 }
    }

    /// A true angle up to rounding: cosine and sine each within one, and
    /// `cos^2 + sin^2` within `2 * FIXED_ONE` of `FIXED_ONE^2` (what rounding an exact
    /// cosine and sine to the nearest integer gives). Rotations by such angles are proper
    /// rotations up to that rounding.
    pub open spec fn wf(&self) -> bool {
        &&& -FIXED_ONE <= self.cos <= FIXED_ONE
        &&& -FIXED_ONE <= self.sin <= FIXED_ONE
        &&& abs_int(self.cos * self.cos + self.sin * self.sin - FIXED_ONE * FIXED_ONE) <= 2
            * FIXED_ONE
    }

    /// Whether this angle is well formed; see `wf`.
    pub fn is_unit(&self) -> (r: bool)
        ensures
            r == self.wf(),
    {
        if self.cos < -FIXED_ONE || self.cos > FIXED_ONE || self.sin < -FIXED_ONE || self.sin
            > FIXED_ONE {
            return false;
        }
        assert(0 <= self.cos * self.cos <= FIXED_ONE * FIXED_ONE) by (nonlinear_arith)
            requires
                -FIXED_ONE <= self.cos <= FIXED_ONE,
        ;
        assert(0 <= self.sin * self.sin <= FIXED_ONE * FIXED_ONE) by (nonlinear_arith)
            requires
                -FIXED_ONE <= self.sin <= FIXED_ONE,
        ;
        let n: i64 = self.cos * self.cos + self.sin * self.sin - FIXED_ONE * FIXED_ONE;
        -2 * FIXED_ONE <= n && n <= 2 * FIXED_ONE
    }
}

} // verus!
