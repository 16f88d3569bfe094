use vstd::prelude::*;

use crate::geometry::{clamp_coord, clamp_coord_exec, floor_div, Angle, Point3, Vector3, FIXED_ONE};

verus! {

/// Euler angles about the x, y and z axes.
#[derive(Clone, Copy, Debug, PartialEq, Eq, Structural)]
pub struct Rotation {
    pub x: Angle,
    pub y: Angle,
    pub z: Angle,
}

impl Rotation {
    pub fn new(x: Angle, y: Angle, z: Angle) -> (r: Rotation)
        ensures
            r == (Rotation { x, y, z }),
    {
        Rotation { x, y, z }
    }

    /// No rotation about any axis.
    pub fn identity() -> (r: Rotation)
        ensures
            r.x.cos == FIXED_ONE && r.x.sin == 0,
            r.y.cos == FIXED_ONE && r.y.sin == 0,
            r.z.cos == FIXED_ONE && r.z.sin == 0,
    {
        Rotation { x: Angle::zero(), y: Angle::zero(), z: Angle::zero() }
    }

    /// Each angle a true angle up to rounding; see `Angle::wf`.
    pub open spec fn wf(&self) -> bool {
        self.x.wf() && self.y.wf() && self.z.wf()
    }

    /// Whether every angle is well formed; see `wf`.
    pub fn is_proper(&self) -> (r: bool)
        ensures
            r == self.wf(),
    {
        self.x.is_unit() && self.y.is_unit() && self.z.is_unit()
    }
}

/// `p` scaled per axis by the fixed-point factors `s`, rounded down and clamped.
pub open spec fn scaled(p: Point3, s: Vector3) -> Point3 {
    Point3 {
        x: clamp_coord((s.x * p.x) / FIXED_ONE as int),
        y: clamp_coord((s.y * p.y) / FIXED_ONE as int),
        z: clamp_coord((s.z * p.z) / FIXED_ONE as int),
        h: p.h,
    }
}

/// `p` rotated by `a` about the x axis (y towards z), rounded down and clamped.
pub open spec fn rotated_x(p: Point3, a: Angle) -> Point3 {
    Point3 {
        x: p.x,
        y: clamp_coord((a.cos * p.y - a.sin * p.z) / FIXED_ONE as int),
        z: clamp_coord((a.sin * p.y + a.cos * p.z) / FIXED_ONE as int),
        h: p.h,
    }
}

/// `p` rotated by `a` about the y axis (z towards x), rounded down and clamped.
pub open spec fn rotated_y(p: Point3, a: Angle) -> Point3 {
    Point3 {
        x: clamp_coord((a.cos * p.x + a.sin * p.z) / FIXED_ONE as int),
        y: p.y,
        z: clamp_coord((a.cos * p.z - a.sin * p.x) / FIXED_ONE as int),
        h: p.h,
    }
}

/// `p` rotated by `a` about the z axis (x towards y), rounded down and clamped.
pub open spec fn rotated_z(p: Point3, a: Angle) -> Point3 {
    Point3 {
        x: clamp_coord((a.cos * p.x - a.sin * p.y) / FIXED_ONE as int),
        y: clamp_coord((a.sin * p.x + a.cos * p.y) / FIXED_ONE as int),
        z: p.z,
        h: p.h,
    }
}

/// `p` moved by `t`, clamped.
pub open spec fn translated(p: Point3, t: Vector3) -> Point3 {
    Point3 {
        x: clamp_coord(p.x + t.x),
        y: clamp_coord(p.y + t.y),
        z: clamp_coord(p.z + t.z),
        h: p.h,
    }
}

/// `p` moved by minus `t`, clamped.
pub open spec fn untranslated(p: Point3, t: Vector3) -> Point3 {
    Point3 {
        x: clamp_coord(p.x - t.x),
        y: clamp_coord(p.y - t.y),
        z: clamp_coord(p.z - t.z),
        h: p.h,
    }
}

/// An object's transform applied to `p`: scale, then rotation about x, y and z in turn,
/// then translation (the product `T * Rz * Ry * Rx * S`).
pub open spec fn placed(p: Point3, scale: Vector3, rot: Rotation, trans: Vector3) -> Point3 {
    translated(rotated_z(rotated_y(rotated_x(scaled(p, scale), rot.x), rot.y), rot.z), trans)
}

/// The world point `p` seen from a camera at `position` with orientation `rot`: translation
/// by minus `position`, then rotation about z, y and x in turn (the product
/// `Rx * Ry * Rz * T(-position)`). The camera's own orientation is taken to be the negated
/// angles, `Rz(-z) * Ry(-y) * Rx(-x)`, whose inverse this applies; so the angles are used as
/// given, and a camera angle turns the view the opposite way from the same angle on an
/// instance.
pub open spec fn viewed(p: Point3, position: Vector3, rot: Rotation) -> Point3 {
    rotated_x(rotated_y(rotated_z(untranslated(p, position), rot.z), rot.y), rot.x)
}

proof fn lemma_turn_bound(c: int, s: int, u: int, v: int)
    requires
        -FIXED_ONE <= c <= FIXED_ONE,
        -FIXED_ONE <= s <= FIXED_ONE,
        -0x8000_0000 <= u <= 0x8000_0000,
        -0x8000_0000 <= v <= 0x8000_0000,
    ensures
        -0x1_0000_0000_0000 <= c * u - s * v <= 0x1_0000_0000_0000,
        -0x1_0000_0000_0000 <= c * u + s * v <= 0x1_0000_0000_0000,
{
    assert(-0x8000_0000_0000 <= c * u <= 0x8000_0000_0000) by (nonlinear_arith)
        requires
            -0x10000 <= c <= 0x10000,
            -0x8000_0000 <= u <= 0x8000_0000,
    ;
    assert(-0x8000_0000_0000 <= s * v <= 0x8000_0000_0000) by (nonlinear_arith)
        requires
            -0x10000 <= s <= 0x10000,
            -0x8000_0000 <= v <= 0x8000_0000,
    ;
}

/// `(c * u - s * v) / FIXED_ONE` (or with `+` when `plus`), rounded down and clamped.
fn turn(c: i64, s: i64, u: i64, v: i64, plus: bool) -> (r: i64)
    requires
        -FIXED_ONE <= c <= FIXED_ONE,
        -FIXED_ONE <= s <= FIXED_ONE,
        -0x8000_0000 <= u <= 0x8000_0000,
        -0x8000_0000 <= v <= 0x8000_0000,
    ensures
        plus ==> r == clamp_coord((c * u + s * v) / FIXED_ONE as int),
        !plus ==> r == clamp_coord((c * u - s * v) / FIXED_ONE as int),
{
    proof {
        lemma_turn_bound(c as int, s as int, u as int, v as int);
    }
    let cu = c as i128 * u as i128;
    let sv = s as i128 * v as i128;
    let n = if plus {
        cu + sv
    } else {
        cu - sv
    };
    clamp_coord_exec(floor_div(n, FIXED_ONE as i128))
}

pub fn scale(p: Point3, s: Vector3) -> (r: Point3)
    requires
        p.in_range(),
        s.in_range(),
    ensures
        r == scaled(p, s),
        r.in_range(),
{
    assert(-0x4000_0000_0000_0000 <= s.x * p.x <= 0x4000_0000_0000_0000) by (nonlinear_arith)
        requires
            -0x8000_0000 <= s.x <= 0x8000_0000,
            -0x8000_0000 <= p.x <= 0x8000_0000,
    ;
    assert(-0x4000_0000_0000_0000 <= s.y * p.y <= 0x4000_0000_0000_0000) by (nonlinear_arith)
        requires
            -0x8000_0000 <= s.y <= 0x8000_0000,
            -0x8000_0000 <= p.y <= 0x8000_0000,
    ;
    assert(-0x4000_0000_0000_0000 <= s.z * p.z <= 0x4000_0000_0000_0000) by (nonlinear_arith)
        requires
            -0x8000_0000 <= s.z <= 0x8000_0000,
            -0x8000_0000 <= p.z <= 0x8000_0000,
    ;
    Point3 {
        x: clamp_coord_exec(floor_div(s.x as i128 * p.x as i128, FIXED_ONE as i128)),
        y: clamp_coord_exec(floor_div(s.y as i128 * p.y as i128, FIXED_ONE as i128)),
        z: clamp_coord_exec(floor_div(s.z as i128 * p.z as i128, FIXED_ONE as i128)),
        h: p.h,
    }
}

pub fn rotate_x(p: Point3, a: Angle) -> (r: Point3)
    requires
        p.in_range(),
        a.wf(),
    ensures
        r == rotated_x(p, a),
        r.in_range(),
{
    Point3 {
        x: p.x,
        y: turn(a.cos, a.sin, p.y, p.z, false),
        z: turn(a.cos, a.sin, p.z, p.y, true),
        h: p.h,
    }
}

pub fn rotate_y(p: Point3, a: Angle) -> (r: Point3)
    requires
        p.in_range(),
        a.wf(),
    ensures
        r == rotated_y(p, a),
        r.in_range(),
{
    Point3 {
        x: turn(a.cos, a.sin, p.x, p.z, true),
        y: p.y,
        z: turn(a.cos, a.sin, p.z, p.x, false),
        h: p.h,
    }
}

pub fn rotate_z(p: Point3, a: Angle) -> (r: Point3)
    requires
        p.in_range(),
        a.wf(),
    ensures
        r == rotated_z(p, a),
        r.in_range(),
{
    Point3 {
        x: turn(a.cos, a.sin, p.x, p.y, false),
        y: turn(a.cos, a.sin, p.y, p.x, true),
        z: p.z,
        h: p.h,
    }
}

pub fn translate(p: Point3, t: Vector3) -> (r: Point3)
    requires
        p.in_range(),
        t.in_range(),
    ensures
        r == translated(p, t),
        r.in_range(),
{
    Point3 {
        x: clamp_coord_exec(p.x as i128 + t.x as i128),
        y: clamp_coord_exec(p.y as i128 + t.y as i128),
        z: clamp_coord_exec(p.z as i128 + t.z as i128),
        h: p.h,
    }
}

pub fn untranslate(p: Point3, t: Vector3) -> (r: Point3)
    requires
        p.in_range(),
        t.in_range(),
    ensures
        r == untranslated(p, t),
        r.in_range(),
{
    Point3 {
        x: clamp_coord_exec(p.x as i128 - t.x as i128),
        y: clamp_coord_exec(p.y as i128 - t.y as i128),
        z: clamp_coord_exec(p.z as i128 - t.z as i128),
        h: p.h,
    }
}

/// Applies an object's transform to `p`; see `placed`.
pub fn place(p: Point3, scale_by: Vector3, rot: Rotation, trans: Vector3) -> (r: Point3)
    requires
        p.in_range(),
        scale_by.in_range(),
        rot.wf(),
        trans.in_range(),
    ensures
        r == placed(p, scale_by, rot, trans),
        r.in_range(),
{
    translate(rotate_z(rotate_y(rotate_x(scale(p, scale_by), rot.x), rot.y), rot.z), trans)
}

/// Takes the world point `p` into the space of a camera at `position` with orientation
/// `rot`; see `viewed`.
pub fn view_from(p: Point3, position: Vector3, rot: Rotation) -> (r: Point3)
    requires
        p.in_range(),
        position.in_range(),
        rot.wf(),
    ensures
        r == viewed(p, position, rot),
        r.in_range(),
{
    rotate_x(rotate_y(rotate_z(untranslate(p, position), rot.z), rot.y), rot.x)
}

} // verus!
