use vstd::prelude::*;

use crate::canvas::{Canvas, CANVAS_LIMIT};
use crate::clipping::Plane;
use crate::geometry::{floor_div, Point2, Point3, Vector3, COORD_LIMIT, SCREEN_LIMIT};
use crate::transform::{view_from, viewed, Rotation};

verus! {

/// Largest viewport side or projection distance, in world units.
pub const VIEW_LIMIT: i64 = 0x4000_0000;

/// The five planes bounding what a camera sees, in camera space, for projection distance
/// `d` and a `vw` by `vh` viewport: near (`z >= d`), left, right, top and bottom (each
/// through the eye and one side of the viewport).
pub open spec fn frustum_planes(d: int, vw: int, vh: int) -> Seq<Plane> {
    seq![
        Plane { normal: Vector3 { x: 0, y: 0, z: 1 }, d: (-d) as i64 },
        Plane { normal: Vector3 { x: (2 * d) as i64, y: 0, z: vw as i64 }, d: 0 },
        Plane { normal: Vector3 { x: (-2 * d) as i64, y: 0, z: vw as i64 }, d: 0 },
        Plane { normal: Vector3 { x: 0, y: (-2 * d) as i64, z: vh as i64 }, d: 0 },
        Plane { normal: Vector3 { x: 0, y: (2 * d) as i64, z: vh as i64 }, d: 0 },
    ]
}

/// Projection parameters and camera placement.
pub struct Viewport {
    cw: i64,
    ch: i64,
    vw: i64,
    vh: i64,
    d: i64,
    clipping_planes: Vec<Plane>,
    translation: Vector3,
    rotation: Rotation,
}

impl Viewport {
    /// The canvas width in pixels.
    pub closed spec fn spec_cw(&self) -> int {
        self.cw as int
    }

    /// The canvas height in pixels.
    pub closed spec fn spec_ch(&self) -> int {
        self.ch as int
    }

    /// The viewport width in world units.
    pub closed spec fn spec_vw(&self) -> int {
        self.vw as int
    }

    /// The viewport height in world units.
    pub closed spec fn spec_vh(&self) -> int {
        self.vh as int
    }

    /// The distance from the eye to the projection plane.
    pub closed spec fn spec_d(&self) -> int {
        self.d as int
    }

    pub closed spec fn spec_planes(&self) -> Seq<Plane> {
        self.clipping_planes@
    }

    /// The camera's position in the world.
    pub closed spec fn spec_translation(&self) -> Vector3 {
        self.translation
    }

    /// The camera's orientation.
    pub closed spec fn spec_rotation(&self) -> Rotation {
        self.rotation
    }

    pub open spec fn wf(&self) -> bool {
        &&& 0 <= self.spec_cw() <= CANVAS_LIMIT
        &&& 0 <= self.spec_ch() <= CANVAS_LIMIT
        &&& 1 <= self.spec_vw() <= VIEW_LIMIT
        &&& 1 <= self.spec_vh() <= VIEW_LIMIT
        &&& 1 <= self.spec_d() <= VIEW_LIMIT
        &&& self.spec_planes() == frustum_planes(self.spec_d(), self.spec_vw(), self.spec_vh())
        &&& self.spec_translation().in_range()
        &&& self.spec_rotation().wf()
    }

    /// A `width` by `height` viewport at distance `depth` from a camera at the origin with no
    /// rotation, projecting onto `canvas`.
    pub fn new(width: i64, height: i64, depth: i64, canvas: &Canvas) -> (v: Viewport)
        requires
            canvas.wf(),
            1 <= width <= VIEW_LIMIT,
            1 <= height <= VIEW_LIMIT,
            1 <= depth <= VIEW_LIMIT,
        ensures
            v.wf(),
            v.spec_cw() == canvas.spec_width(),
            v.spec_ch() == canvas.spec_height(),
            v.spec_vw() == width,
            v.spec_vh() == height,
            v.spec_d() == depth,
            v.spec_translation() == (Vector3 { x: 0, y: 0, z: 0 }),
            v.spec_rotation().x.cos == crate::geometry::FIXED_ONE && v.spec_rotation().x.sin == 0,
            v.spec_rotation().y.cos == crate::geometry::FIXED_ONE && v.spec_rotation().y.sin == 0,
            v.spec_rotation().z.cos == crate::geometry::FIXED_ONE && v.spec_rotation().z.sin == 0,
    {
        proof {
            canvas.lemma_wf();
        }
        let mut planes: Vec<Plane> = Vec::new();
        planes.push(Plane::new(Vector3::new(0, 0, 1), -depth));
        planes.push(Plane::new(Vector3::new(2 * depth, 0, width), 0));
        planes.push(Plane::new(Vector3::new(0 - 2 * depth, 0, width), 0));
        planes.push(Plane::new(Vector3::new(0, 0 - 2 * depth, height), 0));
        planes.push(Plane::new(Vector3::new(0, 2 * depth, height), 0));
        let v = Viewport {
            cw: canvas.width() as i64,
            ch: canvas.height() as i64,
            vw: width,
            vh: height,
            d: depth,
            clipping_planes: planes,
            translation: Vector3::new(0, 0, 0),
            rotation: Rotation::identity(),
        };
        assert(v.clipping_planes@ =~= frustum_planes(depth as int, width as int, height as int));
        v
    }

    /// The clipping planes; see `frustum_planes`.
    pub fn planes(&self) -> (r: &Vec<Plane>)
        ensures
            r@ == self.spec_planes(),
    {
        &self.clipping_planes
    }

    /// Scales the point `p` of the projection plane (world units) to canvas pixels:
    /// `(x * cw / vw, y * ch / vh)`, each rounded down.
    pub fn viewport_to_canvas(&self, p: &Point3) -> (r: Point2)
        requires
            self.wf(),
            p.in_range(),
        ensures
            r.x == (p.x * self.spec_cw()) / self.spec_vw(),
            r.y == (p.y * self.spec_ch()) / self.spec_vh(),
            r.h == p.h,
            r.in_range(),
    {
        proof {
            lemma_scaled_quotient(p.x as int, self.cw as int, 1, 1, self.vw as int);
            lemma_scaled_quotient(p.y as int, self.ch as int, 1, 1, self.vh as int);
        }
        Point2 {
            x: floor_div(p.x as i128 * self.cw as i128, self.vw as i128) as i64,
            y: floor_div(p.y as i128 * self.ch as i128, self.vh as i128) as i64,
            h: p.h,
        }
    }

    /// Projects the camera-space point `v` onto the canvas: the perspective divide
    /// `x d / z`, `y d / z` then the scaling to canvas pixels, computed exactly and rounded
    /// down once. `v` must lie beyond the near plane (`z >= d`), as every corner that
    /// survives clipping does.
    pub fn project_vertex(&self, v: &Point3) -> (r: Point2)
        requires
            self.wf(),
            v.in_range(),
            v.z >= self.spec_d(),
        ensures
            r.x == (v.x * self.spec_d() * self.spec_cw()) / (v.z * self.spec_vw()),
            r.y == (v.y * self.spec_d() * self.spec_ch()) / (v.z * self.spec_vh()),
            r.h == v.h,
            r.in_range(),
    {
        proof {
            lemma_scaled_quotient(v.x as int, self.cw as int, self.d as int, v.z as int, self.vw as int);
            lemma_scaled_quotient(v.y as int, self.ch as int, self.d as int, v.z as int, self.vh as int);
        }
        let x = floor_div(
            v.x as i128 * self.d as i128 * self.cw as i128,
            v.z as i128 * self.vw as i128,
        );
        let y = floor_div(
            v.y as i128 * self.d as i128 * self.ch as i128,
            v.z as i128 * self.vh as i128,
        );
        Point2 { x: x as i64, y: y as i64, h: v.h }
    }

    pub fn get_translation(&self) -> (t: Vector3)
        ensures
            t == self.spec_translation(),
    {
        self.translation
    }

    /// Moves the camera to `translation`.
    pub fn set_translation(&mut self, translation: Vector3)
        requires
            old(self).wf(),
            translation.in_range(),
        ensures
            final(self).wf(),
            final(self).spec_translation() == translation,
            final(self).spec_rotation() == old(self).spec_rotation(),
            final(self).spec_cw() == old(self).spec_cw(),
            final(self).spec_ch() == old(self).spec_ch(),
            final(self).spec_vw() == old(self).spec_vw(),
            final(self).spec_vh() == old(self).spec_vh(),
            final(self).spec_d() == old(self).spec_d(),
    {
        self.translation = translation;
    }

    pub fn get_rotation(&self) -> (r: Rotation)
        ensures
            r == self.spec_rotation(),
    {
        self.rotation
    }

    /// Turns the camera to `rotation`. The camera's orientation is the negated angles, so
    /// world points are rotated by the angles as given on their way into camera space (see
    /// `viewed`): opposite to an instance turned by the same angles.
    pub fn set_rotation(&mut self, rotation: Rotation)
        requires
            old(self).wf(),
            rotation.wf(),
        ensures
            final(self).wf(),
            final(self).spec_rotation() == rotation,
            final(self).spec_translation() == old(self).spec_translation(),
            final(self).spec_cw() == old(self).spec_cw(),
            final(self).spec_ch() == old(self).spec_ch(),
            final(self).spec_vw() == old(self).spec_vw(),
            final(self).spec_vh() == old(self).spec_vh(),
            final(self).spec_d() == old(self).spec_d(),
    {
        self.rotation = rotation;
    }

    /// The world point `p` in camera space; see `viewed`.
    pub fn to_camera(&self, p: &Point3) -> (r: Point3)
        requires
            self.wf(),
            p.in_range(),
        ensures
            r == viewed(*p, self.spec_translation(), self.spec_rotation()),
            r.in_range(),
    {
        view_from(*p, self.translation, self.rotation)
    }
}

/// `u * s * d / (z * v)` lies within the screen limits when `d <= z` and `v >= 1`, and its
/// operands fit the division helper.
proof fn lemma_scaled_quotient(u: int, s: int, d: int, z: int, v: int)
    requires
        -COORD_LIMIT <= u <= COORD_LIMIT,
        0 <= s <= CANVAS_LIMIT,
        1 <= d <= z <= COORD_LIMIT,
        1 <= v <= VIEW_LIMIT,
    ensures
        -0x1_0000_0000_0000_0000 <= u * d <= 0x1_0000_0000_0000_0000,
        -0x1_0000_0000_0000_0000_0000_0000 <= u * d * s <= 0x1_0000_0000_0000_0000_0000_0000,
        0 < z * v <= 0x1_0000_0000_0000_0000,
        -SCREEN_LIMIT <= (u * d * s) / (z * v) <= SCREEN_LIMIT,
        -SCREEN_LIMIT <= (u * s) / v <= SCREEN_LIMIT,
{
    let b = COORD_LIMIT * CANVAS_LIMIT;
    assert(-0x1_0000_0000_0000_0000 <= u * d <= 0x1_0000_0000_0000_0000) by (nonlinear_arith)
        requires
            -0x8000_0000 <= u <= 0x8000_0000,
            1 <= d <= 0x8000_0000,
    ;
    assert(-0x1_0000_0000_0000_0000_0000_0000 <= u * d * s <= 0x1_0000_0000_0000_0000_0000_0000)
        by (nonlinear_arith)
        requires
            -0x8000_0000 <= u <= 0x8000_0000,
            0 <= s <= 0x8000,
            1 <= d <= 0x8000_0000,
    ;
    assert(0 < z * v <= 0x1_0000_0000_0000_0000) by (nonlinear_arith)
        requires
            1 <= z <= 0x8000_0000,
            1 <= v <= 0x4000_0000,
    ;
    assert(-b * (z * v) <= u * d * s <= b * (z * v)) by (nonlinear_arith)
        requires
            -0x8000_0000 <= u <= 0x8000_0000,
            0 <= s <= 0x8000,
            1 <= d <= z,
            1 <= v,
            b == 0x8000_0000 * 0x8000,
    ;
    assert(-b * v <= u * s <= b * v) by (nonlinear_arith)
        requires
            -0x8000_0000 <= u <= 0x8000_0000,
            0 <= s <= 0x8000,
            1 <= v,
            b == 0x8000_0000 * 0x8000,
    ;
    vstd::arithmetic::div_mod::lemma_div_is_ordered(-b * (z * v), u * d * s, z * v);
    vstd::arithmetic::div_mod::lemma_div_is_ordered(u * d * s, b * (z * v), z * v);
    vstd::arithmetic::div_mod::lemma_div_multiples_vanish(b, z * v);
    vstd::arithmetic::div_mod::lemma_div_multiples_vanish(-b, z * v);
    vstd::arithmetic::div_mod::lemma_div_is_ordered(-b * v, u * s, v);
    vstd::arithmetic::div_mod::lemma_div_is_ordered(u * s, b * v, v);
    vstd::arithmetic::div_mod::lemma_div_multiples_vanish(b, v);
    vstd::arithmetic::div_mod::lemma_div_multiples_vanish(-b, v);
    assert(b * (z * v) == (z * v) * b && -b * (z * v) == (z * v) * -b && b * v == v * b && -b * v
        == v * -b) by (nonlinear_arith);
}

} // verus!
