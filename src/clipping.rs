use vstd::prelude::*;

use crate::canvas::{lemma_lerp_between, lerp};
use crate::color::Color;
use crate::geometry::{abs_int, floor_div, Point3, Vector3};

verus! {

/// Largest magnitude of a plane's offset.
pub const OFFSET_LIMIT: i64 = 0x4000_0000_0000_0000;

/// The half-space `normal . p + d >= 0`. The normal is not normalised, so the signed
/// distance is the true distance times the normal's length; only its sign matters to
/// clipping.
#[derive(Clone, Copy, Debug, PartialEq, Eq, Structural)]
pub struct Plane {
    pub normal: Vector3,
    pub d: i64,
}

impl Plane {
    pub fn new(normal: Vector3, distance: i64) -> (p: Plane)
        ensures
            p.normal == normal,
            p.d == distance,
    {
        Plane { normal, d: distance }
    }

    pub open spec fn wf(&self) -> bool {
        self.normal.in_range() && -OFFSET_LIMIT <= self.d <= OFFSET_LIMIT
    }

    /// `normal . p + d`; a point is inside when this is at least zero.
    pub open spec fn distance_of(&self, p: Point3) -> int {
        self.normal.x * p.x + self.normal.y * p.y + self.normal.z * p.z + self.d
    }

    /// The sum of the normal's components' magnitudes: the most a rounded crossing point
    /// can miss the plane by.
    pub open spec fn tolerance(&self) -> int {
        abs_int(self.normal.x as int) + abs_int(self.normal.y as int) + abs_int(self.normal.z as int)
    }

    /// Where the edge from `a` (inside) to `b` (outside, or on the plane) crosses the plane:
    /// `a + t (b - a)` with `t = da / (da - db)`, each coordinate and the intensity rounded
    /// down.
    pub open spec fn crossing(&self, a: Point3, b: Point3) -> Point3 {
        let da = self.distance_of(a);
        let n = da - self.distance_of(b);
        Point3 {
            x: lerp(0, a.x as int, n, b.x as int, da) as i64,
            y: lerp(0, a.y as int, n, b.y as int, da) as i64,
            z: lerp(0, a.z as int, n, b.z as int, da) as i64,
            h: lerp(0, a.h as int, n, b.h as int, da) as i64,
        }
    }

    pub proof fn lemma_distance_bound(&self, p: Point3)
        requires
            self.wf(),
            p.in_range(),
        ensures
            -0x1_0000_0000_0000_0000 <= self.distance_of(p) <= 0x1_0000_0000_0000_0000,
    {
        lemma_product_bound(self.normal.x as int, p.x as int);
        lemma_product_bound(self.normal.y as int, p.y as int);
        lemma_product_bound(self.normal.z as int, p.z as int);
    }

    /// The signed distance of `p` to the plane; see `distance_of`.
    pub fn signed_distance(&self, p: &Point3) -> (r: i128)
        requires
            self.wf(),
            p.in_range(),
        ensures
            r == self.distance_of(*p),
    {
        proof {
            lemma_product_bound(self.normal.x as int, p.x as int);
            lemma_product_bound(self.normal.y as int, p.y as int);
            lemma_product_bound(self.normal.z as int, p.z as int);
        }
        self.normal.x as i128 * p.x as i128 + self.normal.y as i128 * p.y as i128
            + self.normal.z as i128 * p.z as i128 + self.d as i128
    }

    /// Where the segment from `p0` to `p1`, whose ends lie on opposite sides of the plane
    /// (or one on it), crosses the plane: `crossing` taken from the end with the larger
    /// distance. The point lies on the segment and misses the plane by less than its
    /// tolerance.
    pub fn intersection(&self, p0: &Point3, p1: &Point3) -> (r: Point3)
        requires
            self.wf(),
            p0.in_range(),
            p1.in_range(),
            self.distance_of(*p0) != self.distance_of(*p1),
            (self.distance_of(*p0) >= 0 && self.distance_of(*p1) <= 0) || (self.distance_of(*p0)
                <= 0 && self.distance_of(*p1) >= 0),
        ensures
            r == (if self.distance_of(*p0) > self.distance_of(*p1) {
                self.crossing(*p0, *p1)
            } else {
                self.crossing(*p1, *p0)
            }),
            r.in_range(),
            min_max(p0.x as int, p1.x as int, r.x as int),
            min_max(p0.y as int, p1.y as int, r.y as int),
            min_max(p0.z as int, p1.z as int, r.z as int),
            abs_int(self.distance_of(r)) < self.tolerance(),
    {
        let d0 = self.signed_distance(p0);
        let d1 = self.signed_distance(p1);
        proof {
            self.lemma_distance_bound(*p0);
            self.lemma_distance_bound(*p1);
        }
        let (a, b, da, db) = if d0 > d1 {
            (p0, p1, d0, d1)
        } else {
            (p1, p0, d1, d0)
        };
        proof {
            lemma_crossing_near_plane(*self, *a, *b);
        }
        let n = da - db;
        Point3 {
            x: split(a.x, b.x, da, n),
            y: split(a.y, b.y, da, n),
            z: split(a.z, b.z, da, n),
            h: split(a.h, b.h, da, n),
        }
    }
}

proof fn lemma_product_bound(n: int, c: int)
    requires
        -0x8000_0000 <= n <= 0x8000_0000,
        -0x8000_0000 <= c <= 0x8000_0000,
    ensures
        -0x4000_0000_0000_0000 <= n * c <= 0x4000_0000_0000_0000,
{
    assert(-0x4000_0000_0000_0000 <= n * c <= 0x4000_0000_0000_0000) by (nonlinear_arith)
        requires
            -0x8000_0000 <= n <= 0x8000_0000,
            -0x8000_0000 <= c <= 0x8000_0000,
    ;
}

/// `a + k (b - a) / n`, rounded down.
fn split(a: i64, b: i64, k: i128, n: i128) -> (r: i64)
    requires
        -0x8000_0000 <= a <= 0x8000_0000,
        -0x8000_0000 <= b <= 0x8000_0000,
        0 <= k <= n,
        0 < n,
        k <= 0x1_0000_0000_0000_0000,
    ensures
        r == lerp(0, a as int, n as int, b as int, k as int),
        min_max(a as int, b as int, r as int),
{
    assert(-0x1_0000_0000_0000_0000_0000_0000 <= k * (b - a) <= 0x1_0000_0000_0000_0000_0000_0000)
        by (nonlinear_arith)
        requires
            0 <= k <= 0x1_0000_0000_0000_0000,
            -0x1_0000_0000 <= b - a <= 0x1_0000_0000,
    ;
    proof {
        lemma_lerp_between(0, a as int, n as int, b as int, k as int);
    }
    let q = floor_div(k * (b as i128 - a as i128), n);
    (a as i128 + q) as i64
}

/// `n` times the rounded-down crossing coordinate is the exact product less a remainder
/// below `n`.
proof fn lemma_split_scaled(a: int, b: int, k: int, n: int)
    requires
        n > 0,
    ensures
        n * lerp(0, a, n, b, k) == n * a + k * (b - a) - (k * (b - a)) % n,
        0 <= (k * (b - a)) % n < n,
{
    let q = k * (b - a);
    vstd::arithmetic::div_mod::lemma_fundamental_div_mod(q, n);
    vstd::arithmetic::div_mod::lemma_mod_bound(q, n);
    assert(n * (a + q / n) == n * a + n * (q / n)) by (nonlinear_arith);
}

proof fn lemma_weighted_remainders(nx: int, ny: int, nz: int, rx: int, ry: int, rz: int, n: int)
    requires
        0 <= rx < n,
        0 <= ry < n,
        0 <= rz < n,
        abs_int(nx) + abs_int(ny) + abs_int(nz) > 0,
    ensures
        abs_int(nx * rx + ny * ry + nz * rz) < (abs_int(nx) + abs_int(ny) + abs_int(nz)) * n,
{
    assert(abs_int(nx * rx) <= abs_int(nx) * (n - 1)) by (nonlinear_arith)
        requires
            0 <= rx < n,
    ;
    assert(abs_int(ny * ry) <= abs_int(ny) * (n - 1)) by (nonlinear_arith)
        requires
            0 <= ry < n,
    ;
    assert(abs_int(nz * rz) <= abs_int(nz) * (n - 1)) by (nonlinear_arith)
        requires
            0 <= rz < n,
    ;
    assert(abs_int(nx) * (n - 1) + abs_int(ny) * (n - 1) + abs_int(nz) * (n - 1) == (abs_int(nx)
        + abs_int(ny) + abs_int(nz)) * n - (abs_int(nx) + abs_int(ny) + abs_int(nz)))
        by (nonlinear_arith);
}

/// A crossing point misses the plane by less than the plane's tolerance: each coordinate
/// is the exact crossing rounded down by less than one.
pub proof fn lemma_crossing_near_plane(plane: Plane, a: Point3, b: Point3)
    requires
        plane.distance_of(a) >= 0,
        plane.distance_of(b) <= 0,
        plane.distance_of(a) > plane.distance_of(b),
    ensures
        plane.tolerance() > 0,
        abs_int(plane.distance_of(plane.crossing(a, b))) < plane.tolerance(),
{
    let nx = plane.normal.x as int;
    let ny = plane.normal.y as int;
    let nz = plane.normal.z as int;
    let da = plane.distance_of(a);
    let db = plane.distance_of(b);
    let n = da - db;
    let x = plane.crossing(a, b);
    let kx = lerp(0, a.x as int, n, b.x as int, da);
    let ky = lerp(0, a.y as int, n, b.y as int, da);
    let kz = lerp(0, a.z as int, n, b.z as int, da);
    lemma_lerp_between(0, a.x as int, n, b.x as int, da);
    lemma_lerp_between(0, a.y as int, n, b.y as int, da);
    lemma_lerp_between(0, a.z as int, n, b.z as int, da);
    assert(x.x == kx && x.y == ky && x.z == kz);
    lemma_split_scaled(a.x as int, b.x as int, da, n);
    lemma_split_scaled(a.y as int, b.y as int, da, n);
    lemma_split_scaled(a.z as int, b.z as int, da, n);
    let rx = (da * (b.x - a.x)) % n;
    let ry = (da * (b.y - a.y)) % n;
    let rz = (da * (b.z - a.z)) % n;
    let dist = plane.distance_of(x);
    let ax = a.x as int;
    let ay = a.y as int;
    let az = a.z as int;
    let bx = b.x as int;
    let by = b.y as int;
    let bz = b.z as int;
    let d = plane.d as int;
    vstd::arithmetic::mul::lemma_mul_is_distributive_add(n, nx * kx + ny * ky + nz * kz, d);
    vstd::arithmetic::mul::lemma_mul_is_distributive_add(n, nx * kx + ny * ky, nz * kz);
    vstd::arithmetic::mul::lemma_mul_is_distributive_add(n, nx * kx, ny * ky);
    assert(n * (nx * kx) == nx * (n * kx)) by (nonlinear_arith);
    assert(n * (ny * ky) == ny * (n * ky)) by (nonlinear_arith);
    assert(n * (nz * kz) == nz * (n * kz)) by (nonlinear_arith);
    assert(n * dist == nx * (n * kx) + ny * (n * ky) + nz * (n * kz) + n * d);
    assert(nx * (n * kx) == n * (nx * ax) + da * (nx * (bx - ax)) - nx * rx) by (nonlinear_arith)
        requires
            n * kx == n * ax + da * (bx - ax) - rx,
    ;
    assert(ny * (n * ky) == n * (ny * ay) + da * (ny * (by - ay)) - ny * ry) by (nonlinear_arith)
        requires
            n * ky == n * ay + da * (by - ay) - ry,
    ;
    assert(nz * (n * kz) == n * (nz * az) + da * (nz * (bz - az)) - nz * rz) by (nonlinear_arith)
        requires
            n * kz == n * az + da * (bz - az) - rz,
    ;
    assert(nx * (bx - ax) + ny * (by - ay) + nz * (bz - az) == db - da) by (nonlinear_arith)
        requires
            da == nx * ax + ny * ay + nz * az + d,
            db == nx * bx + ny * by + nz * bz + d,
    ;
    assert(n * (nx * ax) + n * (ny * ay) + n * (nz * az) == n * (da - d)) by (nonlinear_arith)
        requires
            da == nx * ax + ny * ay + nz * az + d,
    ;
    assert(da * (nx * (bx - ax)) + da * (ny * (by - ay)) + da * (nz * (bz - az)) == da * (db
        - da)) by (nonlinear_arith)
        requires
            nx * (bx - ax) + ny * (by - ay) + nz * (bz - az) == db - da,
    ;
    assert(n * (da - d) + da * (db - da) + n * d == 0) by (nonlinear_arith)
        requires
            n == da - db,
    ;
    assert(n * dist == -(nx * rx + ny * ry + nz * rz));
    if nx == 0 && ny == 0 && nz == 0 {
        assert(da == plane.d && db == plane.d);
    }
    lemma_weighted_remainders(nx, ny, nz, rx, ry, rz, n);
    let s = plane.tolerance();
    assert(abs_int(dist) < s) by (nonlinear_arith)
        requires
            n > 0,
            abs_int(n * dist) < s * n,
            n * dist == -(nx * rx + ny * ry + nz * rz),
    ;
}

/// A triangle in camera space with its corners held by value, ready to be clipped.
#[derive(Clone, Copy, Debug, PartialEq, Eq, Structural)]
pub struct CameraTriangle {
    pub p0: Point3,
    pub p1: Point3,
    pub p2: Point3,
    pub color: Color,
}

impl CameraTriangle {
    pub fn new(p0: Point3, p1: Point3, p2: Point3, color: Color) -> (t: CameraTriangle)
        ensures
            t == (CameraTriangle { p0, p1, p2, color }),
    {
        CameraTriangle { p0, p1, p2, color }
    }

    pub open spec fn in_range(&self) -> bool {
        self.p0.in_range() && self.p1.in_range() && self.p2.in_range()
    }
}

/// The two triangles that cover what is inside of a triangle whose corners `i0`, `i1` are
/// inside and `o` outside (in that winding order): `(i0, i1, x1)` and `(i0, x1, x0)`, with
/// `x1` on the edge `i1`-`o` and `x0` on the edge `i0`-`o`.
pub open spec fn split_quad(plane: Plane, i0: Point3, i1: Point3, o: Point3, c: Color) -> Seq<
    CameraTriangle,
> {
    let x1 = plane.crossing(i1, o);
    let x0 = plane.crossing(i0, o);
    seq![
        CameraTriangle { p0: i0, p1: i1, p2: x1, color: c },
        CameraTriangle { p0: i0, p1: x1, p2: x0, color: c },
    ]
}

/// The one triangle left of a triangle whose corner `i` alone is inside (followed in
/// winding order by `o1`, `o2`): `i` and the crossings of the edges `i`-`o1` and `i`-`o2`.
pub open spec fn split_tip(plane: Plane, i: Point3, o1: Point3, o2: Point3, c: Color) -> Seq<
    CameraTriangle,
> {
    seq![CameraTriangle { p0: i, p1: plane.crossing(i, o1), p2: plane.crossing(i, o2), color: c }]
}

/// What is left of `t` inside `plane`: `t` itself when all corners are inside, nothing when
/// none is, otherwise the triangles that cover the inside part, winding and color kept.
pub open spec fn clipped(t: CameraTriangle, plane: Plane) -> Seq<CameraTriangle> {
    let in0 = plane.distance_of(t.p0) >= 0;
    let in1 = plane.distance_of(t.p1) >= 0;
    let in2 = plane.distance_of(t.p2) >= 0;
    if in0 && in1 && in2 {
        seq![t]
    } else if !in0 && !in1 && !in2 {
        Seq::empty()
    } else if in0 && !in1 && !in2 {
        split_tip(plane, t.p0, t.p1, t.p2, t.color)
    } else if !in0 && in1 && !in2 {
        split_tip(plane, t.p1, t.p2, t.p0, t.color)
    } else if !in0 && !in1 && in2 {
        split_tip(plane, t.p2, t.p0, t.p1, t.color)
    } else if !in0 {
        split_quad(plane, t.p1, t.p2, t.p0, t.color)
    } else if !in1 {
        split_quad(plane, t.p2, t.p0, t.p1, t.color)
    } else {
        split_quad(plane, t.p0, t.p1, t.p2, t.color)
    }
}

/// Every triangle of `ts` clipped against `plane`, the pieces kept in order.
pub open spec fn clipped_all(ts: Seq<CameraTriangle>, plane: Plane) -> Seq<CameraTriangle>
    decreases ts.len(),
{
    if ts.len() == 0 {
        Seq::empty()
    } else {
        clipped_all(ts.drop_last(), plane) + clipped(ts.last(), plane)
    }
}

/// `ts` clipped against each plane of `planes` in turn, what is left of one plane feeding
/// the next.
pub open spec fn clipped_by(ts: Seq<CameraTriangle>, planes: Seq<Plane>) -> Seq<CameraTriangle>
    decreases planes.len(),
{
    if planes.len() == 0 {
        ts
    } else {
        clipped_all(clipped_by(ts, planes.drop_last()), planes.last())
    }
}

/// Clips `triangle` against `plane`; see `clipped`.
pub fn clip_triangle(triangle: CameraTriangle, plane: Plane) -> (r: Vec<CameraTriangle>)
    requires
        plane.wf(),
        triangle.in_range(),
    ensures
        r@ == clipped(triangle, plane),
        forall|i: int| 0 <= i < r@.len() ==> (#[trigger] r@[i]).in_range(),
{
    let t = triangle;
    let in0 = plane.signed_distance(&t.p0) >= 0;
    let in1 = plane.signed_distance(&t.p1) >= 0;
    let in2 = plane.signed_distance(&t.p2) >= 0;
    let mut r: Vec<CameraTriangle> = Vec::new();
    if in0 && in1 && in2 {
        r.push(t);
    } else if !in0 && !in1 && !in2 {
    } else if in0 && !in1 && !in2 {
        r.push(tip(plane, t.p0, t.p1, t.p2, t.color));
    } else if !in0 && in1 && !in2 {
        r.push(tip(plane, t.p1, t.p2, t.p0, t.color));
    } else if !in0 && !in1 && in2 {
        r.push(tip(plane, t.p2, t.p0, t.p1, t.color));
    } else if !in0 {
        quad(&mut r, plane, t.p1, t.p2, t.p0, t.color);
    } else if !in1 {
        quad(&mut r, plane, t.p2, t.p0, t.p1, t.color);
    } else {
        quad(&mut r, plane, t.p0, t.p1, t.p2, t.color);
    }
    assert(r@ =~= clipped(triangle, plane));
    r
}

fn tip(plane: Plane, i: Point3, o1: Point3, o2: Point3, c: Color) -> (t: CameraTriangle)
    requires
        plane.wf(),
        i.in_range(),
        o1.in_range(),
        o2.in_range(),
        plane.distance_of(i) >= 0,
        plane.distance_of(o1) < 0,
        plane.distance_of(o2) < 0,
    ensures
        seq![t] == split_tip(plane, i, o1, o2, c),
        t.in_range(),
{
    CameraTriangle { p0: i, p1: plane.intersection(&i, &o1), p2: plane.intersection(&i, &o2), color: c }
}

fn quad(r: &mut Vec<CameraTriangle>, plane: Plane, i0: Point3, i1: Point3, o: Point3, c: Color)
    requires
        old(r)@.len() == 0,
        plane.wf(),
        i0.in_range(),
        i1.in_range(),
        o.in_range(),
        plane.distance_of(i0) >= 0,
        plane.distance_of(i1) >= 0,
        plane.distance_of(o) < 0,
    ensures
        final(r)@ == split_quad(plane, i0, i1, o, c),
        forall|i: int| 0 <= i < final(r)@.len() ==> (#[trigger] final(r)@[i]).in_range(),
{
    let x1 = plane.intersection(&i1, &o);
    let x0 = plane.intersection(&i0, &o);
    r.push(CameraTriangle { p0: i0, p1: i1, p2: x1, color: c });
    r.push(CameraTriangle { p0: i0, p1: x1, p2: x0, color: c });
    assert(r@ =~= split_quad(plane, i0, i1, o, c));
}

/// Clips `triangle` against each of `planes` in turn; see `clipped_by`.
pub fn clip_against_planes(triangle: CameraTriangle, planes: &Vec<Plane>) -> (r: Vec<
    CameraTriangle,
>)
    requires
        triangle.in_range(),
        forall|i: int| 0 <= i < planes@.len() ==> (#[trigger] planes@[i]).wf(),
    ensures
        r@ == clipped_by(seq![triangle], planes@),
        forall|i: int| 0 <= i < r@.len() ==> (#[trigger] r@[i]).in_range(),
{
    let mut current: Vec<CameraTriangle> = Vec::new();
    current.push(triangle);
    let mut k: usize = 0;
    assert(planes@.subrange(0, 0) =~= Seq::<Plane>::empty());
    assert(current@ =~= seq![triangle]);
    while k < planes.len()
        invariant
            k <= planes@.len(),
            forall|i: int| 0 <= i < planes@.len() ==> (#[trigger] planes@[i]).wf(),
            current@ == clipped_by(seq![triangle], planes@.subrange(0, k as int)),
            forall|i: int| 0 <= i < current@.len() ==> (#[trigger] current@[i]).in_range(),
        decreases planes@.len() - k,
    {
        let plane = planes[k];
        let mut next: Vec<CameraTriangle> = Vec::new();
        let mut i: usize = 0;
        assert(current@.subrange(0, 0) =~= Seq::<CameraTriangle>::empty());
        while i < current.len()
            invariant
                i <= current@.len(),
                plane.wf(),
                forall|j: int| 0 <= j < current@.len() ==> (#[trigger] current@[j]).in_range(),
                next@ == clipped_all(current@.subrange(0, i as int), plane),
                forall|j: int| 0 <= j < next@.len() ==> (#[trigger] next@[j]).in_range(),
            decreases current@.len() - i,
        {
            let pieces = clip_triangle(current[i], plane);
            let ghost before = next@;
            let mut j: usize = 0;
            while j < pieces.len()
                invariant
                    j <= pieces@.len(),
                    next@ == before + pieces@.subrange(0, j as int),
                    forall|q: int| 0 <= q < before.len() ==> (#[trigger] before[q]).in_range(),
                    forall|q: int| 0 <= q < pieces@.len() ==> (#[trigger] pieces@[q]).in_range(),
                decreases pieces@.len() - j,
            {
                next.push(pieces[j]);
                j = j + 1;
                assert(next@ =~= before + pieces@.subrange(0, j as int));
            }
            proof {
                assert(pieces@.subrange(0, pieces@.len() as int) =~= pieces@);
                assert(current@.subrange(0, i + 1).drop_last() =~= current@.subrange(0, i as int));
                assert forall|q: int| 0 <= q < next@.len() implies (#[trigger] next@[q]).in_range() by {
                    if q >= before.len() {
                        assert(next@[q] == pieces@[q - before.len()]);
                    }
                }
            }
            i = i + 1;
        }
        proof {
            assert(current@.subrange(0, current@.len() as int) =~= current@);
            assert(planes@.subrange(0, k + 1).drop_last() =~= planes@.subrange(0, k as int));
        }
        current = next;
        k = k + 1;
    }
    assert(planes@.subrange(0, planes@.len() as int) =~= planes@);
    current
}

/// A triangle with every corner inside the plane comes out of clipping unchanged.
pub proof fn lemma_clip_all_inside(t: CameraTriangle, plane: Plane)
    requires
        plane.distance_of(t.p0) >= 0,
        plane.distance_of(t.p1) >= 0,
        plane.distance_of(t.p2) >= 0,
    ensures
        clipped(t, plane) == seq![t],
{
}

/// A triangle with every corner outside the plane leaves nothing.
pub proof fn lemma_clip_all_outside(t: CameraTriangle, plane: Plane)
    requires
        plane.distance_of(t.p0) < 0,
        plane.distance_of(t.p1) < 0,
        plane.distance_of(t.p2) < 0,
    ensures
        clipped(t, plane).len() == 0,
{
}

/// A triangle with exactly one corner outside the plane becomes two triangles of its color:
/// the first keeps the two inside corners, in winding order, and both share its first corner;
/// the two new corners lie within the plane's tolerance of the plane.
pub proof fn lemma_clip_one_outside(t: CameraTriangle, plane: Plane)
    requires
        ({
            let n0 = plane.distance_of(t.p0) < 0;
            let n1 = plane.distance_of(t.p1) < 0;
            let n2 = plane.distance_of(t.p2) < 0;
            (n0 && !n1 && !n2) || (!n0 && n1 && !n2) || (!n0 && !n1 && n2)
        }),
    ensures
        ({
            let r = clipped(t, plane);
            &&& r.len() == 2
            &&& r[0].color == t.color && r[1].color == t.color
            &&& plane.distance_of(t.p0) < 0 ==> r[0].p0 == t.p1 && r[0].p1 == t.p2
            &&& plane.distance_of(t.p1) < 0 ==> r[0].p0 == t.p2 && r[0].p1 == t.p0
            &&& plane.distance_of(t.p2) < 0 ==> r[0].p0 == t.p0 && r[0].p1 == t.p1
            &&& r[1].p0 == r[0].p0 && r[1].p1 == r[0].p2
            &&& abs_int(plane.distance_of(r[0].p2)) < plane.tolerance()
            &&& abs_int(plane.distance_of(r[1].p2)) < plane.tolerance()
        }),
{
    if plane.distance_of(t.p0) < 0 {
        lemma_crossing_near_plane(plane, t.p2, t.p0);
        lemma_crossing_near_plane(plane, t.p1, t.p0);
    } else if plane.distance_of(t.p1) < 0 {
        lemma_crossing_near_plane(plane, t.p0, t.p1);
        lemma_crossing_near_plane(plane, t.p2, t.p1);
    } else {
        lemma_crossing_near_plane(plane, t.p1, t.p2);
        lemma_crossing_near_plane(plane, t.p0, t.p2);
    }
}

/// Every corner of `t` lies at depth `z >= d`.
pub open spec fn beyond(t: CameraTriangle, d: int) -> bool {
    t.p0.z >= d && t.p1.z >= d && t.p2.z >= d
}

/// The plane `z = d`, with `z >= d` inside.
pub open spec fn near_plane(d: int) -> Plane {
    Plane { normal: Vector3 { x: 0, y: 0, z: 1 }, d: (-d) as i64 }
}

proof fn lemma_crossing_depth(plane: Plane, a: Point3, b: Point3, d: int)
    requires
        plane.distance_of(a) >= 0,
        plane.distance_of(b) < 0,
        a.z >= d,
        b.z >= d,
    ensures
        plane.crossing(a, b).z >= d,
{
    let da = plane.distance_of(a);
    lemma_lerp_between(0, a.z as int, da - plane.distance_of(b), b.z as int, da);
}

proof fn lemma_near_crossing(a: Point3, b: Point3, d: int)
    requires
        1 <= d <= 0x4000_0000,
        near_plane(d).distance_of(a) >= 0,
        near_plane(d).distance_of(b) < 0,
    ensures
        near_plane(d).crossing(a, b).z == d,
{
    let plane = near_plane(d);
    let da = plane.distance_of(a);
    let n = da - plane.distance_of(b);
    assert(da == a.z - d);
    assert(n == a.z - b.z);
    assert(da * (b.z - a.z) == n * -da) by (nonlinear_arith)
        requires
            n == a.z - b.z,
    ;
    vstd::arithmetic::div_mod::lemma_div_multiples_vanish(-da, n);
    assert(lerp(0, a.z as int, n, b.z as int, da) == d);
}

proof fn lemma_clipped_depth(t: CameraTriangle, plane: Plane, d: int)
    requires
        beyond(t, d),
    ensures
        forall|i: int| 0 <= i < clipped(t, plane).len() ==> beyond(#[trigger] clipped(t, plane)[i], d),
{
    let in0 = plane.distance_of(t.p0) >= 0;
    let in1 = plane.distance_of(t.p1) >= 0;
    let in2 = plane.distance_of(t.p2) >= 0;
    if !in0 && in1 && in2 {
        lemma_crossing_depth(plane, t.p2, t.p0, d);
        lemma_crossing_depth(plane, t.p1, t.p0, d);
    } else if in0 && !in1 && in2 {
        lemma_crossing_depth(plane, t.p0, t.p1, d);
        lemma_crossing_depth(plane, t.p2, t.p1, d);
    } else if in0 && in1 && !in2 {
        lemma_crossing_depth(plane, t.p1, t.p2, d);
        lemma_crossing_depth(plane, t.p0, t.p2, d);
    } else if in0 && !in1 && !in2 {
        lemma_crossing_depth(plane, t.p0, t.p1, d);
        lemma_crossing_depth(plane, t.p0, t.p2, d);
    } else if !in0 && in1 && !in2 {
        lemma_crossing_depth(plane, t.p1, t.p2, d);
        lemma_crossing_depth(plane, t.p1, t.p0, d);
    } else if !in0 && !in1 && in2 {
        lemma_crossing_depth(plane, t.p2, t.p0, d);
        lemma_crossing_depth(plane, t.p2, t.p1, d);
    }
}

proof fn lemma_clipped_near(t: CameraTriangle, d: int)
    requires
        1 <= d <= 0x4000_0000,
    ensures
        forall|i: int|
            0 <= i < clipped(t, near_plane(d)).len() ==> beyond(
                #[trigger] clipped(t, near_plane(d))[i],
                d,
            ),
{
    let plane = near_plane(d);
    let in0 = plane.distance_of(t.p0) >= 0;
    let in1 = plane.distance_of(t.p1) >= 0;
    let in2 = plane.distance_of(t.p2) >= 0;
    if !in0 && in1 && in2 {
        lemma_near_crossing(t.p2, t.p0, d);
        lemma_near_crossing(t.p1, t.p0, d);
    } else if in0 && !in1 && in2 {
        lemma_near_crossing(t.p0, t.p1, d);
        lemma_near_crossing(t.p2, t.p1, d);
    } else if in0 && in1 && !in2 {
        lemma_near_crossing(t.p1, t.p2, d);
        lemma_near_crossing(t.p0, t.p2, d);
    } else if in0 && !in1 && !in2 {
        lemma_near_crossing(t.p0, t.p1, d);
        lemma_near_crossing(t.p0, t.p2, d);
    } else if !in0 && in1 && !in2 {
        lemma_near_crossing(t.p1, t.p2, d);
        lemma_near_crossing(t.p1, t.p0, d);
    } else if !in0 && !in1 && in2 {
        lemma_near_crossing(t.p2, t.p0, d);
        lemma_near_crossing(t.p2, t.p1, d);
    }
}

proof fn lemma_clipped_all_depth(ts: Seq<CameraTriangle>, plane: Plane, d: int, near: bool)
    requires
        near ==> plane == near_plane(d) && 1 <= d <= 0x4000_0000,
        !near ==> forall|i: int| 0 <= i < ts.len() ==> beyond(#[trigger] ts[i], d),
    ensures
        forall|i: int|
            0 <= i < clipped_all(ts, plane).len() ==> beyond(#[trigger] clipped_all(ts, plane)[i], d),
    decreases ts.len(),
{
    if ts.len() > 0 {
        let init = ts.drop_last();
        assert forall|i: int| 0 <= i < init.len() implies beyond(#[trigger] init[i], d) || near by {
            if !near {
                assert(init[i] == ts[i]);
            }
        }
        lemma_clipped_all_depth(init, plane, d, near);
        if near {
            lemma_clipped_near(ts.last(), d);
        } else {
            lemma_clipped_depth(ts.last(), plane, d);
        }
        let a = clipped_all(init, plane);
        let b = clipped(ts.last(), plane);
        assert forall|i: int| 0 <= i < (a + b).len() implies beyond(#[trigger] (a + b)[i], d) by {
            if i >= a.len() {
                assert((a + b)[i] == b[i - a.len()]);
            }
        }
    }
}

/// After clipping against a list of planes that begins with the near plane `z = d`, every
/// corner lies at depth `z >= d`, so it can be projected.
pub proof fn lemma_clipped_by_depth(ts: Seq<CameraTriangle>, planes: Seq<Plane>, d: int)
    requires
        planes.len() >= 1,
        planes[0] == near_plane(d),
        1 <= d <= 0x4000_0000,
    ensures
        forall|i: int|
            0 <= i < clipped_by(ts, planes).len() ==> beyond(#[trigger] clipped_by(ts, planes)[i], d),
    decreases planes.len(),
{
    if planes.len() == 1 {
        lemma_clipped_all_depth(clipped_by(ts, planes.drop_last()), planes.last(), d, true);
    } else {
        lemma_clipped_by_depth(ts, planes.drop_last(), d);
        lemma_clipped_all_depth(clipped_by(ts, planes.drop_last()), planes.last(), d, false);
    }
}

/// `v` lies between `a` and `b`.
pub open spec fn min_max(a: int, b: int, v: int) -> bool {
    (a <= v <= b) || (b <= v <= a)
}

} // verus!
