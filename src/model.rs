use vstd::prelude::*;

use std::rc::Rc;

use crate::color::Color;
use crate::geometry::{Point3, Vector3};
use crate::transform::{place, placed, Rotation};

verus! {

/// Three indices into a model's vertex list, and a color.
#[derive(Clone, Copy, Debug)]
pub struct Triangle {
    pub vertices: [i32; 3],
    pub color: Color,
}

impl Triangle {
    pub fn new(idx0: i32, idx1: i32, idx2: i32, color: Color) -> (t: Triangle)
        ensures
            t.vertices@ == seq![idx0, idx1, idx2],
            t.color == color,
    {
        let t = Triangle { vertices: [idx0, idx1, idx2], color };
        assert(t.vertices@ =~= seq![idx0, idx1, idx2]);
        t
    }

    /// Each index names a vertex of a list of `n` vertices.
    pub open spec fn indices_below(&self, n: int) -> bool {
        &&& self.vertices@.len() == 3
        &&& forall|k: int| 0 <= k < 3 ==> 0 <= #[trigger] self.vertices@[k] < n
    }
}

/// A mesh: vertices, and triangles over them.
pub struct Model {
    pub vertices: Vec<Point3>,
    pub triangles: Vec<Triangle>,
}

impl Model {
    pub fn new(vertices: Vec<Point3>, triangles: Vec<Triangle>) -> (m: Model)
        ensures
            m.vertices@ == vertices@,
            m.triangles@ == triangles@,
    {
        Model { vertices, triangles }
    }

    /// Every vertex within range, and every triangle's indices naming vertices.
    pub open spec fn wf(&self) -> bool {
        &&& forall|i: int| 0 <= i < self.vertices@.len() ==> (#[trigger] self.vertices@[i]).in_range()
        &&& forall|i: int|
            0 <= i < self.triangles@.len() ==> (#[trigger] self.triangles@[i]).indices_below(
                self.vertices@.len() as int,
            )
    }
}

/// The corners of the cube from `(-1, -1, -1)` to `(1, 1, 1)`.
pub open spec fn cube_vertices() -> Seq<Point3> {
    seq![
        Point3 { x: 1, y: 1, z: 1, h: 0 },
        Point3 { x: -1i64, y: 1, z: 1, h: 0 },
        Point3 { x: -1i64, y: -1i64, z: 1, h: 0 },
        Point3 { x: 1, y: -1i64, z: 1, h: 0 },
        Point3 { x: 1, y: 1, z: -1i64, h: 0 },
        Point3 { x: -1i64, y: 1, z: -1i64, h: 0 },
        Point3 { x: -1i64, y: -1i64, z: -1i64, h: 0 },
        Point3 { x: 1, y: -1i64, z: -1i64, h: 0 },
    ]
}

/// The cube's triangles as corner indices and colors, two per face: red at `z = 1`, green
/// at `x = 1`, blue at `z = -1`, yellow at `x = -1`, purple at `y = 1`, cyan at `y = -1`.
pub open spec fn cube_faces() -> Seq<(Seq<i32>, Color)> {
    let red = Color { r: 255, g: 0, b: 0 };
    let green = Color { r: 0, g: 255, b: 0 };
    let blue = Color { r: 0, g: 0, b: 255 };
    let yellow = Color { r: 255, g: 255, b: 0 };
    let purple = Color { r: 123, g: 50, b: 220 };
    let cyan = Color { r: 0, g: 255, b: 255 };
    seq![
        (seq![0i32, 1, 2], red),
        (seq![0i32, 2, 3], red),
        (seq![4i32, 0, 3], green),
        (seq![4i32, 3, 7], green),
        (seq![5i32, 4, 7], blue),
        (seq![5i32, 7, 6], blue),
        (seq![1i32, 5, 6], yellow),
        (seq![1i32, 6, 2], yellow),
        (seq![4i32, 5, 1], purple),
        (seq![4i32, 1, 0], purple),
        (seq![2i32, 6, 7], cyan),
        (seq![2i32, 7, 3], cyan),
    ]
}

/// The cube from `(-1, -1, -1)` to `(1, 1, 1)`: eight corners and twelve triangles, two per
/// face, one color per face.
pub fn default_cube() -> (m: Model)
    ensures
        m.wf(),
        m.vertices@ == cube_vertices(),
        m.triangles@.len() == 12,
        forall|k: int|
            0 <= k < 12 ==> (#[trigger] m.triangles@[k]).vertices@ == cube_faces()[k].0
                && m.triangles@[k].color == cube_faces()[k].1,
{
    let mut vertices: Vec<Point3> = Vec::new();
    vertices.push(Point3::new(1, 1, 1, 0));
    vertices.push(Point3::new(-1, 1, 1, 0));
    vertices.push(Point3::new(-1, -1, 1, 0));
    vertices.push(Point3::new(1, -1, 1, 0));
    vertices.push(Point3::new(1, 1, -1, 0));
    vertices.push(Point3::new(-1, 1, -1, 0));
    vertices.push(Point3::new(-1, -1, -1, 0));
    vertices.push(Point3::new(1, -1, -1, 0));
    let mut triangles: Vec<Triangle> = Vec::new();
    triangles.push(Triangle::new(0, 1, 2, crate::color::red()));
    triangles.push(Triangle::new(0, 2, 3, crate::color::red()));
    triangles.push(Triangle::new(4, 0, 3, crate::color::green()));
    triangles.push(Triangle::new(4, 3, 7, crate::color::green()));
    triangles.push(Triangle::new(5, 4, 7, crate::color::blue()));
    triangles.push(Triangle::new(5, 7, 6, crate::color::blue()));
    triangles.push(Triangle::new(1, 5, 6, crate::color::yellow()));
    triangles.push(Triangle::new(1, 6, 2, crate::color::yellow()));
    triangles.push(Triangle::new(4, 5, 1, crate::color::purple()));
    triangles.push(Triangle::new(4, 1, 0, crate::color::purple()));
    triangles.push(Triangle::new(2, 6, 7, crate::color::cyan()));
    triangles.push(Triangle::new(2, 7, 3, crate::color::cyan()));
    assert(vertices@ =~= cube_vertices());
    Model { vertices, triangles }
}

/// A placement of a shared model: scale (fixed point, per axis), rotation, translation.
pub struct Instance {
    model: Rc<Model>,
    scale: Vector3,
    rotation: Rotation,
    translation: Vector3,
}

impl Instance {
    pub closed spec fn spec_model(&self) -> Model {
        *self.model
    }

    pub closed spec fn spec_scale(&self) -> Vector3 {
        self.scale
    }

    pub closed spec fn spec_rotation(&self) -> Rotation {
        self.rotation
    }

    pub closed spec fn spec_translation(&self) -> Vector3 {
        self.translation
    }

    pub open spec fn wf(&self) -> bool {
        &&& self.spec_model().wf()
        &&& self.spec_scale().in_range()
        &&& self.spec_rotation().wf()
        &&& self.spec_translation().in_range()
    }

    /// The model vertex `p` placed in the world; see `placed`.
    pub open spec fn place_spec(&self, p: Point3) -> Point3 {
        placed(p, self.spec_scale(), self.spec_rotation(), self.spec_translation())
    }

    pub fn new(model: Rc<Model>, scale: Vector3, rotation: Rotation, translation: Vector3) -> (i:
        Instance)
        ensures
            i.spec_model() == *model,
            i.spec_scale() == scale,
            i.spec_rotation() == rotation,
            i.spec_translation() == translation,
    {
        Instance { model, scale, rotation, translation }
    }

    pub fn get_model(&self) -> (m: &Model)
        ensures
            *m == self.spec_model(),
    {
        &self.model
    }

    pub fn get_scale(&self) -> (s: Vector3)
        ensures
            s == self.spec_scale(),
    {
        self.scale
    }

    pub fn set_scale(&mut self, scale: Vector3)
        ensures
            final(self).spec_scale() == scale,
            final(self).spec_model() == old(self).spec_model(),
            final(self).spec_rotation() == old(self).spec_rotation(),
            final(self).spec_translation() == old(self).spec_translation(),
    {
        self.scale = scale;
    }

    pub fn get_rotation(&self) -> (r: Rotation)
        ensures
            r == self.spec_rotation(),
    {
        self.rotation
    }

    pub fn set_rotation(&mut self, rotation: Rotation)
        ensures
            final(self).spec_rotation() == rotation,
            final(self).spec_model() == old(self).spec_model(),
            final(self).spec_scale() == old(self).spec_scale(),
            final(self).spec_translation() == old(self).spec_translation(),
    {
        self.rotation = rotation;
    }

    pub fn get_translation(&self) -> (t: Vector3)
        ensures
            t == self.spec_translation(),
    {
        self.translation
    }

    pub fn set_translation(&mut self, translation: Vector3)
        ensures
            final(self).spec_translation() == translation,
            final(self).spec_model() == old(self).spec_model(),
            final(self).spec_scale() == old(self).spec_scale(),
            final(self).spec_rotation() == old(self).spec_rotation(),
    {
        self.translation = translation;
    }

    /// The model vertex `p` placed in the world by this instance's current scale, rotation
    /// and translation.
    pub fn transform_point(&self, p: &Point3) -> (r: Point3)
        requires
            self.wf(),
            p.in_range(),
        ensures
            r == self.place_spec(*p),
            r.in_range(),
    {
        place(*p, self.scale, self.rotation, self.translation)
    }
}

} // verus!
