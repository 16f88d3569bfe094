use vstd::prelude::*;

use crate::canvas::{buffer_x, buffer_y, filled_image, gradient_image, wireframe_image, Canvas};
use crate::clipping::{
    beyond, clip_against_planes, clipped_by, lemma_clipped_by_depth, CameraTriangle, Plane,
};
use crate::color::Color;
use crate::geometry::{Point2, Point3};
use crate::model::{Instance, Triangle};
use crate::scene::Scene;
use crate::transform::viewed;
use crate::viewport::Viewport;

verus! {

/// How triangles are rasterized.
#[derive(Clone, Copy, Debug, PartialEq, Eq, Structural)]
pub enum DrawMode {
    Wireframe,
    Filled,
    Gradient,
}

/// The corners of `t` taken from `verts`, with `t`'s color.
pub open spec fn camera_triangle(verts: Seq<Point3>, t: Triangle) -> CameraTriangle {
    CameraTriangle {
        p0: verts[t.vertices@[0] as int],
        p1: verts[t.vertices@[1] as int],
        p2: verts[t.vertices@[2] as int],
        color: t.color,
    }
}

/// Each triangle of `tris` over the camera-space vertices `verts`, clipped against
/// `planes`, the pieces kept in order.
pub open spec fn object_pieces(planes: Seq<Plane>, verts: Seq<Point3>, tris: Seq<Triangle>) -> Seq<
    CameraTriangle,
>
    decreases tris.len(),
{
    if tris.len() == 0 {
        Seq::empty()
    } else {
        object_pieces(planes, verts, tris.drop_last()) + clipped_by(
            seq![camera_triangle(verts, tris.last())],
            planes,
        )
    }
}

/// The vertices of `inst`'s model placed by `inst` and seen from the camera of `vp`.
pub open spec fn camera_corners(vp: Viewport, inst: Instance) -> Seq<Point3> {
    Seq::new(
        inst.spec_model().vertices@.len(),
        |i: int|
            viewed(
                inst.place_spec(inst.spec_model().vertices@[i]),
                vp.spec_translation(),
                vp.spec_rotation(),
            ),
    )
}

/// What is left of `inst`'s triangles after clipping, in camera space.
pub open spec fn instance_pieces(vp: Viewport, inst: Instance) -> Seq<CameraTriangle> {
    object_pieces(vp.spec_planes(), camera_corners(vp, inst), inst.spec_model().triangles@)
}

/// What is left of every instance's triangles after clipping, instance after instance.
pub open spec fn scene_pieces(vp: Viewport, insts: Seq<Instance>) -> Seq<CameraTriangle>
    decreases insts.len(),
{
    if insts.len() == 0 {
        Seq::empty()
    } else {
        scene_pieces(vp, insts.drop_last()) + instance_pieces(vp, insts.last())
    }
}

/// `p` as `project_vertex` projects it.
pub open spec fn projected(vp: Viewport, p: Point3) -> Point2 {
    Point2 {
        x: ((p.x * vp.spec_d() * vp.spec_cw()) / (p.z * vp.spec_vw())) as i64,
        y: ((p.y * vp.spec_d() * vp.spec_ch()) / (p.z * vp.spec_vh())) as i64,
        h: p.h,
    }
}

/// A point on the camera's axis, `(0, 0, z)` with `z > 0`, projects to the screen origin,
/// which is buffer column `cw / 2` and row `ch / 2` (see `lemma_origin_pixel` for the pixel
/// written there), whatever the viewport's size and distance.
pub proof fn lemma_axis_projects_to_center(vp: Viewport, p: Point3)
    requires
        p.x == 0,
        p.y == 0,
        p.z >= 1,
        vp.spec_vw() >= 1,
        vp.spec_vh() >= 1,
    ensures
        projected(vp, p).x == 0,
        projected(vp, p).y == 0,
        buffer_x(vp.spec_cw(), projected(vp, p).x as int) == vp.spec_cw() / 2,
        buffer_y(vp.spec_ch(), projected(vp, p).y as int) == vp.spec_ch() / 2,
{
    assert(p.z * vp.spec_vw() > 0) by (nonlinear_arith)
        requires
            p.z >= 1,
            vp.spec_vw() >= 1,
    ;
    assert(p.z * vp.spec_vh() > 0) by (nonlinear_arith)
        requires
            p.z >= 1,
            vp.spec_vh() >= 1,
    ;
    vstd::arithmetic::div_mod::lemma_div_of0(p.z * vp.spec_vw());
    vstd::arithmetic::div_mod::lemma_div_of0(p.z * vp.spec_vh());
    assert(p.x * vp.spec_d() * vp.spec_cw() == 0);
    assert(p.y * vp.spec_d() * vp.spec_ch() == 0);
}

/// `img` after drawing the triangle `p0`, `p1`, `p2` in `mode`.
pub open spec fn draw_image(
    img: Seq<Color>,
    w: int,
    h: int,
    mode: DrawMode,
    p0: Point2,
    p1: Point2,
    p2: Point2,
    c: Color,
) -> Seq<Color> {
    match mode {
        DrawMode::Wireframe => wireframe_image(img, w, h, p0, p1, p2, c),
        DrawMode::Filled => filled_image(img, w, h, p0, p1, p2, c),
        DrawMode::Gradient => gradient_image(img, w, h, p0, p1, p2, c),
    }
}

/// `img` after projecting the camera-space triangle `t` and drawing it in `mode`.
pub open spec fn triangle_image(
    img: Seq<Color>,
    w: int,
    h: int,
    vp: Viewport,
    mode: DrawMode,
    t: CameraTriangle,
) -> Seq<Color> {
    draw_image(img, w, h, mode, projected(vp, t.p0), projected(vp, t.p1), projected(vp, t.p2), t.color)
}

/// `img` after drawing each triangle of `ts` in order; later triangles overwrite earlier
/// ones.
pub open spec fn render_image(
    img: Seq<Color>,
    w: int,
    h: int,
    vp: Viewport,
    mode: DrawMode,
    ts: Seq<CameraTriangle>,
) -> Seq<Color>
    decreases ts.len(),
{
    if ts.len() == 0 {
        img
    } else {
        triangle_image(render_image(img, w, h, vp, mode, ts.drop_last()), w, h, vp, mode, ts.last())
    }
}

fn append_pieces(out: &mut Vec<CameraTriangle>, more: &Vec<CameraTriangle>)
    ensures
        final(out)@ == old(out)@ + more@,
{
    let ghost start = out@;
    let mut j: usize = 0;
    while j < more.len()
        invariant
            j <= more@.len(),
            out@ == start + more@.subrange(0, j as int),
        decreases more@.len() - j,
    {
        out.push(more[j]);
        j = j + 1;
        assert(out@ =~= start + more@.subrange(0, j as int));
    }
    assert(more@.subrange(0, more@.len() as int) =~= more@);
}

/// Every triangle of `ts` is in range and lies at depth `z >= d`.
pub open spec fn drawable(ts: Seq<CameraTriangle>, d: int) -> bool {
    forall|i: int| 0 <= i < ts.len() ==> (#[trigger] ts[i]).in_range() && beyond(ts[i], d)
}

proof fn lemma_drawable_concat(a: Seq<CameraTriangle>, b: Seq<CameraTriangle>, d: int)
    requires
        drawable(a, d),
        drawable(b, d),
    ensures
        drawable(a + b, d),
{
    assert forall|i: int| 0 <= i < (a + b).len() implies (#[trigger] (a + b)[i]).in_range() && beyond(
        (a + b)[i],
        d,
    ) by {
        if i >= a.len() {
            assert((a + b)[i] == b[i - a.len()]);
        } else {
            assert((a + b)[i] == a[i]);
        }
    }
}

/// Rendering onto a freshly cleared canvas gives the same pixels whatever the canvas held
/// before the clear: two renders of one scene, each after a clear, are identical.
pub proof fn lemma_render_after_clear(
    before1: Seq<Color>,
    before2: Seq<Color>,
    background: Color,
    w: int,
    h: int,
    vp: Viewport,
    mode: DrawMode,
    ts: Seq<CameraTriangle>,
)
    requires
        before1.len() == before2.len(),
    ensures
        render_image(Seq::new(before1.len(), |i: int| background), w, h, vp, mode, ts)
            == render_image(Seq::new(before2.len(), |i: int| background), w, h, vp, mode, ts),
{
    assert(Seq::new(before1.len(), |i: int| background) =~= Seq::new(
        before2.len(),
        |i: int| background,
    ));
}

/// Draws scenes through a viewport onto a canvas.
pub struct Renderer {
    pub canvas: Canvas,
    pub viewport: Viewport,
    pub mode: DrawMode,
}

impl Renderer {
    pub open spec fn wf(&self) -> bool {
        self.canvas.wf() && self.viewport.wf()
    }

    /// A renderer that draws wireframes.
    pub fn new(canvas: Canvas, viewport: Viewport) -> (r: Renderer)
        ensures
            r.canvas == canvas,
            r.viewport == viewport,
            r.mode == DrawMode::Wireframe,
    {
        Renderer { canvas, viewport, mode: DrawMode::Wireframe }
    }

    /// Clips each triangle of `triangles`, over the camera-space `vertices`, against the
    /// viewport's planes; see `object_pieces`.
    pub fn clip_object(&self, vertices: &Vec<Point3>, triangles: &Vec<Triangle>) -> (r: Vec<
        CameraTriangle,
    >)
        requires
            self.viewport.wf(),
            forall|i: int| 0 <= i < vertices@.len() ==> (#[trigger] vertices@[i]).in_range(),
            forall|i: int|
                0 <= i < triangles@.len() ==> (#[trigger] triangles@[i]).indices_below(
                    vertices@.len() as int,
                ),
        ensures
            r@ == object_pieces(self.viewport.spec_planes(), vertices@, triangles@),
            drawable(r@, self.viewport.spec_d()),
    {
        let planes = self.viewport.planes();
        let ghost d = self.viewport.spec_d();
        let mut out: Vec<CameraTriangle> = Vec::new();
        let mut k: usize = 0;
        assert(triangles@.subrange(0, 0) =~= Seq::<Triangle>::empty());
        while k < triangles.len()
            invariant
                k <= triangles@.len(),
                self.viewport.wf(),
                d == self.viewport.spec_d(),
                planes@ == self.viewport.spec_planes(),
                forall|i: int| 0 <= i < vertices@.len() ==> (#[trigger] vertices@[i]).in_range(),
                forall|i: int|
                    0 <= i < triangles@.len() ==> (#[trigger] triangles@[i]).indices_below(
                        vertices@.len() as int,
                    ),
                out@ == object_pieces(planes@, vertices@, triangles@.subrange(0, k as int)),
                drawable(out@, d),
            decreases triangles@.len() - k,
        {
            let t = &triangles[k];
            assert(t.indices_below(vertices@.len() as int));
            assert(0 <= t.vertices@[0] < vertices@.len());
            assert(0 <= t.vertices@[1] < vertices@.len());
            assert(0 <= t.vertices@[2] < vertices@.len());
            let ct = CameraTriangle {
                p0: vertices[t.vertices[0] as usize],
                p1: vertices[t.vertices[1] as usize],
                p2: vertices[t.vertices[2] as usize],
                color: t.color,
            };
            assert(ct == camera_triangle(vertices@, triangles@[k as int]));
            let pieces = clip_against_planes(ct, planes);
            proof {
                lemma_clipped_by_depth(seq![ct], planes@, d);
                assert(drawable(pieces@, d));
                lemma_drawable_concat(out@, pieces@, d);
            }
            append_pieces(&mut out, &pieces);
            proof {
                assert(triangles@.subrange(0, k + 1).drop_last() =~= triangles@.subrange(
                    0,
                    k as int,
                ));
            }
            k = k + 1;
        }
        assert(triangles@.subrange(0, triangles@.len() as int) =~= triangles@);
        out
    }

    /// The vertices of `instance`'s model placed by `instance` and taken into camera space,
    /// then its triangles clipped; see `instance_pieces`.
    pub fn clip_instance(&self, instance: &Instance) -> (r: Vec<CameraTriangle>)
        requires
            self.viewport.wf(),
            instance.wf(),
        ensures
            r@ == instance_pieces(self.viewport, *instance),
            drawable(r@, self.viewport.spec_d()),
    {
        let model = instance.get_model();
        let mut corners: Vec<Point3> = Vec::new();
        let mut i: usize = 0;
        while i < model.vertices.len()
            invariant
                i <= model.vertices@.len(),
                *model == instance.spec_model(),
                instance.wf(),
                self.viewport.wf(),
                corners@.len() == i,
                forall|j: int|
                    0 <= j < i ==> #[trigger] corners@[j] == camera_corners(self.viewport, *instance)[j],
                forall|j: int| 0 <= j < i ==> (#[trigger] corners@[j]).in_range(),
            decreases model.vertices@.len() - i,
        {
            assert(model.vertices@[i as int].in_range());
            let world = instance.transform_point(&model.vertices[i]);
            let c = self.viewport.to_camera(&world);
            corners.push(c);
            i = i + 1;
        }
        assert(corners@ =~= camera_corners(self.viewport, *instance));
        self.clip_object(&corners, &model.triangles)
    }

    /// The clipped camera-space triangles of every instance of `scene`, in drawing order;
    /// see `scene_pieces`.
    pub fn visible_triangles(&self, scene: &Scene) -> (r: Vec<CameraTriangle>)
        requires
            self.viewport.wf(),
            scene.wf(),
        ensures
            r@ == scene_pieces(self.viewport, scene.instances@),
            drawable(r@, self.viewport.spec_d()),
    {
        let mut out: Vec<CameraTriangle> = Vec::new();
        let mut k: usize = 0;
        let ghost d = self.viewport.spec_d();
        assert(scene.instances@.subrange(0, 0) =~= Seq::<Instance>::empty());
        while k < scene.instances.len()
            invariant
                k <= scene.instances@.len(),
                self.viewport.wf(),
                d == self.viewport.spec_d(),
                scene.wf(),
                out@ == scene_pieces(self.viewport, scene.instances@.subrange(0, k as int)),
                drawable(out@, d),
            decreases scene.instances@.len() - k,
        {
            assert(scene.instances@[k as int].wf());
            let pieces = self.clip_instance(&scene.instances[k]);
            proof {
                lemma_drawable_concat(out@, pieces@, d);
            }
            append_pieces(&mut out, &pieces);
            proof {
                assert(scene.instances@.subrange(0, k + 1).drop_last() =~= scene.instances@.subrange(
                    0,
                    k as int,
                ));
            }
            k = k + 1;
        }
        assert(scene.instances@.subrange(0, scene.instances@.len() as int) =~= scene.instances@);
        out
    }

    /// Projects the corners of the clipped camera-space triangle `triangle` and draws it in
    /// the current mode.
    pub fn render_triangle(&mut self, triangle: &CameraTriangle)
        requires
            old(self).wf(),
            triangle.in_range(),
            beyond(*triangle, old(self).viewport.spec_d()),
        ensures
            final(self).wf(),
            final(self).viewport == old(self).viewport,
            final(self).mode == old(self).mode,
            final(self).canvas.spec_width() == old(self).canvas.spec_width(),
            final(self).canvas.spec_height() == old(self).canvas.spec_height(),
            final(self).canvas@ == triangle_image(
                old(self).canvas@,
                old(self).canvas.spec_width(),
                old(self).canvas.spec_height(),
                old(self).viewport,
                old(self).mode,
                *triangle,
            ),
    {
        let q0 = self.viewport.project_vertex(&triangle.p0);
        let q1 = self.viewport.project_vertex(&triangle.p1);
        let q2 = self.viewport.project_vertex(&triangle.p2);
        assert(q0 == projected(self.viewport, triangle.p0));
        assert(q1 == projected(self.viewport, triangle.p1));
        assert(q2 == projected(self.viewport, triangle.p2));
        match self.mode {
            DrawMode::Wireframe => self.canvas.draw_wireframe_triangle(q0, q1, q2, triangle.color),
            DrawMode::Filled => self.canvas.draw_filled_triangle(q0, q1, q2, triangle.color),
            DrawMode::Gradient => self.canvas.draw_gradient_triangle(q0, q1, q2, triangle.color),
        }
    }

    fn render_pieces(&mut self, ts: &Vec<CameraTriangle>)
        requires
            old(self).wf(),
            drawable(ts@, old(self).viewport.spec_d()),
        ensures
            final(self).wf(),
            final(self).viewport == old(self).viewport,
            final(self).mode == old(self).mode,
            final(self).canvas.spec_width() == old(self).canvas.spec_width(),
            final(self).canvas.spec_height() == old(self).canvas.spec_height(),
            final(self).canvas@ == render_image(
                old(self).canvas@,
                old(self).canvas.spec_width(),
                old(self).canvas.spec_height(),
                old(self).viewport,
                old(self).mode,
                ts@,
            ),
    {
        let ghost img = self.canvas@;
        let ghost w = self.canvas.spec_width();
        let ghost h = self.canvas.spec_height();
        let mut k: usize = 0;
        assert(ts@.subrange(0, 0) =~= Seq::<CameraTriangle>::empty());
        while k < ts.len()
            invariant
                k <= ts@.len(),
                self.wf(),
                self.viewport == old(self).viewport,
                self.mode == old(self).mode,
                self.canvas.spec_width() == w,
                self.canvas.spec_height() == h,
                drawable(ts@, self.viewport.spec_d()),
                self.canvas@ == render_image(
                    img,
                    w,
                    h,
                    self.viewport,
                    self.mode,
                    ts@.subrange(0, k as int),
                ),
            decreases ts@.len() - k,
        {
            assert(ts@[k as int].in_range());
            self.render_triangle(&ts[k]);
            proof {
                assert(ts@.subrange(0, k + 1).drop_last() =~= ts@.subrange(0, k as int));
            }
            k = k + 1;
        }
        assert(ts@.subrange(0, ts@.len() as int) =~= ts@);
    }

    /// Clips the triangles `triangles` over the camera-space `vertices` and draws what is
    /// left, in order.
    pub fn render_object(&mut self, vertices: &Vec<Point3>, triangles: &Vec<Triangle>)
        requires
            old(self).wf(),
            forall|i: int| 0 <= i < vertices@.len() ==> (#[trigger] vertices@[i]).in_range(),
            forall|i: int|
                0 <= i < triangles@.len() ==> (#[trigger] triangles@[i]).indices_below(
                    vertices@.len() as int,
                ),
        ensures
            final(self).wf(),
            final(self).viewport == old(self).viewport,
            final(self).mode == old(self).mode,
            final(self).canvas.spec_width() == old(self).canvas.spec_width(),
            final(self).canvas.spec_height() == old(self).canvas.spec_height(),
            final(self).canvas@ == render_image(
                old(self).canvas@,
                old(self).canvas.spec_width(),
                old(self).canvas.spec_height(),
                old(self).viewport,
                old(self).mode,
                object_pieces(old(self).viewport.spec_planes(), vertices@, triangles@),
            ),
    {
        let ts = self.clip_object(vertices, triangles);
        self.render_pieces(&ts);
    }

    /// Places `instance`, clips its triangles and draws what is left, in order.
    pub fn render_instance(&mut self, instance: &Instance)
        requires
            old(self).wf(),
            instance.wf(),
        ensures
            final(self).wf(),
            final(self).viewport == old(self).viewport,
            final(self).mode == old(self).mode,
            final(self).canvas.spec_width() == old(self).canvas.spec_width(),
            final(self).canvas.spec_height() == old(self).canvas.spec_height(),
            final(self).canvas@ == render_image(
                old(self).canvas@,
                old(self).canvas.spec_width(),
                old(self).canvas.spec_height(),
                old(self).viewport,
                old(self).mode,
                instance_pieces(old(self).viewport, *instance),
            ),
    {
        let ts = self.clip_instance(instance);
        self.render_pieces(&ts);
    }

    /// Draws every instance of `scene`, in order, with no depth test: a later triangle
    /// overwrites an earlier one.
    pub fn render_scene(&mut self, scene: &Scene)
        requires
            old(self).wf(),
            scene.wf(),
        ensures
            final(self).wf(),
            final(self).viewport == old(self).viewport,
            final(self).mode == old(self).mode,
            final(self).canvas.spec_width() == old(self).canvas.spec_width(),
            final(self).canvas.spec_height() == old(self).canvas.spec_height(),
            final(self).canvas@ == render_image(
                old(self).canvas@,
                old(self).canvas.spec_width(),
                old(self).canvas.spec_height(),
                old(self).viewport,
                old(self).mode,
                scene_pieces(old(self).viewport, scene.instances@),
            ),
    {
        let ts = self.visible_triangles(scene);
        self.render_pieces(&ts);
    }

    pub fn set_mode(&mut self, mode: DrawMode)
        ensures
            final(self).mode == mode,
            final(self).canvas == old(self).canvas,
            final(self).viewport == old(self).viewport,
    {
        self.mode = mode;
    }
}

} // verus!
