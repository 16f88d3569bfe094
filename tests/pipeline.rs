use std::rc::Rc;

use soft_render::canvas::Canvas;
use soft_render::clipping::{clip_against_planes, clip_triangle, CameraTriangle, Plane};
use soft_render::color::{black, green, red, Color};
use soft_render::geometry::{Angle, Point3, Vector3, FIXED_ONE};
use soft_render::model::{default_cube, Instance, Model, Triangle};
use soft_render::renderer::{DrawMode, Renderer};
use soft_render::scene::Scene;
use soft_render::transform::Rotation;
use soft_render::viewport::Viewport;

fn tri(a: (i64, i64, i64), b: (i64, i64, i64), c: (i64, i64, i64)) -> CameraTriangle {
    CameraTriangle::new(
        Point3::new(a.0, a.1, a.2, 0),
        Point3::new(b.0, b.1, b.2, 0),
        Point3::new(c.0, c.1, c.2, 0),
        green(),
    )
}

fn tolerance(p: &Plane) -> i128 {
    (p.normal.x.abs() + p.normal.y.abs() + p.normal.z.abs()) as i128
}

#[test]
fn signed_distance_and_intersection() {
    let plane = Plane::new(Vector3::new(0, 0, 1), -5);
    assert_eq!(plane.signed_distance(&Point3::new(3, 4, 9, 0)), 4);
    let x = plane.intersection(&Point3::new(10, 0, 10, 0), &Point3::new(0, 0, 0, 0));
    assert_eq!(x, Point3::new(5, 0, 5, 0));
    let y = plane.intersection(&Point3::new(0, 0, 0, 0), &Point3::new(10, 0, 10, 0));
    assert_eq!(y, Point3::new(5, 0, 5, 0));
    let on = plane.intersection(&Point3::new(2, 2, 5, 0), &Point3::new(0, 0, 1, 0));
    assert_eq!(on, Point3::new(2, 2, 5, 0));
}

#[test]
fn clip_all_inside_keeps_triangle() {
    let plane = Plane::new(Vector3::new(0, 0, 1), -1);
    let t = tri((0, 0, 1), (5, 0, 3), (0, 5, 8));
    assert_eq!(clip_triangle(t, plane), vec![t]);
}

#[test]
fn clip_all_outside_drops_triangle() {
    let plane = Plane::new(Vector3::new(0, 0, 1), -10);
    let t = tri((0, 0, 1), (5, 0, 3), (0, 5, 8));
    assert!(clip_triangle(t, plane).is_empty());
}

#[test]
fn clip_one_outside_gives_two_triangles() {
    let plane = Plane::new(Vector3::new(0, 0, 1), -5);
    let t = tri((0, 0, 0), (10, 0, 10), (0, 10, 10));
    let r = clip_triangle(t, plane);
    assert_eq!(r.len(), 2);
    assert_eq!(r[0], tri((10, 0, 10), (0, 10, 10), (0, 5, 5)));
    assert_eq!(r[1], tri((10, 0, 10), (0, 5, 5), (5, 0, 5)));
}

#[test]
fn clip_one_outside_new_corners_near_plane() {
    let plane = Plane::new(Vector3::new(3, -2, 1), 7);
    let t = tri((-20, 3, 1), (4, 1, 2), (6, -5, 0));
    assert!(plane.signed_distance(&t.p0) < 0);
    assert!(plane.signed_distance(&t.p1) >= 0);
    assert!(plane.signed_distance(&t.p2) >= 0);
    let r = clip_triangle(t, plane);
    assert_eq!(r.len(), 2);
    assert_eq!((r[0].p0, r[0].p1), (t.p1, t.p2));
    assert_eq!(r[1].p1, r[0].p2);
    for p in [r[0].p2, r[1].p2] {
        assert!(plane.signed_distance(&p).abs() < tolerance(&plane));
    }
}

#[test]
fn clip_two_outside_gives_one_triangle() {
    let plane = Plane::new(Vector3::new(0, 0, 1), -5);
    let t = tri((0, 0, 10), (10, 0, 0), (0, 10, 0));
    let r = clip_triangle(t, plane);
    assert_eq!(r, vec![tri((0, 0, 10), (5, 0, 5), (0, 5, 5))]);
}

fn unit_setup() -> (Renderer, Scene) {
    let canvas = Canvas::new(100, 100);
    let viewport = Viewport::new(1, 1, 1, &canvas);
    let renderer = Renderer::new(canvas, viewport);
    let cube = Rc::new(default_cube());
    let mut scene = Scene::new();
    scene.add_instance(Instance::new(
        Rc::clone(&cube),
        Vector3::new(FIXED_ONE, FIXED_ONE, FIXED_ONE),
        Rotation::identity(),
        Vector3::new(0, 0, 10),
    ));
    (renderer, scene)
}

#[test]
fn project_axis_point_to_center() {
    let canvas = Canvas::new(100, 60);
    let vp = Viewport::new(3, 2, 4, &canvas);
    let p = vp.project_vertex(&Point3::new(0, 0, 4, 0));
    assert_eq!((p.x, p.y), (0, 0));
    let mut c = Canvas::new(100, 60);
    c.put_pixel(p, red());
    assert_eq!(c.pixel(50, 30), red());
}

#[test]
fn project_scales_to_canvas() {
    let canvas = Canvas::new(100, 100);
    let vp = Viewport::new(1, 1, 1, &canvas);
    let p = vp.project_vertex(&Point3::new(1, 1, 11, 0));
    assert_eq!((p.x, p.y), (9, 9));
    let q = vp.project_vertex(&Point3::new(-1, -1, 9, 0));
    assert_eq!((q.x, q.y), (-12, -12));
    let v = vp.viewport_to_canvas(&Point3::new(1, -1, 0, 0));
    assert_eq!((v.x, v.y), (100, -100));
}

#[test]
fn viewport_has_five_planes() {
    let canvas = Canvas::new(10, 10);
    let vp = Viewport::new(4, 2, 3, &canvas);
    let planes = vp.planes();
    assert_eq!(planes.len(), 5);
    assert_eq!(planes[0], Plane::new(Vector3::new(0, 0, 1), -3));
    assert_eq!(planes[1], Plane::new(Vector3::new(6, 0, 4), 0));
}

#[test]
fn clip_against_frustum_cuts_near() {
    let canvas = Canvas::new(100, 100);
    let vp = Viewport::new(1, 1, 1, &canvas);
    let t = tri((0, 0, -4), (0, 0, 6), (0, 0, 6));
    let r = clip_against_planes(t, vp.planes());
    assert!(!r.is_empty());
    for piece in &r {
        for p in [piece.p0, piece.p1, piece.p2] {
            assert!(p.z >= 1);
        }
    }
}

#[test]
fn cube_scene_keeps_twelve_triangles() {
    let (renderer, scene) = unit_setup();
    let visible = renderer.visible_triangles(&scene);
    assert_eq!(visible.len(), 12);
}

#[test]
fn cube_scene_renders_inside_buffer() {
    let (mut renderer, scene) = unit_setup();
    renderer.canvas.clear(black());
    renderer.render_scene(&scene);
    assert_eq!(renderer.canvas.pixels().len(), 100 * 100);
    assert!(renderer.canvas.pixels().iter().any(|p| *p != black()));
    // the cube's nearest face spans screen -12..=11, so the border stays clear
    assert_eq!(renderer.canvas.pixel(0, 0), black());
    assert_eq!(renderer.canvas.pixel(99, 99), black());
}

#[test]
fn render_twice_after_clear_is_identical() {
    let (mut renderer, scene) = unit_setup();
    renderer.set_mode(DrawMode::Filled);
    renderer.canvas.clear(black());
    renderer.render_scene(&scene);
    let first: Vec<Color> = renderer.canvas.pixels().clone();
    renderer.canvas.clear(black());
    renderer.render_scene(&scene);
    assert_eq!(&first, renderer.canvas.pixels());
}

#[test]
fn instance_setters_and_object_render() {
    let cube = Rc::new(default_cube());
    let mut inst = Instance::new(
        Rc::clone(&cube),
        Vector3::new(FIXED_ONE, FIXED_ONE, FIXED_ONE),
        Rotation::identity(),
        Vector3::new(0, 0, 10),
    );
    inst.set_translation(Vector3::new(1, 2, 30));
    assert_eq!(inst.get_translation(), Vector3::new(1, 2, 30));
    inst.set_scale(Vector3::new(2 * FIXED_ONE, FIXED_ONE, FIXED_ONE));
    assert_eq!(inst.get_scale(), Vector3::new(2 * FIXED_ONE, FIXED_ONE, FIXED_ONE));
    let quarter = Rotation::new(Angle::zero(), Angle::zero(), Angle::new(0, FIXED_ONE));
    inst.set_rotation(quarter);
    assert_eq!(inst.get_rotation(), quarter);
    assert_eq!(inst.get_model().triangles.len(), 12);
    assert_eq!(inst.transform_point(&Point3::new(1, 0, 0, 0)), Point3::new(1, 4, 30, 0));

    let model = Model::new(
        vec![Point3::new(0, 0, 5, 0), Point3::new(1, 0, 5, 0), Point3::new(0, 1, 5, 0)],
        vec![Triangle::new(0, 1, 2, red())],
    );
    let canvas = Canvas::new(50, 50);
    let viewport = Viewport::new(1, 1, 1, &canvas);
    let mut renderer = Renderer::new(canvas, viewport);
    renderer.set_mode(DrawMode::Filled);
    renderer.render_object(&model.vertices, &model.triangles);
    assert_eq!(renderer.canvas.pixel(25, 25), red());
    renderer.render_instance(&inst);
}

#[test]
fn camera_moves_shift_view() {
    let canvas = Canvas::new(100, 100);
    let mut vp = Viewport::new(1, 1, 1, &canvas);
    vp.set_translation(Vector3::new(0, 0, -5));
    assert_eq!(vp.get_translation(), Vector3::new(0, 0, -5));
    assert_eq!(vp.to_camera(&Point3::new(1, 2, 3, 0)), Point3::new(1, 2, 8, 0));
    let turn = Rotation::new(Angle::zero(), Angle::new(0, FIXED_ONE), Angle::zero());
    vp.set_rotation(turn);
    assert_eq!(vp.get_rotation(), turn);
    assert_eq!(vp.to_camera(&Point3::new(1, 2, 3, 0)), Point3::new(8, 2, -1, 0));
}
