use soft_render::color::{cyan, purple, red, Color};
use soft_render::model::default_cube;
use soft_render::geometry::{Angle, Point2, Point3, Vector3, FIXED_ONE, INTENSITY_ONE};
use soft_render::transform::{place, rotate_x, rotate_y, rotate_z, scale, translate, untranslate, Rotation};

#[test]
fn color_new_clamps() {
    let c = Color::new(300, -10, 128);
    assert_eq!((c.r, c.g, c.b), (255, 0, 128));
}

#[test]
fn color_shade_scales_channels() {
    let c = Color::new(200, 100, 3);
    assert_eq!(c.shade(INTENSITY_ONE), c);
    assert_eq!(c.shade(0), Color::new(0, 0, 0));
    assert_eq!(c.shade(INTENSITY_ONE / 4), Color::new(50, 25, 0));
    assert_eq!(c.shade(10 * INTENSITY_ONE), c);
    assert_eq!(c.shade(-5), Color::new(0, 0, 0));
}

#[test]
fn color_scale_multiplies_then_clamps() {
    let c = Color::new(100, 0, 40);
    assert_eq!(c.scale(2 * INTENSITY_ONE), Color::new(200, 0, 80));
    assert_eq!(c.scale(3 * INTENSITY_ONE), Color::new(255, 0, 120));
    assert_eq!(c.scale(INTENSITY_ONE), c);
    assert_eq!(c.scale(INTENSITY_ONE / 2), Color::new(50, 0, 20));
    assert_eq!(c.scale(0), Color::new(0, 0, 0));
    assert_eq!(c.scale(-INTENSITY_ONE), Color::new(0, 0, 0));
    assert_eq!(c.scale(i64::MAX), Color::new(255, 0, 255));
}

#[test]
fn palette_values() {
    assert_eq!(purple(), Color::new(123, 50, 220));
}

#[test]
fn points_clamp_intensity() {
    assert_eq!(Point2::new(1, 2, -3).h, 0);
    assert_eq!(Point2::new(1, 2, 5000).h, INTENSITY_ONE);
    assert_eq!(Point3::new(1, 2, 3, 7).h, 7);
    assert_eq!(Point3::new(1, 2, 3, 9999).h, INTENSITY_ONE);
}

#[test]
fn angle_clamps() {
    let a = Angle::new(2 * FIXED_ONE, -3 * FIXED_ONE);
    assert_eq!((a.cos, a.sin), (FIXED_ONE, -FIXED_ONE));
}

#[test]
fn angle_unit_check() {
    assert!(Angle::zero().is_unit());
    assert!(Angle::new(0, FIXED_ONE).is_unit());
    // cos and sin of 30 degrees, rounded to the nearest integer
    assert!(Angle::new(56756, 32768).is_unit());
    assert!(!Angle::new(0, 0).is_unit());
    assert!(!Angle::new(FIXED_ONE, FIXED_ONE).is_unit());
    assert!(Rotation::identity().is_proper());
    assert!(!Rotation::new(Angle::zero(), Angle::new(0, 0), Angle::zero()).is_proper());
}

#[test]
fn quarter_turns() {
    let quarter = Angle::new(0, FIXED_ONE);
    let p = Point3::new(3, 5, 7, 0);
    assert_eq!(rotate_z(p, quarter), Point3::new(-5, 3, 7, 0));
    assert_eq!(rotate_x(p, quarter), Point3::new(3, -7, 5, 0));
    assert_eq!(rotate_y(p, quarter), Point3::new(7, 5, -3, 0));
}

#[test]
fn scale_and_translate() {
    let p = Point3::new(4, -3, 2, 9);
    let s = Vector3::new(FIXED_ONE / 2, 3 * FIXED_ONE, FIXED_ONE);
    assert_eq!(scale(p, s), Point3::new(2, -9, 2, 9));
    let t = Vector3::new(1, 1, -10);
    assert_eq!(translate(p, t), Point3::new(5, -2, -8, 9));
    assert_eq!(untranslate(p, t), Point3::new(3, -4, 12, 9));
}

#[test]
fn place_order_is_scale_rotate_translate() {
    let p = Point3::new(1, 0, 0, 0);
    let rot = Rotation::new(Angle::zero(), Angle::zero(), Angle::new(0, FIXED_ONE));
    let placed = place(p, Vector3::new(2 * FIXED_ONE, FIXED_ONE, FIXED_ONE), rot, Vector3::new(10, 0, 0));
    assert_eq!(placed, Point3::new(10, 2, 0, 0));
}

#[test]
fn default_cube_faces() {
    let cube = default_cube();
    assert_eq!(cube.vertices.len(), 8);
    assert_eq!(cube.vertices[6], Point3::new(-1, -1, -1, 0));
    assert_eq!(cube.triangles.len(), 12);
    assert_eq!(cube.triangles[0].vertices, [0, 1, 2]);
    assert_eq!(cube.triangles[0].color, red());
    assert_eq!(cube.triangles[11].vertices, [2, 7, 3]);
    assert_eq!(cube.triangles[11].color, cyan());
}
