use soft_render::canvas::Canvas;
use soft_render::color::{black, red, Color};
use soft_render::geometry::{Point2, INTENSITY_ONE};

fn lit(c: &Canvas, color: Color) -> Vec<(i32, i32)> {
    let mut out = Vec::new();
    for by in 0..c.height() {
        for bx in 0..c.width() {
            if c.pixel(bx, by) == color {
                out.push((bx, by));
            }
        }
    }
    out
}

#[test]
fn interpolate_one_step_is_start() {
    assert_eq!(Canvas::interpolate(3, 7, 3, 100), vec![7]);
    assert_eq!(Canvas::interpolate(-4, -9, -4, 0), vec![-9]);
}

#[test]
fn interpolate_zero_to_eight() {
    assert_eq!(Canvas::interpolate(0, 0, 4, 8), vec![0, 2, 4, 6, 8]);
}

#[test]
fn interpolate_rounds_down() {
    assert_eq!(Canvas::interpolate(0, 0, 3, -2), vec![0, -1, -2, -2]);
    assert_eq!(Canvas::interpolate(0, 0, 3, 2), vec![0, 0, 1, 2]);
}

#[test]
fn interpolate_backwards_is_empty() {
    assert!(Canvas::interpolate(5, 0, 1, 10).is_empty());
}

#[test]
fn new_canvas_is_black() {
    let c = Canvas::new(4, 3);
    assert_eq!(c.width(), 4);
    assert_eq!(c.height(), 3);
    assert_eq!(c.pixels().len(), 12);
    assert!(c.pixels().iter().all(|p| *p == black()));
}

#[test]
fn clear_fills_every_pixel() {
    let mut c = Canvas::new(5, 5);
    c.clear(red());
    assert!(c.pixels().iter().all(|p| *p == red()));
}

#[test]
fn put_pixel_maps_center_and_drops_outside() {
    let mut c = Canvas::new(10, 10);
    c.put_pixel(Point2::new(0, 0, 0), red());
    assert_eq!(c.pixel(5, 5), red());
    c.put_pixel(Point2::new(2, 3, 0), red());
    assert_eq!(c.pixel(7, 2), red());
    c.put_pixel(Point2::new(100, 0, 0), red());
    c.put_pixel(Point2::new(0, -6, 0), red());
    assert_eq!(lit(&c, red()).len(), 2);
}

#[test]
fn line_single_point() {
    let mut c = Canvas::new(10, 10);
    c.draw_line(Point2::new(1, 1, 0), Point2::new(1, 1, 0), red());
    assert_eq!(lit(&c, red()), vec![(6, 4)]);
}

#[test]
fn line_horizontal_major() {
    let mut c = Canvas::new(20, 20);
    c.draw_line(Point2::new(-2, 0, 0), Point2::new(2, 1, 0), red());
    // ys = interpolate(-2, 0, 2, 1) = [0, 0, 0, 0, 1]
    assert_eq!(lit(&c, red()), vec![(12, 9), (8, 10), (9, 10), (10, 10), (11, 10)]);
}

#[test]
fn line_order_does_not_matter() {
    let cases = [((-5, -3), (7, 2)), ((1, 8), (-2, -6)), ((0, 0), (3, 3)), ((4, -1), (4, 5))];
    for ((ax, ay), (bx, by)) in cases {
        let a = Point2::new(ax, ay, 0);
        let b = Point2::new(bx, by, 0);
        let mut c1 = Canvas::new(20, 20);
        let mut c2 = Canvas::new(20, 20);
        c1.draw_line(a, b, red());
        c2.draw_line(b, a, red());
        assert_eq!(c1.pixels(), c2.pixels());
        assert!(!lit(&c1, red()).is_empty());
    }
}

#[test]
fn wireframe_draws_three_edges() {
    let mut c = Canvas::new(20, 20);
    c.draw_wireframe_triangle(Point2::new(0, 0, 0), Point2::new(4, 0, 0), Point2::new(0, 4, 0), red());
    let px = lit(&c, red());
    assert!(px.contains(&(10, 10)));
    assert!(px.contains(&(14, 10)));
    assert!(px.contains(&(10, 6)));
    assert!(px.contains(&(12, 8)));
    assert!(!px.contains(&(11, 9)));
}

#[test]
fn filled_triangle_rows() {
    let mut c = Canvas::new(10, 10);
    c.draw_filled_triangle(Point2::new(0, 0, 0), Point2::new(2, 0, 0), Point2::new(0, 2, 0), red());
    let mut px = lit(&c, red());
    px.sort();
    let mut want = vec![(5, 5), (6, 5), (7, 5), (5, 4), (6, 4), (5, 3)];
    want.sort();
    assert_eq!(px, want);
}

#[test]
fn filled_triangle_flat_is_one_row() {
    let mut c = Canvas::new(10, 10);
    c.draw_filled_triangle(Point2::new(-1, 1, 0), Point2::new(3, 1, 0), Point2::new(1, 1, 0), red());
    assert_eq!(lit(&c, red()).len(), 5);
}

#[test]
fn gradient_triangle_shades_by_intensity() {
    let full = INTENSITY_ONE;
    let mut c = Canvas::new(10, 10);
    c.clear(Color::new(1, 2, 3));
    c.draw_gradient_triangle(
        Point2::new(0, 0, full),
        Point2::new(2, 0, full),
        Point2::new(0, 2, full),
        red(),
    );
    assert_eq!(lit(&c, red()).len(), 6);

    let mut d = Canvas::new(10, 10);
    d.clear(Color::new(1, 2, 3));
    d.draw_gradient_triangle(Point2::new(0, 0, 0), Point2::new(2, 0, 0), Point2::new(0, 2, 0), red());
    assert_eq!(lit(&d, black()).len(), 6);

    let mut e = Canvas::new(10, 10);
    e.draw_gradient_triangle(
        Point2::new(0, 0, full / 2),
        Point2::new(2, 0, full / 2),
        Point2::new(0, 2, full / 2),
        Color::new(255, 100, 0),
    );
    assert_eq!(e.pixel(5, 5), Color::new(127, 50, 0));
}

#[test]
fn gradient_interpolates_across_row() {
    let full = INTENSITY_ONE;
    let mut c = Canvas::new(10, 10);
    c.draw_gradient_triangle(
        Point2::new(0, 0, 0),
        Point2::new(4, 0, full),
        Point2::new(0, 0, 0),
        Color::new(200, 200, 200),
    );
    // one row from x = 0 (h = 0) to x = 4 (h = full)
    assert_eq!(c.pixel(5, 5), Color::new(0, 0, 0));
    assert_eq!(c.pixel(7, 5), Color::new(100, 100, 100));
    assert_eq!(c.pixel(9, 5), Color::new(200, 200, 200));
}
