use vstd::prelude::*;

use crate::color::{shade_of, Color};
use crate::geometry::{abs_int, floor_div, Point2, INTENSITY_ONE, SCREEN_LIMIT};

verus! {

/// Largest width or height of a canvas, in pixels.
pub const CANVAS_LIMIT: i32 = 0x8000;

/// The value at step `k` of the run from `d0` (at `i0`) to `d1` (at `i1`): `d0` plus
/// `k` times the slope `(d1 - d0) / (i1 - i0)`, rounded down. A run of one step is
/// constantly `d0`.
pub open spec fn lerp(i0: int, d0: int, i1: int, d1: int, k: int) -> int {
    if i0 == i1 {
        d0
    } else {
        d0 + (k * (d1 - d0)) / (i1 - i0)
    }
}

/// The values that `interpolate` returns: one per integer from `i0` to `i1`, both included.
pub open spec fn interp_seq(i0: int, d0: int, i1: int, d1: int) -> Seq<int> {
    if i0 == i1 {
        seq![d0]
    } else if i0 < i1 {
        Seq::new((i1 - i0 + 1) as nat, |k: int| lerp(i0, d0, i1, d1, k))
    } else {
        Seq::empty()
    }
}

pub open spec fn min_int(a: int, b: int) -> int {
    if a < b {
        a
    } else {
        b
    }
}

pub open spec fn max_int(a: int, b: int) -> int {
    if a < b {
        b
    } else {
        a
    }
}

/// A run whose two ends share one position is the single value at its start, whatever
/// the other end's value.
pub proof fn lemma_interp_single(i: int, d: int, d2: int)
    ensures
        interp_seq(i, d, i, d2) == seq![d],
{
}

/// Writing at the screen origin changes exactly the pixel in buffer column `w / 2` and row
/// `h / 2` of a buffer at least one pixel wide and high.
pub proof fn lemma_origin_pixel(img: Seq<Color>, w: int, h: int, c: Color)
    requires
        w >= 1,
        h >= 1,
        img.len() == w * h,
    ensures
        buffer_x(w, 0) == w / 2,
        buffer_y(h, 0) == h / 2,
        0 <= (h / 2) * w + w / 2 < img.len(),
        put_pixel_image(img, w, h, 0, 0, c) == img.update((h / 2) * w + w / 2, c),
{
    lemma_index_of_screen(w, h, 0, 0);
}

/// Every value of a run lies between its two ends.
pub proof fn lemma_lerp_between(i0: int, d0: int, i1: int, d1: int, k: int)
    requires
        i0 <= i1,
        0 <= k <= i1 - i0,
    ensures
        min_int(d0, d1) <= lerp(i0, d0, i1, d1, k) <= max_int(d0, d1),
        k == 0 ==> lerp(i0, d0, i1, d1, k) == d0,
        i0 < i1 && k == i1 - i0 ==> lerp(i0, d0, i1, d1, k) == d1,
{
    if i0 < i1 {
        let n = i1 - i0;
        let m = d1 - d0;
        if m >= 0 {
            assert(0 <= k * m <= n * m) by (nonlinear_arith)
                requires
                    0 <= k <= n,
                    m >= 0,
            ;
            vstd::arithmetic::div_mod::lemma_div_is_ordered(0, k * m, n);
            vstd::arithmetic::div_mod::lemma_div_is_ordered(k * m, n * m, n);
        } else {
            assert(n * m <= k * m <= 0) by (nonlinear_arith)
                requires
                    0 <= k <= n,
                    m < 0,
            ;
            vstd::arithmetic::div_mod::lemma_div_is_ordered(k * m, 0, n);
            vstd::arithmetic::div_mod::lemma_div_is_ordered(n * m, k * m, n);
        }
        vstd::arithmetic::div_mod::lemma_div_multiples_vanish(m, n);
        assert(0int / n == 0) by {
            vstd::arithmetic::div_mod::lemma_div_of0(n);
        }
        assert(n * m == m * n) by (nonlinear_arith);
        if k == 0 {
            assert(k * m == 0);
        }
        if k == n {
            assert(k * m == n * m);
            assert((k * m) / n == m);
            assert(lerp(i0, d0, i1, d1, k) == d0 + m);
        }
    }
}

/// The buffer column of the screen column `x`.
pub open spec fn buffer_x(w: int, x: int) -> int {
    w / 2 + x
}

/// The buffer row of the screen row `y` (screen y grows upwards, buffer rows downwards).
pub open spec fn buffer_y(h: int, y: int) -> int {
    h / 2 - y
}

/// Whether the screen point `(x, y)` falls inside a `w` by `h` buffer.
pub open spec fn on_canvas(w: int, h: int, x: int, y: int) -> bool {
    &&& 0 <= buffer_x(w, x) < w
    &&& 0 <= buffer_y(h, y) < h
}

/// The position in the row-major buffer of the screen point `(x, y)`.
pub open spec fn index_of(w: int, h: int, x: int, y: int) -> int {
    buffer_y(h, y) * w + buffer_x(w, x)
}

/// The screen column of buffer position `i`.
pub open spec fn screen_x(w: int, i: int) -> int {
    i % w - w / 2
}

/// The screen row of buffer position `i`.
pub open spec fn screen_y(w: int, h: int, i: int) -> int {
    h / 2 - i / w
}

/// `img` after writing `c` at the screen point `(x, y)`; a point off the buffer writes
/// nothing.
pub open spec fn put_pixel_image(img: Seq<Color>, w: int, h: int, x: int, y: int, c: Color) -> Seq<
    Color,
> {
    if on_canvas(w, h, x, y) {
        img.update(index_of(w, h, x, y), c)
    } else {
        img
    }
}

/// `img` after every screen point for which `covered` holds has been written with the
/// color `shade` gives it; points off the buffer write nothing.
pub open spec fn paint(
    img: Seq<Color>,
    w: int,
    h: int,
    covered: spec_fn(int, int) -> bool,
    shade: spec_fn(int, int) -> Color,
) -> Seq<Color> {
    Seq::new(
        img.len(),
        |i: int|
            if covered(screen_x(w, i), screen_y(w, h, i)) {
                shade(screen_x(w, i), screen_y(w, h, i))
            } else {
                img[i]
            },
    )
}

proof fn lemma_index_of_screen(w: int, h: int, x: int, y: int)
    requires
        on_canvas(w, h, x, y),
    ensures
        0 <= index_of(w, h, x, y) < w * h,
        screen_x(w, index_of(w, h, x, y)) == x,
        screen_y(w, h, index_of(w, h, x, y)) == y,
{
    let i = index_of(w, h, x, y);
    let bx = buffer_x(w, x);
    let by = buffer_y(h, y);
    vstd::arithmetic::div_mod::lemma_fundamental_div_mod_converse(i, w, by, bx);
    assert(0 <= by * w <= (h - 1) * w) by (nonlinear_arith)
        requires
            0 <= by < h,
            w > 0,
    ;
    assert((h - 1) * w + w == w * h) by (nonlinear_arith);
}

proof fn lemma_screen_of_index(w: int, h: int, i: int)
    requires
        0 <= w,
        0 <= h,
        0 <= i < w * h,
    ensures
        on_canvas(w, h, screen_x(w, i), screen_y(w, h, i)),
        index_of(w, h, screen_x(w, i), screen_y(w, h, i)) == i,
{
    assert(w > 0) by (nonlinear_arith)
        requires
            0 <= i < w * h,
            0 <= h,
    ;
    vstd::arithmetic::div_mod::lemma_fundamental_div_mod(i, w);
    vstd::arithmetic::div_mod::lemma_mod_pos_bound(i, w);
    vstd::arithmetic::div_mod::lemma_div_pos_is_pos(i, w);
    assert(i / w < h) by (nonlinear_arith)
        requires
            i == w * (i / w) + i % w,
            0 <= i % w,
            i < w * h,
            w > 0,
    ;
    assert((i / w) * w == w * (i / w)) by (nonlinear_arith);
}

/// Painting one more point is writing it over what was painted before.
proof fn lemma_paint_step(
    img: Seq<Color>,
    w: int,
    h: int,
    before: spec_fn(int, int) -> bool,
    after: spec_fn(int, int) -> bool,
    shade: spec_fn(int, int) -> Color,
    x: int,
    y: int,
)
    requires
        0 <= w,
        0 <= h,
        img.len() == w * h,
        forall|a: int, b: int| #[trigger] after(a, b) == (before(a, b) || (a == x && b == y)),
    ensures
        paint(img, w, h, after, shade) == put_pixel_image(
            paint(img, w, h, before, shade),
            w,
            h,
            x,
            y,
            shade(x, y),
        ),
{
    let lhs = paint(img, w, h, after, shade);
    let rhs = put_pixel_image(paint(img, w, h, before, shade), w, h, x, y, shade(x, y));
    if on_canvas(w, h, x, y) {
        lemma_index_of_screen(w, h, x, y);
    }
    assert forall|i: int| 0 <= i < lhs.len() implies lhs[i] == rhs[i] by {
        lemma_screen_of_index(w, h, i);
        let sx = screen_x(w, i);
        let sy = screen_y(w, h, i);
        assert(after(sx, sy) == (before(sx, sy) || (sx == x && sy == y)));
    }
    assert(lhs =~= rhs);
}

/// Painting nothing leaves the image as it was.
proof fn lemma_paint_none(
    img: Seq<Color>,
    w: int,
    h: int,
    covered: spec_fn(int, int) -> bool,
    shade: spec_fn(int, int) -> Color,
)
    requires
        forall|a: int, b: int| !#[trigger] covered(a, b),
    ensures
        paint(img, w, h, covered, shade) == img,
{
    assert(paint(img, w, h, covered, shade) =~= img);
}

/// Painting depends on the covered points alone, not on how they are described.
proof fn lemma_paint_same(
    img: Seq<Color>,
    w: int,
    h: int,
    c1: spec_fn(int, int) -> bool,
    s1: spec_fn(int, int) -> Color,
    c2: spec_fn(int, int) -> bool,
    s2: spec_fn(int, int) -> Color,
)
    requires
        forall|a: int, b: int| #[trigger] c1(a, b) == c2(a, b),
        forall|a: int, b: int| c1(a, b) ==> #[trigger] s1(a, b) == s2(a, b),
    ensures
        paint(img, w, h, c1, s1) == paint(img, w, h, c2, s2),
{
    let l = paint(img, w, h, c1, s1);
    let r = paint(img, w, h, c2, s2);
    assert forall|i: int| 0 <= i < l.len() implies l[i] == r[i] by {
        let sx = screen_x(w, i);
        let sy = screen_y(w, h, i);
        assert(c1(sx, sy) == c2(sx, sy));
    }
    assert(l =~= r);
}

/// Whether `draw_line(p0, p1, _)` writes the screen point `(x, y)`. Along the axis of
/// larger extent (x when `|dx| > |dy|`, else y) every integer from the lower end to the
/// higher end is visited once, and the other coordinate is interpolated from the lower end.
pub open spec fn line_covers(p0: Point2, p1: Point2, x: int, y: int) -> bool {
    if abs_int(p1.x - p0.x) > abs_int(p1.y - p0.y) {
        let (a, b) = if p0.x > p1.x {
            (p1, p0)
        } else {
            (p0, p1)
        };
        a.x <= x <= b.x && y == lerp(a.x as int, a.y as int, b.x as int, b.y as int, x - a.x)
    } else {
        let (a, b) = if p0.y > p1.y {
            (p1, p0)
        } else {
            (p0, p1)
        };
        a.y <= y <= b.y && x == lerp(a.y as int, a.x as int, b.y as int, b.x as int, y - a.y)
    }
}

/// `img` after `draw_line(p0, p1, c)`.
pub open spec fn line_image(img: Seq<Color>, w: int, h: int, p0: Point2, p1: Point2, c: Color) -> Seq<
    Color,
> {
    paint(img, w, h, |x: int, y: int| line_covers(p0, p1, x, y), |x: int, y: int| c)
}

/// `img` after `draw_wireframe_triangle(p0, p1, p2, c)`: the edges p0-p1, p1-p2, p2-p0
/// drawn in that order.
pub open spec fn wireframe_image(
    img: Seq<Color>,
    w: int,
    h: int,
    p0: Point2,
    p1: Point2,
    p2: Point2,
    c: Color,
) -> Seq<Color> {
    line_image(line_image(line_image(img, w, h, p0, p1, c), w, h, p1, p2, c), w, h, p2, p0, c)
}

/// A line covers the same points whichever end comes first.
pub proof fn lemma_line_symmetric(p0: Point2, p1: Point2, x: int, y: int)
    ensures
        line_covers(p0, p1, x, y) == line_covers(p1, p0, x, y),
{
}

/// Drawing `A` to `B` and drawing `B` to `A` write the same pixels.
pub proof fn lemma_line_image_symmetric(
    img: Seq<Color>,
    w: int,
    h: int,
    a: Point2,
    b: Point2,
    c: Color,
)
    ensures
        line_image(img, w, h, a, b, c) == line_image(img, w, h, b, a, c),
{
    lemma_paint_same(
        img,
        w,
        h,
        |x: int, y: int| line_covers(a, b, x, y),
        |x: int, y: int| c,
        |x: int, y: int| line_covers(b, a, x, y),
        |x: int, y: int| c,
    );
}

/// The three corners ordered by ascending y, by the swaps p0/p1, p0/p2, p1/p2 (each made
/// only when the later point lies strictly lower).
pub open spec fn sort_by_y(p0: Point2, p1: Point2, p2: Point2) -> (Point2, Point2, Point2) {
    let (p0, p1) = if p1.y < p0.y {
        (p1, p0)
    } else {
        (p0, p1)
    };
    let (p0, p2) = if p2.y < p0.y {
        (p2, p0)
    } else {
        (p0, p2)
    };
    let (p1, p2) = if p2.y < p1.y {
        (p2, p1)
    } else {
        (p1, p2)
    };
    (p0, p1, p2)
}

/// Row `y` of the path `s0`, `s1`, `s2` (sorted by y): its x.
pub open spec fn short_x(s0: Point2, s1: Point2, s2: Point2, y: int) -> int {
    if y < s1.y {
        lerp(s0.y as int, s0.x as int, s1.y as int, s1.x as int, y - s0.y)
    } else {
        lerp(s1.y as int, s1.x as int, s2.y as int, s2.x as int, y - s1.y)
    }
}

/// Row `y` of the path `s0`, `s1`, `s2` (sorted by y): its intensity.
pub open spec fn short_h(s0: Point2, s1: Point2, s2: Point2, y: int) -> int {
    if y < s1.y {
        lerp(s0.y as int, s0.h as int, s1.y as int, s1.h as int, y - s0.y)
    } else {
        lerp(s1.y as int, s1.h as int, s2.y as int, s2.h as int, y - s1.y)
    }
}

/// Row `y` of the edge `s0`, `s2`: its x.
pub open spec fn long_x(s0: Point2, s2: Point2, y: int) -> int {
    lerp(s0.y as int, s0.x as int, s2.y as int, s2.x as int, y - s0.y)
}

/// Row `y` of the edge `s0`, `s2`: its intensity.
pub open spec fn long_h(s0: Point2, s2: Point2, y: int) -> int {
    lerp(s0.y as int, s0.h as int, s2.y as int, s2.h as int, y - s0.y)
}

/// The middle row of the triangle, where the two sides are compared.
pub open spec fn mid_row(s0: Point2, s2: Point2) -> int {
    s0.y + (s2.y - s0.y + 1) / 2
}

/// Whether the edge `s0`, `s2` bounds the rows on the left.
pub open spec fn long_is_left(s0: Point2, s1: Point2, s2: Point2) -> bool {
    long_x(s0, s2, mid_row(s0, s2)) < short_x(s0, s1, s2, mid_row(s0, s2))
}

pub open spec fn span_left(s0: Point2, s1: Point2, s2: Point2, y: int) -> int {
    if long_is_left(s0, s1, s2) {
        long_x(s0, s2, y)
    } else {
        short_x(s0, s1, s2, y)
    }
}

pub open spec fn span_right(s0: Point2, s1: Point2, s2: Point2, y: int) -> int {
    if long_is_left(s0, s1, s2) {
        short_x(s0, s1, s2, y)
    } else {
        long_x(s0, s2, y)
    }
}

pub open spec fn span_left_h(s0: Point2, s1: Point2, s2: Point2, y: int) -> int {
    if long_is_left(s0, s1, s2) {
        long_h(s0, s2, y)
    } else {
        short_h(s0, s1, s2, y)
    }
}

pub open spec fn span_right_h(s0: Point2, s1: Point2, s2: Point2, y: int) -> int {
    if long_is_left(s0, s1, s2) {
        short_h(s0, s1, s2, y)
    } else {
        long_h(s0, s2, y)
    }
}

/// Whether the sorted triangle `s0`, `s1`, `s2` fills the screen point `(x, y)`: a row from
/// `s0.y` to `s2.y`, between the left and right bounds of that row, both included.
pub open spec fn span_covers(s0: Point2, s1: Point2, s2: Point2, x: int, y: int) -> bool {
    &&& s0.y <= y <= s2.y
    &&& span_left(s0, s1, s2, y) <= x <= span_right(s0, s1, s2, y)
}

/// The color of a gradient triangle at `(x, y)`: `c` shaded by the intensity interpolated
/// across the row from its left bound to its right bound.
pub open spec fn span_shade(s0: Point2, s1: Point2, s2: Point2, c: Color, x: int, y: int) -> Color {
    shade_of(
        c,
        lerp(
            span_left(s0, s1, s2, y),
            span_left_h(s0, s1, s2, y),
            span_right(s0, s1, s2, y),
            span_right_h(s0, s1, s2, y),
            x - span_left(s0, s1, s2, y),
        ),
    )
}

/// Whether a filled or gradient triangle with corners `p0`, `p1`, `p2` writes `(x, y)`.
pub open spec fn filled_covers(p0: Point2, p1: Point2, p2: Point2, x: int, y: int) -> bool {
    let (s0, s1, s2) = sort_by_y(p0, p1, p2);
    span_covers(s0, s1, s2, x, y)
}

/// The color a fill writes at `(x, y)`: shaded by intensity, or `c` itself.
pub open spec fn fill_shade(
    p0: Point2,
    p1: Point2,
    p2: Point2,
    c: Color,
    shaded: bool,
    x: int,
    y: int,
) -> Color {
    let (s0, s1, s2) = sort_by_y(p0, p1, p2);
    if shaded {
        span_shade(s0, s1, s2, c, x, y)
    } else {
        c
    }
}

/// `img` after `draw_filled_triangle(p0, p1, p2, c)`.
pub open spec fn filled_image(
    img: Seq<Color>,
    w: int,
    h: int,
    p0: Point2,
    p1: Point2,
    p2: Point2,
    c: Color,
) -> Seq<Color> {
    paint(img, w, h, |x: int, y: int| filled_covers(p0, p1, p2, x, y), |x: int, y: int| c)
}

/// `img` after `draw_gradient_triangle(p0, p1, p2, c)`.
pub open spec fn gradient_image(
    img: Seq<Color>,
    w: int,
    h: int,
    p0: Point2,
    p1: Point2,
    p2: Point2,
    c: Color,
) -> Seq<Color> {
    paint(
        img,
        w,
        h,
        |x: int, y: int| filled_covers(p0, p1, p2, x, y),
        |x: int, y: int| fill_shade(p0, p1, p2, c, true, x, y),
    )
}

/// `first` without its last value, followed by `second`.
fn join_runs(first: &Vec<i64>, second: &Vec<i64>) -> (r: Vec<i64>)
    requires
        first@.len() >= 1,
    ensures
        r@ == first@.subrange(0, first@.len() - 1) + second@,
{
    let mut r: Vec<i64> = Vec::new();
    let n = first.len() - 1;
    let mut i: usize = 0;
    while i < n
        invariant
            i <= n,
            n == first@.len() - 1,
            r@ == first@.subrange(0, i as int),
        decreases n - i,
    {
        r.push(first[i]);
        i = i + 1;
        assert(r@ =~= first@.subrange(0, i as int));
    }
    let mut j: usize = 0;
    while j < second.len()
        invariant
            j <= second@.len(),
            n == first@.len() - 1,
            r@ == first@.subrange(0, n as int) + second@.subrange(0, j as int),
        decreases second@.len() - j,
    {
        r.push(second[j]);
        j = j + 1;
        assert(r@ =~= first@.subrange(0, n as int) + second@.subrange(0, j as int));
    }
    assert(second@.subrange(0, second@.len() as int) =~= second@);
    r
}

/// The rows of a triangle side: the edge `y0`-`y2` taken directly, and the path through
/// `y1` joined from its two edges, with the shared row counted once.
proof fn lemma_rows(
    y0: int,
    y1: int,
    y2: int,
    d0: int,
    d1: int,
    d2: int,
    lo: int,
    hi: int,
    r01: Seq<i64>,
    r12: Seq<i64>,
    r02: Seq<i64>,
    joined: Seq<i64>,
)
    requires
        y0 <= y1 <= y2,
        lo <= d0 <= hi,
        lo <= d1 <= hi,
        lo <= d2 <= hi,
        r01.len() == interp_seq(y0, d0, y1, d1).len(),
        forall|k: int| 0 <= k < r01.len() ==> r01[k] == interp_seq(y0, d0, y1, d1)[k],
        r12.len() == interp_seq(y1, d1, y2, d2).len(),
        forall|k: int| 0 <= k < r12.len() ==> r12[k] == interp_seq(y1, d1, y2, d2)[k],
        r02.len() == interp_seq(y0, d0, y2, d2).len(),
        forall|k: int| 0 <= k < r02.len() ==> r02[k] == interp_seq(y0, d0, y2, d2)[k],
        r01.len() >= 1,
        joined == r01.subrange(0, r01.len() - 1) + r12,
    ensures
        r02.len() == y2 - y0 + 1,
        joined.len() == y2 - y0 + 1,
        forall|i: int|
            0 <= i < r02.len() ==> r02[i] == lerp(y0, d0, y2, d2, i) && lo <= #[trigger] r02[i]
                <= hi,
        forall|i: int|
            0 <= i < joined.len() ==> joined[i] == (if y0 + i < y1 {
                lerp(y0, d0, y1, d1, i)
            } else {
                lerp(y1, d1, y2, d2, y0 + i - y1)
            }) && lo <= #[trigger] joined[i] <= hi,
{
    assert forall|i: int| 0 <= i < r02.len() implies r02[i] == lerp(y0, d0, y2, d2, i) && lo
        <= #[trigger] r02[i] <= hi by {
        lemma_lerp_between(y0, d0, y2, d2, i);
    }
    assert forall|i: int| 0 <= i < joined.len() implies joined[i] == (if y0 + i < y1 {
        lerp(y0, d0, y1, d1, i)
    } else {
        lerp(y1, d1, y2, d2, y0 + i - y1)
    }) && lo <= #[trigger] joined[i] <= hi by {
        if i < r01.len() - 1 {
            lemma_lerp_between(y0, d0, y1, d1, i);
        } else {
            lemma_lerp_between(y1, d1, y2, d2, y0 + i - y1);
        }
    }
}

pub struct Canvas {
    width: i32,
    height: i32,
    pixels: Vec<Color>,
}

impl View for Canvas {
    type V = Seq<Color>;

    /// The pixels, row by row from the top-left corner.
    closed spec fn view(&self) -> Seq<Color> {
        self.pixels@
    }
}

impl Canvas {
    pub closed spec fn spec_width(&self) -> int {
        self.width as int
    }

    pub closed spec fn spec_height(&self) -> int {
        self.height as int
    }

    /// The buffer holds `width * height` pixels, and both sides are at most `CANVAS_LIMIT`.
    pub closed spec fn wf(&self) -> bool {
        &&& 0 <= self.width <= CANVAS_LIMIT
        &&& 0 <= self.height <= CANVAS_LIMIT
        &&& self.pixels@.len() == self.width * self.height
    }

    pub proof fn lemma_wf(&self)
        requires
            self.wf(),
        ensures
            0 <= self.spec_width() <= CANVAS_LIMIT,
            0 <= self.spec_height() <= CANVAS_LIMIT,
            self@.len() == self.spec_width() * self.spec_height(),
    {
    }

    /// A `width` by `height` canvas, all black.
    pub fn new(width: i32, height: i32) -> (c: Canvas)
        requires
            0 <= width <= CANVAS_LIMIT,
            0 <= height <= CANVAS_LIMIT,
        ensures
            c.wf(),
            c.spec_width() == width,
            c.spec_height() == height,
            c@ == Seq::new((width * height) as nat, |i: int| crate::color::black_spec()),
    {
        assert(0 <= width * height <= CANVAS_LIMIT * CANVAS_LIMIT) by (nonlinear_arith)
            requires
                0 <= width <= CANVAS_LIMIT,
                0 <= height <= CANVAS_LIMIT,
        ;
        let n: usize = (width as usize) * (height as usize);
        let mut pixels: Vec<Color> = Vec::new();
        let mut i: usize = 0;
        while i < n
            invariant
                i <= n,
                pixels@ == Seq::new(i as nat, |j: int| crate::color::black_spec()),
            decreases n - i,
        {
            pixels.push(crate::color::black());
            i = i + 1;
            assert(pixels@ =~= Seq::new(i as nat, |j: int| crate::color::black_spec()));
        }
        Canvas { width, height, pixels }
    }

    pub fn width(&self) -> (w: i32)
        ensures
            w == self.spec_width(),
    {
        self.width
    }

    pub fn height(&self) -> (h: i32)
        ensures
            h == self.spec_height(),
    {
        self.height
    }

    /// The pixels, row by row from the top-left corner.
    pub fn pixels(&self) -> (p: &Vec<Color>)
        ensures
            p@ == self@,
    {
        &self.pixels
    }

    /// The pixel in buffer column `bx` and buffer row `by` (row 0 at the top).
    pub fn pixel(&self, bx: i32, by: i32) -> (c: Color)
        requires
            self.wf(),
            0 <= bx < self.spec_width(),
            0 <= by < self.spec_height(),
        ensures
            c == self@[by * self.spec_width() + bx],
    {
        assert(0 <= by * self.width + bx < self.width * self.height <= 0x4000_0000)
            by (nonlinear_arith)
            requires
                0 <= bx < self.width <= CANVAS_LIMIT,
                0 <= by < self.height <= CANVAS_LIMIT,
        ;
        self.pixels[(by as usize) * (self.width as usize) + (bx as usize)]
    }

    /// Fills the whole buffer with `color`.
    pub fn clear(&mut self, color: Color)
        requires
            old(self).wf(),
        ensures
            final(self).wf(),
            final(self).spec_width() == old(self).spec_width(),
            final(self).spec_height() == old(self).spec_height(),
            final(self)@ == Seq::new(old(self)@.len(), |i: int| color),
    {
        let n = self.pixels.len();
        let mut i: usize = 0;
        while i < n
            invariant
                i <= n,
                n == self.pixels@.len(),
                self.wf(),
                self.width == old(self).width,
                self.height == old(self).height,
                forall|j: int| 0 <= j < i ==> self.pixels@[j] == color,
            decreases n - i,
        {
            self.pixels[i] = color;
            i = i + 1;
        }
        assert(self.pixels@ =~= Seq::new(old(self)@.len(), |i: int| color));
    }

    /// Draws a line of `color` from `p0` to `p1`: see `line_covers` for the points written.
    pub fn draw_line(&mut self, p0: Point2, p1: Point2, color: Color)
        requires
            old(self).wf(),
            -SCREEN_LIMIT <= p0.x <= SCREEN_LIMIT,
            -SCREEN_LIMIT <= p0.y <= SCREEN_LIMIT,
            -SCREEN_LIMIT <= p1.x <= SCREEN_LIMIT,
            -SCREEN_LIMIT <= p1.y <= SCREEN_LIMIT,
        ensures
            final(self).wf(),
            final(self).spec_width() == old(self).spec_width(),
            final(self).spec_height() == old(self).spec_height(),
            final(self)@ == line_image(
                old(self)@,
                old(self).spec_width(),
                old(self).spec_height(),
                p0,
                p1,
                color,
            ),
    {
        let ghost w = self.width as int;
        let ghost h = self.height as int;
        let ghost img = self@;
        let ghost cov = |u: int, v: int| line_covers(p0, p1, u, v);
        let ghost shade = |u: int, v: int| color;
        let dx: i64 = p1.x - p0.x;
        let dy: i64 = p1.y - p0.y;
        let adx: i64 = if dx < 0 {
            -dx
        } else {
            dx
        };
        let ady: i64 = if dy < 0 {
            -dy
        } else {
            dy
        };
        if adx > ady {
            let (a, b) = if p0.x > p1.x {
                (p1, p0)
            } else {
                (p0, p1)
            };
            let ys = Self::interpolate(a.x, a.y, b.x, b.y);
            let n_ys = ys.len();
            let mut x: i64 = a.x;
            proof {
                lemma_paint_none(img, w, h, |u: int, v: int| cov(u, v) && u < a.x, shade);
            }
            while x <= b.x
                invariant
                    self.wf(),
                    self.width == w,
                    self.height == h,
                    img.len() == w * h,
                    abs_int(p1.x - p0.x) > abs_int(p1.y - p0.y),
                    a == (if p0.x > p1.x {
                        p1
                    } else {
                        p0
                    }),
                    b == (if p0.x > p1.x {
                        p0
                    } else {
                        p1
                    }),
                    a.x < b.x,
                    -SCREEN_LIMIT <= a.x <= SCREEN_LIMIT,
                    -SCREEN_LIMIT <= a.y <= SCREEN_LIMIT,
                    -SCREEN_LIMIT <= b.x <= SCREEN_LIMIT,
                    -SCREEN_LIMIT <= b.y <= SCREEN_LIMIT,
                    a.x <= x <= b.x + 1,
                    ys@.len() == b.x - a.x + 1,
                    ys@.len() == n_ys,
                    forall|k: int|
                        0 <= k < ys@.len() ==> ys@[k] == lerp(
                            a.x as int,
                            a.y as int,
                            b.x as int,
                            b.y as int,
                            k,
                        ),
                    cov == (|u: int, v: int| line_covers(p0, p1, u, v)),
                    shade == (|u: int, v: int| color),
                    self@ == paint(img, w, h, |u: int, v: int| cov(u, v) && u < x, shade),
                decreases b.x + 1 - x,
            {
                let y = ys[(x - a.x) as usize];
                proof {
                    lemma_lerp_between(
                        a.x as int,
                        a.y as int,
                        b.x as int,
                        b.y as int,
                        (x - a.x) as int,
                    );
                    let before = |u: int, v: int| cov(u, v) && u < x;
                    let after = |u: int, v: int| cov(u, v) && u < x + 1;
                    assert forall|u: int, v: int| #[trigger]
                        after(u, v) == (before(u, v) || (u == x && v == y)) by {
                        if u == x {
                            assert(cov(u, v) == (v == y));
                        }
                    }
                    lemma_paint_step(img, w, h, before, after, shade, x as int, y as int);
                }
                self.put_pixel(Point2 { x, y, h: 0 }, color);
                x = x + 1;
            }
            proof {
                lemma_paint_same(
                    img,
                    w,
                    h,
                    |u: int, v: int| cov(u, v) && u < x,
                    shade,
                    cov,
                    shade,
                );
            }
        } else {
            let (a, b) = if p0.y > p1.y {
                (p1, p0)
            } else {
                (p0, p1)
            };
            let xs = Self::interpolate(a.y, a.x, b.y, b.x);
            let n_xs = xs.len();
            let mut y: i64 = a.y;
            proof {
                lemma_paint_none(img, w, h, |u: int, v: int| cov(u, v) && v < a.y, shade);
            }
            while y <= b.y
                invariant
                    self.wf(),
                    self.width == w,
                    self.height == h,
                    img.len() == w * h,
                    !(abs_int(p1.x - p0.x) > abs_int(p1.y - p0.y)),
                    a == (if p0.y > p1.y {
                        p1
                    } else {
                        p0
                    }),
                    b == (if p0.y > p1.y {
                        p0
                    } else {
                        p1
                    }),
                    a.y <= b.y,
                    -SCREEN_LIMIT <= a.x <= SCREEN_LIMIT,
                    -SCREEN_LIMIT <= a.y <= SCREEN_LIMIT,
                    -SCREEN_LIMIT <= b.x <= SCREEN_LIMIT,
                    -SCREEN_LIMIT <= b.y <= SCREEN_LIMIT,
                    a.y <= y <= b.y + 1,
                    xs@.len() == b.y - a.y + 1,
                    xs@.len() == n_xs,
                    forall|k: int|
                        0 <= k < xs@.len() ==> xs@[k] == lerp(
                            a.y as int,
                            a.x as int,
                            b.y as int,
                            b.x as int,
                            k,
                        ),
                    cov == (|u: int, v: int| line_covers(p0, p1, u, v)),
                    shade == (|u: int, v: int| color),
                    self@ == paint(img, w, h, |u: int, v: int| cov(u, v) && v < y, shade),
                decreases b.y + 1 - y,
            {
                let x = xs[(y - a.y) as usize];
                proof {
                    lemma_lerp_between(
                        a.y as int,
                        a.x as int,
                        b.y as int,
                        b.x as int,
                        (y - a.y) as int,
                    );
                    let before = |u: int, v: int| cov(u, v) && v < y;
                    let after = |u: int, v: int| cov(u, v) && v < y + 1;
                    assert forall|u: int, v: int| #[trigger]
                        after(u, v) == (before(u, v) || (u == x && v == y)) by {
                        if v == y {
                            assert(cov(u, v) == (u == x));
                        }
                    }
                    lemma_paint_step(img, w, h, before, after, shade, x as int, y as int);
                }
                self.put_pixel(Point2 { x, y, h: 0 }, color);
                y = y + 1;
            }
            proof {
                lemma_paint_same(
                    img,
                    w,
                    h,
                    |u: int, v: int| cov(u, v) && v < y,
                    shade,
                    cov,
                    shade,
                );
            }
        }
    }

    /// Draws the outline of the triangle `p0`, `p1`, `p2`: the lines p0-p1, p1-p2, p2-p0.
    pub fn draw_wireframe_triangle(&mut self, p0: Point2, p1: Point2, p2: Point2, color: Color)
        requires
            old(self).wf(),
            -SCREEN_LIMIT <= p0.x <= SCREEN_LIMIT,
            -SCREEN_LIMIT <= p0.y <= SCREEN_LIMIT,
            -SCREEN_LIMIT <= p1.x <= SCREEN_LIMIT,
            -SCREEN_LIMIT <= p1.y <= SCREEN_LIMIT,
            -SCREEN_LIMIT <= p2.x <= SCREEN_LIMIT,
            -SCREEN_LIMIT <= p2.y <= SCREEN_LIMIT,
        ensures
            final(self).wf(),
            final(self).spec_width() == old(self).spec_width(),
            final(self).spec_height() == old(self).spec_height(),
            final(self)@ == wireframe_image(
                old(self)@,
                old(self).spec_width(),
                old(self).spec_height(),
                p0,
                p1,
                p2,
                color,
            ),
    {
        self.draw_line(p0, p1, color);
        self.draw_line(p1, p2, color);
        self.draw_line(p2, p0, color);
    }

    /// Fills the triangle `p0`, `p1`, `p2` with `color`: the corners sorted by y, each row
    /// from the lowest to the highest corner filled between the x of the edge p0-p2 and the
    /// x of the path p0-p1-p2, both interpolated; see `filled_covers`.
    pub fn draw_filled_triangle(&mut self, p0: Point2, p1: Point2, p2: Point2, color: Color)
        requires
            old(self).wf(),
            -SCREEN_LIMIT <= p0.x <= SCREEN_LIMIT,
            -SCREEN_LIMIT <= p0.y <= SCREEN_LIMIT,
            -SCREEN_LIMIT <= p1.x <= SCREEN_LIMIT,
            -SCREEN_LIMIT <= p1.y <= SCREEN_LIMIT,
            -SCREEN_LIMIT <= p2.x <= SCREEN_LIMIT,
            -SCREEN_LIMIT <= p2.y <= SCREEN_LIMIT,
        ensures
            final(self).wf(),
            final(self).spec_width() == old(self).spec_width(),
            final(self).spec_height() == old(self).spec_height(),
            final(self)@ == filled_image(
                old(self)@,
                old(self).spec_width(),
                old(self).spec_height(),
                p0,
                p1,
                p2,
                color,
            ),
    {
        let q0 = Point2 { x: p0.x, y: p0.y, h: 0 };
        let q1 = Point2 { x: p1.x, y: p1.y, h: 0 };
        let q2 = Point2 { x: p2.x, y: p2.y, h: 0 };
        let ghost img = self@;
        self.fill(q0, q1, q2, color, false);
        proof {
            lemma_paint_same(
                img,
                self.width as int,
                self.height as int,
                |x: int, y: int| filled_covers(q0, q1, q2, x, y),
                |x: int, y: int| fill_shade(q0, q1, q2, color, false, x, y),
                |x: int, y: int| filled_covers(p0, p1, p2, x, y),
                |x: int, y: int| color,
            );
        }
    }

    /// Fills the triangle `p0`, `p1`, `p2` as `draw_filled_triangle` does, each pixel
    /// written with `color` shaded by an intensity: interpolated from the corners' `h` along
    /// the two sides, then across the row; see `span_shade`.
    pub fn draw_gradient_triangle(&mut self, p0: Point2, p1: Point2, p2: Point2, color: Color)
        requires
            old(self).wf(),
            p0.in_range(),
            p1.in_range(),
            p2.in_range(),
        ensures
            final(self).wf(),
            final(self).spec_width() == old(self).spec_width(),
            final(self).spec_height() == old(self).spec_height(),
            final(self)@ == gradient_image(
                old(self)@,
                old(self).spec_width(),
                old(self).spec_height(),
                p0,
                p1,
                p2,
                color,
            ),
    {
        self.fill(p0, p1, p2, color, true);
    }

    /// Fills the triangle `p0`, `p1`, `p2` row by row, each pixel written with `color`, or
    /// with `color` shaded by the interpolated intensity when `shaded`.
    #[verifier::rlimit(40)]
    fn fill(&mut self, p0: Point2, p1: Point2, p2: Point2, color: Color, shaded: bool)
        requires
            old(self).wf(),
            p0.in_range(),
            p1.in_range(),
            p2.in_range(),
        ensures
            final(self).wf(),
            final(self).spec_width() == old(self).spec_width(),
            final(self).spec_height() == old(self).spec_height(),
            final(self)@ == paint(
                old(self)@,
                old(self).spec_width(),
                old(self).spec_height(),
                |x: int, y: int| filled_covers(p0, p1, p2, x, y),
                |x: int, y: int| fill_shade(p0, p1, p2, color, shaded, x, y),
            ),
    {
        let ghost w = self.width as int;
        let ghost h = self.height as int;
        let ghost img = self@;
        let mut s0 = p0;
        let mut s1 = p1;
        let mut s2 = p2;
        if s1.y < s0.y {
            let t = s0;
            s0 = s1;
            s1 = t;
        }
        if s2.y < s0.y {
            let t = s0;
            s0 = s2;
            s2 = t;
        }
        if s2.y < s1.y {
            let t = s1;
            s1 = s2;
            s2 = t;
        }
        assert(sort_by_y(p0, p1, p2) == (s0, s1, s2));
        let x01 = Self::interpolate(s0.y, s0.x, s1.y, s1.x);
        let x12 = Self::interpolate(s1.y, s1.x, s2.y, s2.x);
        let x02 = Self::interpolate(s0.y, s0.x, s2.y, s2.x);
        let h01 = Self::interpolate(s0.y, s0.h, s1.y, s1.h);
        let h12 = Self::interpolate(s1.y, s1.h, s2.y, s2.h);
        let h02 = Self::interpolate(s0.y, s0.h, s2.y, s2.h);
        let x012 = join_runs(&x01, &x12);
        let h012 = join_runs(&h01, &h12);
        proof {
            lemma_rows(
                s0.y as int,
                s1.y as int,
                s2.y as int,
                s0.x as int,
                s1.x as int,
                s2.x as int,
                -SCREEN_LIMIT as int,
                SCREEN_LIMIT as int,
                x01@,
                x12@,
                x02@,
                x012@,
            );
            lemma_rows(
                s0.y as int,
                s1.y as int,
                s2.y as int,
                s0.h as int,
                s1.h as int,
                s2.h as int,
                0,
                INTENSITY_ONE as int,
                h01@,
                h12@,
                h02@,
                h012@,
            );
        }
        let n_rows = x02.len();
        let m = n_rows / 2;
        let long_left = x02[m] < x012[m];
        assert(long_left == long_is_left(s0, s1, s2));
        let (xl, xr, hl, hr) = if long_left {
            (x02, x012, h02, h012)
        } else {
            (x012, x02, h012, h02)
        };
        let ghost cov = |u: int, v: int| span_covers(s0, s1, s2, u, v);
        let ghost sh = |u: int, v: int|
            if shaded {
                span_shade(s0, s1, s2, color, u, v)
            } else {
                color
            };
        proof {
            lemma_paint_none(img, w, h, |u: int, v: int| cov(u, v) && v < s0.y, sh);
        }
        let mut y: i64 = s0.y;
        while y <= s2.y
            invariant
                self.wf(),
                self.width == w,
                self.height == h,
                img.len() == w * h,
                s0.y <= s1.y <= s2.y,
                s0.in_range(),
                s1.in_range(),
                s2.in_range(),
                s0.y <= y <= s2.y + 1,
                n_rows == s2.y - s0.y + 1,
                xl@.len() == n_rows,
                xr@.len() == n_rows,
                hl@.len() == n_rows,
                hr@.len() == n_rows,
                forall|i: int|
                    0 <= i < n_rows ==> #[trigger] xl@[i] == span_left(s0, s1, s2, s0.y + i) && -SCREEN_LIMIT
                        <= xl@[i] <= SCREEN_LIMIT,
                forall|i: int|
                    0 <= i < n_rows ==> #[trigger] xr@[i] == span_right(s0, s1, s2, s0.y + i) && -SCREEN_LIMIT
                        <= xr@[i] <= SCREEN_LIMIT,
                forall|i: int|
                    0 <= i < n_rows ==> #[trigger] hl@[i] == span_left_h(s0, s1, s2, s0.y + i) && 0
                        <= hl@[i] <= INTENSITY_ONE,
                forall|i: int|
                    0 <= i < n_rows ==> #[trigger] hr@[i] == span_right_h(s0, s1, s2, s0.y + i) && 0
                        <= hr@[i] <= INTENSITY_ONE,
                cov == (|u: int, v: int| span_covers(s0, s1, s2, u, v)),
                sh == (|u: int, v: int|
                    if shaded {
                        span_shade(s0, s1, s2, color, u, v)
                    } else {
                        color
                    }),
                self@ == paint(img, w, h, |u: int, v: int| cov(u, v) && v < y, sh),
            decreases s2.y + 1 - y,
        {
            let idx = (y - s0.y) as usize;
            let x_l = xl[idx];
            let x_r = xr[idx];
            let h_l = hl[idx];
            let h_r = hr[idx];
            let hs = if shaded {
                Self::interpolate(x_l, h_l, x_r, h_r)
            } else {
                Vec::new()
            };
            let n_hs = hs.len();
            proof {
                lemma_paint_same(
                    img,
                    w,
                    h,
                    |u: int, v: int| cov(u, v) && v < y,
                    sh,
                    |u: int, v: int| cov(u, v) && (v < y || (v == y && u < x_l)),
                    sh,
                );
            }
            let mut x: i64 = x_l;
            while x <= x_r
                invariant
                    self.wf(),
                    self.width == w,
                    self.height == h,
                    img.len() == w * h,
                    s0.y <= y <= s2.y,
                    -SCREEN_LIMIT <= y <= SCREEN_LIMIT,
                    x_l == span_left(s0, s1, s2, y as int),
                    x_r == span_right(s0, s1, s2, y as int),
                    h_l == span_left_h(s0, s1, s2, y as int),
                    h_r == span_right_h(s0, s1, s2, y as int),
                    -SCREEN_LIMIT <= x_l <= SCREEN_LIMIT,
                    -SCREEN_LIMIT <= x_r <= SCREEN_LIMIT,
                    x_l <= x,
                    x <= x_r + 1 || x == x_l,
                    hs@.len() == n_hs,
                    shaded && x_l <= x_r ==> hs@.len() == x_r - x_l + 1,
                    shaded && x_l <= x_r ==> forall|k: int|
                        0 <= k < hs@.len() ==> hs@[k] == lerp(
                            x_l as int,
                            h_l as int,
                            x_r as int,
                            h_r as int,
                            k,
                        ),
                    cov == (|u: int, v: int| span_covers(s0, s1, s2, u, v)),
                    sh == (|u: int, v: int|
                        if shaded {
                            span_shade(s0, s1, s2, color, u, v)
                        } else {
                            color
                        }),
                    self@ == paint(
                        img,
                        w,
                        h,
                        |u: int, v: int| cov(u, v) && (v < y || (v == y && u < x)),
                        sh,
                    ),
                decreases x_r + 1 - x,
            {
                let c = if shaded {
                    color.shade(hs[(x - x_l) as usize])
                } else {
                    color
                };
                proof {
                    assert(c == sh(x as int, y as int));
                    let before = |u: int, v: int| cov(u, v) && (v < y || (v == y && u < x));
                    let after = |u: int, v: int| cov(u, v) && (v < y || (v == y && u < x + 1));
                    assert forall|u: int, v: int| #[trigger]
                        after(u, v) == (before(u, v) || (u == x && v == y)) by {
                        if u == x && v == y {
                            assert(cov(u, v));
                        }
                    }
                    lemma_paint_step(img, w, h, before, after, sh, x as int, y as int);
                }
                self.put_pixel(Point2 { x, y, h: 0 }, c);
                x = x + 1;
            }
            proof {
                lemma_paint_same(
                    img,
                    w,
                    h,
                    |u: int, v: int| cov(u, v) && (v < y || (v == y && u < x)),
                    sh,
                    |u: int, v: int| cov(u, v) && v < y + 1,
                    sh,
                );
            }
            y = y + 1;
        }
        proof {
            lemma_paint_same(
                img,
                w,
                h,
                |u: int, v: int| cov(u, v) && v < y,
                sh,
                |x: int, y: int| filled_covers(p0, p1, p2, x, y),
                |x: int, y: int| fill_shade(p0, p1, p2, color, shaded, x, y),
            );
        }
    }

    /// Writes `color` at the screen point `p` (origin at the center, +y up), which lands
    /// in buffer column `width / 2 + p.x` and row `height / 2 - p.y`. A point off the
    /// buffer writes nothing.
    pub fn put_pixel(&mut self, p: Point2, color: Color)
        requires
            old(self).wf(),
            -SCREEN_LIMIT <= p.x <= SCREEN_LIMIT,
            -SCREEN_LIMIT <= p.y <= SCREEN_LIMIT,
        ensures
            final(self).wf(),
            final(self).spec_width() == old(self).spec_width(),
            final(self).spec_height() == old(self).spec_height(),
            final(self)@ == put_pixel_image(
                old(self)@,
                old(self).spec_width(),
                old(self).spec_height(),
                p.x as int,
                p.y as int,
                color,
            ),
    {
        let bx: i64 = (self.width / 2) as i64 + p.x;
        let by: i64 = (self.height / 2) as i64 - p.y;
        if 0 <= bx && bx < self.width as i64 && 0 <= by && by < self.height as i64 {
            proof {
                lemma_index_of_screen(self.width as int, self.height as int, p.x as int, p.y as int);
                assert(0 <= by * self.width + bx < 0x4000_0000) by (nonlinear_arith)
                    requires
                        0 <= bx < self.width <= CANVAS_LIMIT,
                        0 <= by < self.height <= CANVAS_LIMIT,
                ;
            }
            let idx: usize = (by as usize) * (self.width as usize) + (bx as usize);
            self.pixels[idx] = color;
        }
    }
    /// The values of a linear run, one per integer step from `i0` to `i1` inclusive, each
    /// `d0` plus the step count times the slope `(d1 - d0) / (i1 - i0)`, rounded down.
    /// When `i0 == i1` the single value `d0`; when `i0 > i1` no value.
    pub fn interpolate(i0: i64, d0: i64, i1: i64, d1: i64) -> (r: Vec<i64>)
        requires
            -SCREEN_LIMIT <= i0 <= SCREEN_LIMIT,
            -SCREEN_LIMIT <= i1 <= SCREEN_LIMIT,
            -SCREEN_LIMIT <= d0 <= SCREEN_LIMIT,
            -SCREEN_LIMIT <= d1 <= SCREEN_LIMIT,
        ensures
            i0 == i1 ==> r@ == seq![d0],
            r@.len() == interp_seq(i0 as int, d0 as int, i1 as int, d1 as int).len(),
            forall|k: int|
                0 <= k < r@.len() ==> r@[k] == interp_seq(
                    i0 as int,
                    d0 as int,
                    i1 as int,
                    d1 as int,
                )[k],
    {
        let mut values: Vec<i64> = Vec::new();
        if i0 == i1 {
            values.push(d0);
            assert(values@ =~= seq![d0]);
            return values;
        }
        if i0 > i1 {
            return values;
        }
        let n: i128 = i1 as i128 - i0 as i128;
        let m: i128 = d1 as i128 - d0 as i128;
        let mut k: i128 = 0;
        while k <= n
            invariant
                0 < n <= 2 * SCREEN_LIMIT,
                n == i1 - i0,
                m == d1 - d0,
                -SCREEN_LIMIT <= d0 <= SCREEN_LIMIT,
                -SCREEN_LIMIT <= d1 <= SCREEN_LIMIT,
                0 <= k <= n + 1,
                values@.len() == k,
                forall|j: int|
                    0 <= j < k ==> values@[j] == lerp(i0 as int, d0 as int, i1 as int, d1 as int, j),
            decreases n + 1 - k,
        {
            assert(-0x1_0000_0000_0000_0000_0000_0000 <= k * m <= 0x1_0000_0000_0000_0000_0000_0000)
                by (nonlinear_arith)
                requires
                    0 <= k <= 0x1_0000_0000_0000,
                    -0x1_0000_0000_0000 <= m <= 0x1_0000_0000_0000,
            ;
            let q = floor_div(k * m, n);
            proof {
                lemma_lerp_between(i0 as int, d0 as int, i1 as int, d1 as int, k as int);
            }
            values.push((d0 as i128 + q) as i64);
            k = k + 1;
        }
        values
    }
}

} // verus!
