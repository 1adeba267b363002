//! The pixel buffer: its geometry, the bounds-checked write and what it means
//! to paint a region of the screen.
//!
//! The buffer holds the screen row after row, from the top-left pixel. A
//! pixel is one `u32`, packed as `0xAARRGGBB`. The buffer belongs to the
//! caller; the functions here write into it and never past its end.

use vstd::prelude::*;
use vstd::arithmetic::div_mod::{
    lemma_fundamental_div_mod, lemma_fundamental_div_mod_converse_div,
    lemma_fundamental_div_mod_converse_mod, lemma_mod_bound,
};
use crate::arith::lemma_floor_div;
use crate::shape::{
    covers, crossing_ceil_value, crossing_floor_value, edge, edge_value, lemma_covered_in_box,
    lemma_covers_first_two_swapped, lemma_covers_last_two_swapped, lemma_flat_has_no_area,
    lemma_row_span, lemma_segment_ends, lemma_segment_unique, major_steps, on_segment, pt,
    row_first, row_last, rows_ascend,
};

verus! {

/// Number of pixel columns of the screen that `put_pixel` and the row-wise
/// `fill_triangle` write to.
pub const WIDTH: usize = 640;

/// Number of pixel rows of that screen.
pub const HEIGHT: usize = 480;

/// Whether `(x, y)` names a pixel of a screen of `width` by `height` pixels.
pub open spec fn on_screen(width: int, height: int, x: int, y: int) -> bool {
    0 <= x < width && 0 <= y < height
}

/// Position of pixel `(x, y)` in a row-major buffer with rows of `width`
/// pixels.
pub open spec fn pixel_index(width: int, x: int, y: int) -> int {
    y * width + x
}

/// The buffer after one bounds-checked write: pixel `(x, y)` takes `color`
/// when it is on the screen and inside the buffer, and nothing changes
/// otherwise.
pub open spec fn with_pixel(
    frame: Seq<u32>,
    width: int,
    height: int,
    x: int,
    y: int,
    color: u32,
) -> Seq<u32> {
    if on_screen(width, height, x, y) && pixel_index(width, x, y) < frame.len() {
        frame.update(pixel_index(width, x, y), color)
    } else {
        frame
    }
}

/// The buffer after painting a region: every screen pixel inside `region`
/// that the buffer holds takes `color`; every other element is kept.
pub open spec fn painted(
    frame: Seq<u32>,
    width: int,
    height: int,
    region: spec_fn(int, int) -> bool,
    color: u32,
) -> Seq<
    u32,
> {
    Seq::new(
        frame.len(),
        |i: int|
            if i < width * height && region(i % width, i / width) {
                color
            } else {
                frame[i]
            },
    )
}

/// A position below `width * height` is that of a pixel of the screen.
pub proof fn lemma_index_is_pixel(width: int, height: int, k: int)
    requires
        width > 0,
        0 <= k < width * height,
    ensures
        on_screen(width, height, k % width, k / width),
        pixel_index(width, k % width, k / width) == k,
{
    lemma_fundamental_div_mod(k, width);
    lemma_mod_bound(k, width);
    lemma_floor_div(k, width, height);
    lemma_floor_div(k, width, 0);
    assert(height * width == width * height && 0 * width == 0 && width * (k / width) == (k
        / width) * width) by (nonlinear_arith);
}

/// The position of a screen pixel lies below `width * height`.
pub proof fn lemma_pixel_outside(width: int, height: int, x: int, y: int, k: int)
    requires
        width > 0,
        k >= width * height,
    ensures
        !(on_screen(width, height, x, y) && k == pixel_index(width, x, y)),
{
    if on_screen(width, height, x, y) {
        assert(y * width + x < width * height) by (nonlinear_arith)
            requires
                0 <= x < width,
                0 <= y < height,
        ;
    }
}

/// A position is that of the pixel `(x, y)` exactly when its remainder by
/// the row length is `x` and its quotient is `y`.
pub proof fn lemma_pixel_is_index(width: int, x: int, y: int, k: int)
    requires
        width > 0,
        0 <= x < width,
    ensures
        k == pixel_index(width, x, y) <==> (k % width == x && k / width == y),
{
    lemma_fundamental_div_mod(k, width);
    assert(width * (k / width) == (k / width) * width) by (nonlinear_arith);
    if k == y * width + x {
        lemma_fundamental_div_mod_converse_div(k, width, y, x);
        lemma_fundamental_div_mod_converse_mod(k, width, y, x);
    }
}

/// The buffer after filling the triangle `a`, `b`, `c`.
pub open spec fn triangle_painted(
    frame: Seq<u32>, width: int, height: int,
    a: (int, int),
    b: (int, int),
    c: (int, int),
    color: u32,
) -> Seq<u32> {
    painted(frame, width, height, |x: int, y: int| covers(a, b, c, (x, y)), color)
}

/// A triangle without area paints nothing.
pub proof fn lemma_flat_triangle_paints_nothing(
    frame: Seq<u32>, width: int, height: int,
    a: (int, int),
    b: (int, int),
    c: (int, int),
    color: u32,
)
    requires
        width > 0,
        edge(a, b, c) == 0,
    ensures
        triangle_painted(frame, width, height, a, b, c, color) == frame,
{
    assert(triangle_painted(frame, width, height, a, b, c, color) =~= frame);
}

/// What a triangle paints does not depend on the order of its vertices.
pub proof fn lemma_vertex_order_is_free(
    frame: Seq<u32>, width: int, height: int,
    a: (int, int),
    b: (int, int),
    c: (int, int),
    color: u32,
)
    requires
        width > 0,
    ensures
        triangle_painted(frame, width, height, b, a, c, color) == triangle_painted(frame, width, height, a, b, c, color),
        triangle_painted(frame, width, height, a, c, b, color) == triangle_painted(frame, width, height, a, b, c, color),
{
    let w = width;
    assert forall|k: int| 0 <= k < frame.len() implies triangle_painted(frame, width, height, b, a, c, color)[k]
        == triangle_painted(frame, width, height, a, b, c, color)[k] && triangle_painted(frame, width, height, a, c, b, color)[k]
        == triangle_painted(frame, width, height, a, b, c, color)[k] by {
        lemma_covers_first_two_swapped(a, b, c, (k % w, k / w));
        lemma_covers_last_two_swapped(a, b, c, (k % w, k / w));
    }
    assert(triangle_painted(frame, width, height, b, a, c, color) =~= triangle_painted(frame, width, height, a, b, c, color));
    assert(triangle_painted(frame, width, height, a, c, b, color) =~= triangle_painted(frame, width, height, a, b, c, color));
}

/// The buffer after drawing the segment from `a` to `b`.
pub open spec fn segment_painted(
    frame: Seq<u32>,
    width: int,
    height: int,
    a: (int, int),
    b: (int, int),
    color: u32,
) -> Seq<
    u32,
> {
    painted(frame, width, height, |x: int, y: int| on_segment(a, b, (x, y)), color)
}

/// The buffer while a segment is being drawn: its pixels that come before
/// `cur` along the longer axis hold `color`.
pub open spec fn traced(
    frame: Seq<u32>, width: int, height: int,
    a: (int, int),
    b: (int, int),
    color: u32,
    cur: (int, int),
) -> Seq<u32> {
    painted(
        frame, width, height,
        |x: int, y: int|
            on_segment(a, b, (x, y)) && major_steps(a, b, (x, y)) < major_steps(a, b, cur),
        color,
    )
}

/// At its first pixel a trace has changed nothing.
pub proof fn lemma_trace_start(
    frame: Seq<u32>,
    width: int,
    height: int,
    a: (int, int),
    b: (int, int),
    color: u32,
)
    requires
        width > 0,
    ensures
        traced(frame, width, height, a, b, color, a) == frame,
{
    assert(traced(frame, width, height, a, b, color, a) =~= frame);
}

/// Writing the current pixel moves the trace one step along the longer axis.
pub proof fn lemma_trace_step(
    frame: Seq<u32>, width: int, height: int,
    a: (int, int),
    b: (int, int),
    color: u32,
    cur: (int, int),
    next: (int, int),
)
    requires
        width > 0,
        on_segment(a, b, cur),
        major_steps(a, b, next) == major_steps(a, b, cur) + 1,
    ensures
        traced(frame, width, height, a, b, color, next) == with_pixel(
            traced(frame, width, height, a, b, color, cur), width, height,
            cur.0,
            cur.1,
            color,
        ),
{
    let w = width;
    let s0 = traced(frame, width, height, a, b, color, cur);
    let s1 = traced(frame, width, height, a, b, color, next);
    let s2 = with_pixel(s0, width, height, cur.0, cur.1, color);
    assert forall|k: int| 0 <= k < s1.len() implies s1[k] == s2[k] by {
        if k < width * height {
            let p = (k % w, k / w);
            lemma_index_is_pixel(width, height, k);
            if on_screen(width, height, cur.0, cur.1) {
                lemma_pixel_is_index(width, cur.0, cur.1, k);
            }
            if on_segment(a, b, p) && major_steps(a, b, p) == major_steps(a, b, cur) {
                lemma_segment_unique(a, b, p, cur);
            }
        } else {
            lemma_pixel_outside(width, height, cur.0, cur.1, k);
        }
    }
    assert(s1 =~= s2);
}

/// Writing the last pixel completes the segment.
pub proof fn lemma_trace_end(
    frame: Seq<u32>,
    width: int,
    height: int,
    a: (int, int),
    b: (int, int),
    color: u32,
)
    requires
        width > 0,
    ensures
        with_pixel(
            traced(frame, width, height, a, b, color, b),
            width,
            height,
            b.0,
            b.1,
            color,
        ) == segment_painted(
            frame, width, height,
            a,
            b,
            color,
        ),
{
    let w = width;
    let s0 = traced(frame, width, height, a, b, color, b);
    let s1 = segment_painted(frame, width, height, a, b, color);
    let s2 = with_pixel(s0, width, height, b.0, b.1, color);
    lemma_segment_ends(a, b);
    assert forall|k: int| 0 <= k < s1.len() implies s1[k] == s2[k] by {
        if k < width * height {
            let p = (k % w, k / w);
            lemma_index_is_pixel(width, height, k);
            if on_screen(width, height, b.0, b.1) {
                lemma_pixel_is_index(width, b.0, b.1, k);
            }
            if on_segment(a, b, p) && major_steps(a, b, p) == major_steps(a, b, b) {
                lemma_segment_unique(a, b, p, b);
            }
        } else {
            lemma_pixel_outside(width, height, b.0, b.1, k);
        }
    }
    assert(s1 =~= s2);
}

/// The buffer while a triangle is being filled row by row: of the covered
/// pixels, those in rows above `y`, and those of row `y` left of `x`, hold
/// `color`.
pub open spec fn swept(
    frame: Seq<u32>, width: int, height: int,
    a: (int, int),
    b: (int, int),
    c: (int, int),
    color: u32,
    y: int,
    x: int,
) -> Seq<u32> {
    painted(
        frame, width, height,
        |px: int, py: int| covers(a, b, c, (px, py)) && (py < y || (py == y && px < x)),
        color,
    )
}

/// Visiting one screen pixel moves the sweep forward by that pixel.
pub proof fn lemma_sweep_pixel(
    frame: Seq<u32>, width: int, height: int,
    a: (int, int),
    b: (int, int),
    c: (int, int),
    color: u32,
    y: int,
    x: int,
)
    requires
        width > 0,
        on_screen(width, height, x, y),
    ensures
        swept(frame, width, height, a, b, c, color, y, x + 1) == if covers(a, b, c, (x, y)) {
            with_pixel(
                swept(frame, width, height, a, b, c, color, y, x),
                width,
                height,
                x,
                y,
                color,
            )
        } else {
            swept(frame, width, height, a, b, c, color, y, x)
        },
{
    let s0 = swept(frame, width, height, a, b, c, color, y, x);
    let s1 = swept(frame, width, height, a, b, c, color, y, x + 1);
    let w = width;
    if covers(a, b, c, (x, y)) {
        let s2 = with_pixel(s0, width, height, x, y, color);
        assert forall|k: int| 0 <= k < s1.len() implies s1[k] == s2[k] by {
            if k < width * height {
                lemma_pixel_is_index(width, x, y, k);
            } else {
                lemma_pixel_outside(width, height, x, y, k);
            }
        }
        assert(s1 =~= s2);
    } else {
        assert forall|k: int| 0 <= k < s1.len() implies s1[k] == s0[k] by {
            if k < width * height {
                lemma_pixel_is_index(width, x, y, k);
            }
        }
        assert(s1 =~= s0);
    }
}

/// Two sweep positions with the same covered screen pixels behind them give
/// the same buffer.
pub proof fn lemma_sweep_same(
    frame: Seq<u32>, width: int, height: int,
    a: (int, int),
    b: (int, int),
    c: (int, int),
    color: u32,
    y0: int,
    x0: int,
    y1: int,
    x1: int,
)
    requires
        width > 0,
        forall|px: int, py: int|
            on_screen(width, height, px, py) && #[trigger] covers(a, b, c, (px, py)) ==> ((py < y0 || (py == y0
                && px < x0)) <==> (py < y1 || (py == y1 && px < x1))),
    ensures
        swept(
            frame,
            width,
            height,
            a,
            b,
            c,
            color,
            y0,
            x0,
        ) == swept(frame, width, height, a, b, c, color, y1, x1),
{
    let s0 = swept(frame, width, height, a, b, c, color, y0, x0);
    let s1 = swept(frame, width, height, a, b, c, color, y1, x1);
    let w = width;
    assert forall|k: int| 0 <= k < s0.len() implies s0[k] == s1[k] by {
        if k < width * height {
            lemma_index_is_pixel(width, height, k);
        }
    }
    assert(s0 =~= s1);
}

/// Before its first pixel a sweep has changed nothing.
pub proof fn lemma_sweep_start(
    frame: Seq<u32>, width: int, height: int,
    a: (int, int),
    b: (int, int),
    c: (int, int),
    color: u32,
)
    requires
        width > 0,
    ensures
        swept(frame, width, height, a, b, c, color, 0, 0) == frame,
{
    let w = width;
    let s0 = swept(frame, width, height, a, b, c, color, 0, 0);
    assert forall|k: int| 0 <= k < s0.len() implies s0[k] == frame[k] by {
        if k < width * height {
            lemma_index_is_pixel(width, height, k);
        }
    }
    assert(s0 =~= frame);
}

/// Past the last row a sweep has filled the triangle.
pub proof fn lemma_sweep_done(
    frame: Seq<u32>, width: int, height: int,
    a: (int, int),
    b: (int, int),
    c: (int, int),
    color: u32,
)
    requires
        width > 0,
    ensures
        swept(
            frame,
            width,
            height,
            a,
            b,
            c,
            color,
            height,
            0,
        ) == triangle_painted(frame, width, height, a, b, c, color),
{
    let w = width;
    let s0 = swept(frame, width, height, a, b, c, color, height, 0);
    let s1 = triangle_painted(frame, width, height, a, b, c, color);
    assert forall|k: int| 0 <= k < s0.len() implies s0[k] == s1[k] by {
        if k < width * height {
            lemma_index_is_pixel(width, height, k);
        }
    }
    assert(s0 =~= s1);
}

/// Writes `color` at pixel `(x, y)` of a screen of `width` by `height`
/// pixels. A coordinate off the screen, or one whose position lies past the
/// end of `buf`, is skipped.
pub fn plot(buf: &mut [u32], width: usize, height: usize, x: i32, y: i32, color: u32)
    ensures
        final(buf)@ == with_pixel(
            old(buf)@,
            width as int,
            height as int,
            x as int,
            y as int,
            color,
        ),
{
    if x < 0 || y < 0 {
        return ;
    }
    let xu: usize = x as usize;
    let yu: usize = y as usize;
    if xu >= width || yu >= height {
        return ;
    }
    assert(0 <= yu * width <= 0x8000_0000 * 0x1_0000_0000_0000_0000) by (nonlinear_arith)
        requires
            0 <= yu < 0x8000_0000,
            0 <= width < 0x1_0000_0000_0000_0000,
    ;
    let idx: u128 = (yu as u128) * (width as u128) + (xu as u128);
    if idx < buf.len() as u128 {
        buf[idx as usize] = color;
    }
}

/// Writes `color` at pixel `(x, y)` of the screen of `WIDTH` by `HEIGHT`
/// pixels. A coordinate off the screen, or one whose position lies past the
/// end of `buf`, is skipped.
pub fn put_pixel(buf: &mut [u32], x: i32, y: i32, color: u32)
    ensures
        final(buf)@ == with_pixel(
            old(buf)@,
            WIDTH as int,
            HEIGHT as int,
            x as int,
            y as int,
            color,
        ),
{
    plot(buf, WIDTH, HEIGHT, x, y, color);
}

/// Orders three points by row; points on one row keep their order.
fn sort_by_row(pts: [(i32, i32); 3]) -> (r: ((i32, i32), (i32, i32), (i32, i32)))
    ensures
        rows_ascend(pt(r.0), pt(r.1), pt(r.2)),
        forall|p: (int, int)| #[trigger]
            covers(pt(r.0), pt(r.1), pt(r.2), p) == covers(pt(pts[0]), pt(pts[1]), pt(pts[2]), p),
{
    let a: (i32, i32) = pts[0];
    let b: (i32, i32) = pts[1];
    let c: (i32, i32) = pts[2];
    if b.1 < a.1 {
        if c.1 < b.1 {
            assert forall|p: (int, int)| #[trigger]
                covers(pt(c), pt(b), pt(a), p) == covers(pt(a), pt(b), pt(c), p) by {
                lemma_covers_first_two_swapped(pt(b), pt(c), pt(a), p);
                lemma_covers_last_two_swapped(pt(b), pt(a), pt(c), p);
                lemma_covers_first_two_swapped(pt(a), pt(b), pt(c), p);
            }
            (c, b, a)
        } else if c.1 < a.1 {
            assert forall|p: (int, int)| #[trigger]
                covers(pt(b), pt(c), pt(a), p) == covers(pt(a), pt(b), pt(c), p) by {
                lemma_covers_last_two_swapped(pt(b), pt(a), pt(c), p);
                lemma_covers_first_two_swapped(pt(a), pt(b), pt(c), p);
            }
            (b, c, a)
        } else {
            assert forall|p: (int, int)| #[trigger]
                covers(pt(b), pt(a), pt(c), p) == covers(pt(a), pt(b), pt(c), p) by {
                lemma_covers_first_two_swapped(pt(a), pt(b), pt(c), p);
            }
            (b, a, c)
        }
    } else if c.1 < b.1 {
        if c.1 < a.1 {
            assert forall|p: (int, int)| #[trigger]
                covers(pt(c), pt(a), pt(b), p) == covers(pt(a), pt(b), pt(c), p) by {
                lemma_covers_first_two_swapped(pt(a), pt(c), pt(b), p);
                lemma_covers_last_two_swapped(pt(a), pt(b), pt(c), p);
            }
            (c, a, b)
        } else {
            assert forall|p: (int, int)| #[trigger]
                covers(pt(a), pt(c), pt(b), p) == covers(pt(a), pt(b), pt(c), p) by {
                lemma_covers_last_two_swapped(pt(a), pt(b), pt(c), p);
            }
            (a, c, b)
        }
    } else {
        (a, b, c)
    }
}

/// Fills the triangle `pts` with `color` on the screen of `WIDTH` by `HEIGHT`
/// pixels, one row after the other: the
/// vertices are ordered by row, and on each row between the first and the last
/// vertex every column from the left boundary, rounded up, to the right
/// boundary, rounded down, is written. One boundary is the edge that joins
/// the first and the last vertex; the other is the edge from the first to the
/// middle vertex down to the middle vertex's row, and the edge from the
/// middle to the last vertex below it.
///
/// What is written is the set of screen pixels that the triangle covers; a
/// triangle of zero area writes nothing.
pub fn fill_triangle(buf: &mut [u32], pts: [(i32, i32); 3], color: u32)
    ensures
        final(buf)@ == triangle_painted(
            old(buf)@,
            WIDTH as int,
            HEIGHT as int,
            pt(pts[0]),
            pt(pts[1]),
            pt(pts[2]),
            color,
        ),
{
    let ghost frame = buf@;
    let ghost ga = pt(pts[0]);
    let ghost gb = pt(pts[1]);
    let ghost gc = pt(pts[2]);
    let (top, mid, low) = sort_by_row(pts);
    let ghost s0 = pt(top);
    let ghost s1 = pt(mid);
    let ghost s2 = pt(low);
    let d: i128 = edge_value(top, mid, low);
    if d == 0 {
        proof {
            assert forall|px: int, py: int| !#[trigger] covers(ga, gb, gc, (px, py)) by {
                assert(covers(s0, s1, s2, (px, py)) == covers(ga, gb, gc, (px, py)));
            }
            assert(buf@ =~= triangle_painted(frame, WIDTH as int, HEIGHT as int, ga, gb, gc, color));
        }
        return ;
    }
    proof {
        if top.1 == low.1 {
            lemma_flat_has_no_area(s0, s1, s2);
        }
    }
    let y_first: i32 = if top.1 < 0 {
        0
    } else {
        top.1
    };
    let y_last: i32 = if low.1 > (HEIGHT - 1) as i32 {
        (HEIGHT - 1) as i32
    } else {
        low.1
    };
    assert forall|px: int, py: int|
        on_screen(WIDTH as int, HEIGHT as int, px, py) && #[trigger] covers(ga, gb, gc, (px, py)) implies y_first <= py
        <= y_last by {
        assert(covers(s0, s1, s2, (px, py)) == covers(ga, gb, gc, (px, py)));
        lemma_covered_in_box(s0, s1, s2, (px, py));
    }
    proof {
        lemma_sweep_same(
            frame,
            WIDTH as int,
            HEIGHT as int,
            ga,
            gb,
            gc,
            color,
            y_first as int,
            0,
            0,
            0,
        );
        lemma_sweep_start(frame, WIDTH as int, HEIGHT as int, ga, gb, gc, color);
    }
    let mut y: i32 = y_first;
    while y <= y_last
        invariant
            0 <= y_first <= y,
            y_last < HEIGHT,
            top.1 <= y_first,
            y_last <= low.1,
            top.1 < low.1,
            s0 == pt(top) && s1 == pt(mid) && s2 == pt(low),
            rows_ascend(s0, s1, s2),
            d == edge(s0, s1, s2),
            d != 0,
            forall|p: (int, int)| #[trigger] covers(s0, s1, s2, p) == covers(ga, gb, gc, p),
            forall|px: int, py: int|
                on_screen(WIDTH as int, HEIGHT as int, px, py) && #[trigger] covers(ga, gb, gc, (px, py)) ==> y_first <= py
                    <= y_last,
            buf@ == swept(frame, WIDTH as int, HEIGHT as int, ga, gb, gc, color, y as int, 0),
        decreases y_last + 1 - y,
    {
        let upper: bool = y < mid.1 || (y == mid.1 && top.1 < mid.1);
        let along: i128 = if d > 0 {
            crossing_ceil_value(top, low, y)
        } else {
            crossing_floor_value(top, low, y)
        };
        let across: i128 = if d > 0 {
            if upper {
                crossing_floor_value(top, mid, y)
            } else {
                crossing_floor_value(mid, low, y)
            }
        } else {
            if upper {
                crossing_ceil_value(top, mid, y)
            } else {
                crossing_ceil_value(mid, low, y)
            }
        };
        let first: i128 = if d > 0 {
            along
        } else {
            across
        };
        let last: i128 = if d > 0 {
            across
        } else {
            along
        };
        assert(first == row_first(s0, s1, s2, y as int));
        assert(last == row_last(s0, s1, s2, y as int));
        assert forall|px: int| #[trigger]
            covers(ga, gb, gc, (px, y as int)) <==> first <= px <= last by {
            assert(covers(s0, s1, s2, (px, y as int)) == covers(ga, gb, gc, (px, y as int)));
            lemma_row_span(s0, s1, s2, px, y as int);
        }
        let xs: i32 = if first < 0 {
            0
        } else if first > WIDTH as i128 {
            WIDTH as i32
        } else {
            first as i32
        };
        let xe: i32 = if last >= WIDTH as i128 {
            (WIDTH - 1) as i32
        } else if last < 0 {
            -1
        } else {
            last as i32
        };
        proof {
            lemma_sweep_same(
                frame,
                WIDTH as int,
                HEIGHT as int,
                ga,
                gb,
                gc,
                color,
                y as int,
                0,
                y as int,
                xs as int,
            );
        }
        let mut x: i32 = xs;
        while x <= xe
            invariant
                0 <= xs <= x,
                xe < WIDTH,
                0 <= y < HEIGHT,
                x <= xe ==> first <= x && xe <= last,
                forall|px: int| #[trigger]
                    covers(ga, gb, gc, (px, y as int)) <==> first <= px <= last,
                buf@ == swept(
                    frame,
                    WIDTH as int,
                    HEIGHT as int,
                    ga,
                    gb,
                    gc,
                    color,
                    y as int,
                    x as int,
                ),
            decreases xe + 1 - x,
        {
            proof {
                lemma_sweep_pixel(
                    frame,
                    WIDTH as int,
                    HEIGHT as int,
                    ga,
                    gb,
                    gc,
                    color,
                    y as int,
                    x as int,
                );
            }
            put_pixel(buf, x, y, color);
            x = x + 1;
        }
        proof {
            lemma_sweep_same(
                frame,
                WIDTH as int,
                HEIGHT as int,
                ga,
                gb,
                gc,
                color,
                y as int,
                x as int,
                y + 1,
                0,
            );
        }
        y = y + 1;
    }
    proof {
        lemma_sweep_same(
            frame,
            WIDTH as int,
            HEIGHT as int,
            ga,
            gb,
            gc,
            color,
            y as int,
            0,
            HEIGHT as int,
            0,
        );
        lemma_sweep_done(frame, WIDTH as int, HEIGHT as int, ga, gb, gc, color);
    }
}

} // verus!
