//! Line drawing between two integer points, by one of four strategies.
//!
//! Three strategies step along the major axis one pixel at a time. They
//! first transpose a steep line (one that rises more than it runs) so that
//! x is the major axis, then order the endpoints left to right; each point
//! is transposed back before it is plotted. They differ in how they choose
//! the minor coordinate. The fourth samples a parameter instead.
use vstd::prelude::*;
use crate::arith::{abs, lerp_trunc, lerp_trunc_i32, lemma_trunc_div_between, max};
use crate::error::RenderError;
use crate::backend::geometry::Vec2i;
use crate::backend::images::{Surface, pixels_of, width_of, height_of, in_bounds, painted, lemma_painted_wf};

verus! {

/// How many parameter samples the sampling strategy takes.
pub const SAMPLE_COUNT: i64 = 100;

/// The line-drawing strategies, from the simplest to the most refined.
#[derive(Debug, Clone, Copy, PartialEq, Eq, Structural)]
pub enum LineMethodEnum {
    /// Samples `t = k / 100` for `k` in `0..100`, interpolates both
    /// coordinates and truncates each toward zero. It may skip or repeat
    /// pixels, and as it stops short of `t = 1` it may miss the end point.
    NAIVE0,
    /// Steps the major axis and interpolates the minor coordinate between
    /// the end points, truncated toward zero.
    NAIVE1,
    /// Steps the major axis and accumulates the slope as an error term,
    /// stepping the minor coordinate once the error exceeds one half. The
    /// error is kept exactly, in units of one over the run.
    NAIVE2,
    /// Steps the major axis with Bresenham's integer decision rule.
    BRESENHAM,
}

/// A point of the plane.
pub open spec fn point_of(v: Vec2i) -> (int, int) {
    (v.x.value as int, v.y.value as int)
}

/// A line is steep when it rises more than it runs.
pub open spec fn is_steep(p0: (int, int), p1: (int, int)) -> bool {
    abs(p1.0 - p0.0) < abs(p1.1 - p0.1)
}

/// The end points in the stepping frame, as `(a0, b0, a1, b1)`: the
/// coordinates transposed if the line is steep, then ordered so that the
/// major coordinate `a` does not decrease from the first to the second.
pub open spec fn stepping_frame(p0: (int, int), p1: (int, int)) -> (int, int, int, int) {
    let q0 = if is_steep(p0, p1) { (p0.1, p0.0) } else { p0 };
    let q1 = if is_steep(p0, p1) { (p1.1, p1.0) } else { p1 };
    if q0.0 > q1.0 {
        (q1.0, q1.1, q0.0, q0.1)
    } else {
        (q0.0, q0.1, q1.0, q1.1)
    }
}

/// The integer nearest to `n / d`, halves rounded down (`d > 0`, `n >= 0`).
pub open spec fn nearest_down(n: int, d: int) -> int {
    (2 * n + d - 1) / (2 * d)
}

/// The minor coordinate after `i` unit steps along a run of `run` from
/// `(.., b0)` to `(.., b1)`, when the minor coordinate moves by one toward
/// `b1` each time the accumulated error passes one half.
pub open spec fn stepped_minor(b0: int, b1: int, run: int, i: int) -> int {
    let steps = nearest_down(i * abs(b1 - b0), run);
    if b1 > b0 {
        b0 + steps
    } else {
        b0 - steps
    }
}

/// The minor coordinate after `i` unit steps, for a stepping strategy.
pub open spec fn minor_at(method: LineMethodEnum, b0: int, b1: int, run: int, i: int) -> int {
    if method == LineMethodEnum::NAIVE1 {
        lerp_trunc(b0, b1, i, run)
    } else {
        stepped_minor(b0, b1, run, i)
    }
}

/// A point of the stepping frame taken back to the plane.
pub open spec fn unframe(steep: bool, a: int, b: int) -> (int, int) {
    if steep { (b, a) } else { (a, b) }
}

/// The points that a line from `p0` to `p1` plots, in plotting order.
pub open spec fn line_model(p0: (int, int), p1: (int, int), method: LineMethodEnum) -> Seq<(int, int)> {
    if p0 == p1 {
        seq![p0]
    } else if method == LineMethodEnum::NAIVE0 {
        Seq::new(
            SAMPLE_COUNT as nat,
            |k: int|
                (
                    lerp_trunc(p0.0, p1.0, k, SAMPLE_COUNT as int),
                    lerp_trunc(p0.1, p1.1, k, SAMPLE_COUNT as int),
                ),
        )
    } else {
        stepped_line(p0, p1, method)
    }
}

/// The points of a stepping strategy: one for each major coordinate from
/// `a0` to `a1`, both included.
pub open spec fn stepped_line(p0: (int, int), p1: (int, int), method: LineMethodEnum) -> Seq<(int, int)> {
    let (a0, b0, a1, b1) = stepping_frame(p0, p1);
    Seq::new(
        (a1 - a0 + 1) as nat,
        |i: int| unframe(is_steep(p0, p1), a0 + i, minor_at(method, b0, b1, a1 - a0, i)),
    )
}

/// A line whose end points coincide plots exactly that one point, whatever
/// the strategy.
pub proof fn lemma_single_point_line(p: (int, int), method: LineMethodEnum)
    ensures
        line_model(p, p, method) == seq![p],
{
}

/// A stepping strategy plots one point more than the longer extent of the
/// line, and its first and last points are the two end points.
pub proof fn lemma_stepped_line_ends(p0: (int, int), p1: (int, int), method: LineMethodEnum)
    requires
        p0 != p1,
        method != LineMethodEnum::NAIVE0,
    ensures
        line_model(p0, p1, method).len() == max(abs(p1.0 - p0.0), abs(p1.1 - p0.1)) + 1,
        (line_model(p0, p1, method)[0] == p0 && line_model(p0, p1, method).last() == p1) || (line_model(
            p0,
            p1,
            method,
        )[0] == p1 && line_model(p0, p1, method).last() == p0),
{
    let (a0, b0, a1, b1) = stepping_frame(p0, p1);
    let run = a1 - a0;
    let rise = abs(b1 - b0);
    lemma_frame(p0, p1);
    lemma_stepped_line_at(p0, p1, method, 0);
    lemma_stepped_line_at(p0, p1, method, run);
    assert(minor_at(method, b0, b1, run, 0) == b0) by {
        lemma_trunc_div_between(b0 * run, run, b0, b0);
        assert(b0 * (run - 0) + b1 * 0 == b0 * run) by (nonlinear_arith);
        assert(nearest_down(0 * rise, run) == 0) by {
            assert(0 * rise == 0);
            vstd::arithmetic::div_mod::lemma_fundamental_div_mod_converse_div(run - 1, 2 * run, 0, run - 1);
        }
    }
    assert(minor_at(method, b0, b1, run, run) == b1) by {
        lemma_trunc_div_between(b1 * run, run, b1, b1);
        assert(b0 * (run - run) + b1 * run == b1 * run) by (nonlinear_arith);
        lemma_steps_taken(run, rise, run, rise, 2 * (run * rise) - 2 * (run * rise));
        assert(nearest_down(run * rise, run) == rise);
    }
}

/// Plotted points as pairs of mathematical integers.
pub open spec fn points_view(pts: Seq<(i32, i32)>) -> Seq<(int, int)> {
    Seq::new(pts.len(), |i: int| (pts[i].0 as int, pts[i].1 as int))
}

/// The rounding of the stepping strategies: an error term `e` that stays in
/// `(-run, run]` after `i` steps pins the number `m` of minor steps taken.
proof fn lemma_steps_taken(i: int, rise: int, run: int, m: int, e: int)
    requires
        run > 0,
        0 <= rise <= run,
        e == 2 * (i * rise) - 2 * (run * m),
        -run < e <= run,
    ensures
        m == nearest_down(i * rise, run),
        0 <= i <= run ==> 0 <= m <= rise,
{
    let x = 2 * (i * rise) + run - 1;
    assert(2 * run * m <= x < 2 * run * (m + 1)) by (nonlinear_arith)
        requires
            e == 2 * (i * rise) - 2 * (run * m),
            -run < e <= run,
            x == 2 * (i * rise) + run - 1,
    ;
    assert(m == x / (2 * run)) by (nonlinear_arith)
        requires
            2 * run * m <= x < 2 * run * (m + 1),
            run > 0,
    {
        vstd::arithmetic::div_mod::lemma_fundamental_div_mod_converse_div(x, 2 * run, m, x - 2 * run * m);
    }
    if 0 <= i <= run {
        assert(0 <= m <= rise) by (nonlinear_arith)
            requires
                e == 2 * (i * rise) - 2 * (run * m),
                -run < e <= run,
                0 <= i <= run,
                0 <= rise <= run,
                run > 0,
        ;
    }
}

/// The stepping frame of the line from `(x0, y0)` to `(x1, y1)`, with
/// whether the line is steep.
fn frame_of(x0: i32, y0: i32, x1: i32, y1: i32) -> (r: (bool, i32, i32, i32, i32))
    ensures
        r.0 == is_steep((x0 as int, y0 as int), (x1 as int, y1 as int)),
        (r.1 as int, r.2 as int, r.3 as int, r.4 as int) == stepping_frame(
            (x0 as int, y0 as int),
            (x1 as int, y1 as int),
        ),
{
    let dx: i64 = x1 as i64 - x0 as i64;
    let dy: i64 = y1 as i64 - y0 as i64;
    let run: i64 = if dx < 0 { -dx } else { dx };
    let rise: i64 = if dy < 0 { -dy } else { dy };
    let steep = run < rise;
    let (c0, d0, c1, d1) = if steep { (y0, x0, y1, x1) } else { (x0, y0, x1, y1) };
    if c0 > c1 {
        (steep, c1, d1, c0, d0)
    } else {
        (steep, c0, d0, c1, d1)
    }
}

/// The `i`-th point of a stepping strategy.
proof fn lemma_stepped_line_at(p0: (int, int), p1: (int, int), method: LineMethodEnum, i: int)
    requires
        0 <= i <= stepping_frame(p0, p1).2 - stepping_frame(p0, p1).0,
    ensures
        stepped_line(p0, p1, method).len() == stepping_frame(p0, p1).2 - stepping_frame(p0, p1).0 + 1,
        stepped_line(p0, p1, method)[i] == unframe(
            is_steep(p0, p1),
            stepping_frame(p0, p1).0 + i,
            minor_at(
                method,
                stepping_frame(p0, p1).1,
                stepping_frame(p0, p1).3,
                stepping_frame(p0, p1).2 - stepping_frame(p0, p1).0,
                i,
            ),
        ),
{
}

/// Facts on the stepping frame of a line whose end points differ: the run
/// is positive and at least the rise.
proof fn lemma_frame(p0: (int, int), p1: (int, int))
    requires
        p0 != p1,
    ensures
        ({
            let (a0, b0, a1, b1) = stepping_frame(p0, p1);
            a1 - a0 > 0 && abs(b1 - b0) <= a1 - a0
        }),
{
}

/// The parameter-sampling strategy.
fn sampled_points(x0: i32, y0: i32, x1: i32, y1: i32) -> (r: Vec<(i32, i32)>)
    requires
        (x0, y0) != (x1, y1),
    ensures
        points_view(r@) =~= line_model((x0 as int, y0 as int), (x1 as int, y1 as int), LineMethodEnum::NAIVE0),
{
    let mut r: Vec<(i32, i32)> = Vec::new();
    let mut k: i64 = 0;
    while k < SAMPLE_COUNT
        invariant
            0 <= k <= SAMPLE_COUNT,
            r@.len() == k,
            forall|j: int|
                0 <= j < k ==> #[trigger] r@[j] == (
                    lerp_trunc(x0 as int, x1 as int, j, SAMPLE_COUNT as int) as i32,
                    lerp_trunc(y0 as int, y1 as int, j, SAMPLE_COUNT as int) as i32,
                ),
            forall|j: int|
                0 <= j < k ==> (#[trigger] r@[j]).0 == lerp_trunc(x0 as int, x1 as int, j, SAMPLE_COUNT as int)
                    && r@[j].1 == lerp_trunc(y0 as int, y1 as int, j, SAMPLE_COUNT as int),
        decreases SAMPLE_COUNT - k,
    {
        let x = lerp_trunc_i32(x0, x1, k, SAMPLE_COUNT);
        let y = lerp_trunc_i32(y0, y1, k, SAMPLE_COUNT);
        r.push((x, y));
        k = k + 1;
    }
    r
}

/// The interpolating strategy.
fn interpolated_points(x0: i32, y0: i32, x1: i32, y1: i32) -> (r: Vec<(i32, i32)>)
    requires
        (x0, y0) != (x1, y1),
    ensures
        points_view(r@) =~= line_model((x0 as int, y0 as int), (x1 as int, y1 as int), LineMethodEnum::NAIVE1),
{
    let ghost p0 = (x0 as int, y0 as int);
    let ghost p1 = (x1 as int, y1 as int);
    let (steep, a0, b0, a1, b1) = frame_of(x0, y0, x1, y1);
    proof {
        lemma_frame(p0, p1);
    }
    let run: i64 = a1 as i64 - a0 as i64;
    let mut r: Vec<(i32, i32)> = Vec::new();
    let mut i: i64 = 0;
    while i <= run
        invariant
            (a0 as int, b0 as int, a1 as int, b1 as int) == stepping_frame(p0, p1),
            steep == is_steep(p0, p1),
            run == a1 - a0,
            run > 0,
            0 <= i <= run + 1,
            r@.len() == i,
            forall|j: int|
                0 <= j < i ==> (#[trigger] r@[j]).0 == stepped_line(p0, p1, LineMethodEnum::NAIVE1)[j].0
                    && r@[j].1 == stepped_line(p0, p1, LineMethodEnum::NAIVE1)[j].1,
        decreases run + 1 - i,
    {
        let a: i32 = (a0 as i64 + i) as i32;
        let b: i32 = lerp_trunc_i32(b0, b1, i, run);
        proof {
            lemma_stepped_line_at(p0, p1, LineMethodEnum::NAIVE1, i as int);
        }
        if steep {
            r.push((b, a));
        } else {
            r.push((a, b));
        }
        i = i + 1;
    }
    r
}

/// The error-accumulating strategy. The error is kept as a numerator over
/// the run: it grows by the rise at each step, and the minor coordinate
/// moves once it exceeds half the run.
fn midpoint_points(x0: i32, y0: i32, x1: i32, y1: i32) -> (r: Vec<(i32, i32)>)
    requires
        (x0, y0) != (x1, y1),
    ensures
        points_view(r@) =~= line_model((x0 as int, y0 as int), (x1 as int, y1 as int), LineMethodEnum::NAIVE2),
{
    let ghost p0 = (x0 as int, y0 as int);
    let ghost p1 = (x1 as int, y1 as int);
    let (steep, a0, b0, a1, b1) = frame_of(x0, y0, x1, y1);
    proof {
        lemma_frame(p0, p1);
    }
    let run: i64 = a1 as i64 - a0 as i64;
    let rise: i64 = if b1 > b0 { b1 as i64 - b0 as i64 } else { b0 as i64 - b1 as i64 };
    let mut r: Vec<(i32, i32)> = Vec::new();
    let mut error: i64 = 0;
    let mut b: i64 = b0 as i64;
    let ghost mut m: int = 0;
    let mut i: i64 = 0;
    while i <= run
        invariant
            (a0 as int, b0 as int, a1 as int, b1 as int) == stepping_frame(p0, p1),
            steep == is_steep(p0, p1),
            run == a1 - a0,
            rise == abs(b1 - b0),
            0 <= rise <= run,
            run > 0,
            0 <= i <= run + 1,
            2 * error == 2 * (i * rise) - 2 * (run * m),
            -run < 2 * error <= run,
            b == if b1 > b0 { b0 + m } else { b0 - m },
            r@.len() == i,
            forall|j: int|
                0 <= j < i ==> (#[trigger] r@[j]).0 == stepped_line(p0, p1, LineMethodEnum::NAIVE2)[j].0
                    && r@[j].1 == stepped_line(p0, p1, LineMethodEnum::NAIVE2)[j].1,
        decreases run + 1 - i,
    {
        proof {
            lemma_steps_taken(i as int, rise as int, run as int, m, 2 * error);
        }
        let a: i32 = (a0 as i64 + i) as i32;
        proof {
            lemma_stepped_line_at(p0, p1, LineMethodEnum::NAIVE2, i as int);
        }
        if steep {
            r.push((b as i32, a));
        } else {
            r.push((a, b as i32));
        }
        proof {
            assert((i + 1) * rise == i * rise + rise) by (nonlinear_arith);
        }
        error = error + rise;
        if 2 * error > run {
            b = if b1 > b0 { b + 1 } else { b - 1 };
            error = error - run;
            proof {
                m = m + 1;
                assert(run * m == run * (m - 1) + run) by (nonlinear_arith);
            }
        }
        i = i + 1;
    }
    r
}

/// Bresenham's strategy: an integer error grows by twice the rise at each
/// step; once it exceeds the run the minor coordinate moves and the error
/// drops by twice the run.
fn bresenham_points(x0: i32, y0: i32, x1: i32, y1: i32) -> (r: Vec<(i32, i32)>)
    requires
        (x0, y0) != (x1, y1),
    ensures
        points_view(r@) =~= line_model((x0 as int, y0 as int), (x1 as int, y1 as int), LineMethodEnum::BRESENHAM),
{
    let ghost p0 = (x0 as int, y0 as int);
    let ghost p1 = (x1 as int, y1 as int);
    let (steep, a0, b0, a1, b1) = frame_of(x0, y0, x1, y1);
    proof {
        lemma_frame(p0, p1);
    }
    let run: i64 = a1 as i64 - a0 as i64;
    let rise: i64 = if b1 > b0 { b1 as i64 - b0 as i64 } else { b0 as i64 - b1 as i64 };
    let derror: i64 = 2 * rise;
    let mut r: Vec<(i32, i32)> = Vec::new();
    let mut error: i64 = 0;
    let mut b: i64 = b0 as i64;
    let ghost mut m: int = 0;
    let mut i: i64 = 0;
    while i <= run
        invariant
            (a0 as int, b0 as int, a1 as int, b1 as int) == stepping_frame(p0, p1),
            steep == is_steep(p0, p1),
            run == a1 - a0,
            rise == abs(b1 - b0),
            derror == 2 * rise,
            0 <= rise <= run,
            run > 0,
            0 <= i <= run + 1,
            error == 2 * (i * rise) - 2 * (run * m),
            -run < error <= run,
            b == if b1 > b0 { b0 + m } else { b0 - m },
            r@.len() == i,
            forall|j: int|
                0 <= j < i ==> (#[trigger] r@[j]).0 == stepped_line(p0, p1, LineMethodEnum::BRESENHAM)[j].0
                    && r@[j].1 == stepped_line(p0, p1, LineMethodEnum::BRESENHAM)[j].1,
        decreases run + 1 - i,
    {
        proof {
            lemma_steps_taken(i as int, rise as int, run as int, m, error as int);
        }
        let a: i32 = (a0 as i64 + i) as i32;
        proof {
            lemma_stepped_line_at(p0, p1, LineMethodEnum::BRESENHAM, i as int);
        }
        if steep {
            r.push((b as i32, a));
        } else {
            r.push((a, b as i32));
        }
        proof {
            assert((i + 1) * rise == i * rise + rise) by (nonlinear_arith);
        }
        error = error + derror;
        if error > run {
            b = if b1 > b0 { b + 1 } else { b - 1 };
            error = error - 2 * run;
            proof {
                m = m + 1;
                assert(run * m == run * (m - 1) + run) by (nonlinear_arith);
            }
        }
        i = i + 1;
    }
    r
}

/// The points that a line from `p0` to `p1` plots with the given strategy,
/// in plotting order. A line whose end points coincide plots that one
/// point.
pub fn line_points(p0: Vec2i, p1: Vec2i, line_method: LineMethodEnum) -> (r: Vec<(i32, i32)>)
    ensures
        points_view(r@) == line_model(point_of(p0), point_of(p1), line_method),
{
    let x0 = p0.x.value;
    let y0 = p0.y.value;
    let x1 = p1.x.value;
    let y1 = p1.y.value;
    if x0 == x1 && y0 == y1 {
        let r = vec![(x0, y0)];
        assert(points_view(r@) =~= line_model(point_of(p0), point_of(p1), line_method));
        return r;
    }
    match line_method {
        LineMethodEnum::NAIVE0 => sampled_points(x0, y0, x1, y1),
        LineMethodEnum::NAIVE1 => interpolated_points(x0, y0, x1, y1),
        LineMethodEnum::NAIVE2 => midpoint_points(x0, y0, x1, y1),
        LineMethodEnum::BRESENHAM => bresenham_points(x0, y0, x1, y1),
    }
}

/// Whether every point of `pts` lies on a surface of the given size.
pub open spec fn all_in_bounds(pts: Seq<(int, int)>, width: int, height: int) -> bool {
    forall|i: int| 0 <= i < pts.len() ==> in_bounds(#[trigger] pts[i].0, pts[i].1, width, height)
}

/// Writes `color` at each of `pts`, once all of them are known to lie on the
/// surface; where one does not, nothing is written.
pub fn plot_points(image: &mut Surface, pts: &Vec<(i32, i32)>, color: [u8; 4]) -> (r: Result<(), RenderError>)
    ensures
        width_of(*final(image)) == width_of(*old(image)),
        height_of(*final(image)) == height_of(*old(image)),
        r is Ok <==> all_in_bounds(points_view(pts@), width_of(*old(image)) as int, height_of(*old(image)) as int),
        r is Ok ==> pixels_of(*final(image)) == painted(pixels_of(*old(image)), points_view(pts@).to_set(), color@),
        r is Err ==> r == Err::<(), RenderError>(RenderError::OutOfBounds) && *final(image) == *old(image),
        old(image).wf() ==> final(image).wf(),
{
    let ghost pv = points_view(pts@);
    let w = image.width();
    let h = image.height();
    let mut i: usize = 0;
    while i < pts.len()
        invariant
            pv == points_view(pts@),
            w == width_of(*image),
            h == height_of(*image),
            0 <= i <= pts@.len(),
            all_in_bounds(pv.take(i as int), w as int, h as int),
        decreases pts@.len() - i,
    {
        let (x, y) = pts[i];
        if x < 0 || y < 0 || x as u32 >= w || y as u32 >= h {
            assert(!in_bounds(pv[i as int].0, pv[i as int].1, w as int, h as int));
            return Err(RenderError::OutOfBounds);
        }
        assert(all_in_bounds(pv.take(i + 1), w as int, h as int)) by {
            assert forall|j: int| 0 <= j < i + 1 implies in_bounds(
                #[trigger] pv.take(i + 1)[j].0,
                pv.take(i + 1)[j].1,
                w as int,
                h as int,
            ) by {
                if j < i {
                    assert(pv.take(i + 1)[j] == pv.take(i as int)[j]);
                }
            }
        }
        i = i + 1;
    }
    assert(pv.take(pts@.len() as int) =~= pv);
    let ghost m0 = pixels_of(*image);
    let mut k: usize = 0;
    while k < pts.len()
        invariant
            pv == points_view(pts@),
            all_in_bounds(pv, w as int, h as int),
            w == width_of(*image),
            h == height_of(*image),
            0 <= k <= pts@.len(),
            pixels_of(*image) == painted(m0, pv.take(k as int).to_set(), color@),
        decreases pts@.len() - k,
    {
        let (x, y) = pts[k];
        assert(in_bounds(pv[k as int].0, pv[k as int].1, w as int, h as int));
        let ghost before = pixels_of(*image);
        let _ = crate::backend::images::set(image, x, y, color);
        proof {
            assert(pv.take(k + 1).to_set() =~= pv.take(k as int).to_set().insert(pv[k as int])) by {
                assert(pv.take(k + 1) =~= pv.take(k as int).push(pv[k as int]));
                pv.take(k as int).lemma_push_to_set_commute(pv[k as int]);
            }
            assert(pixels_of(*image) =~= painted(m0, pv.take(k + 1).to_set(), color@));
        }
        k = k + 1;
    }
    assert(pv.take(pts@.len() as int) =~= pv);
    proof {
        if old(image).wf() {
            assert forall|p: (int, int)| pv.to_set().contains(p) implies in_bounds(p.0, p.1, w as int, h as int) by {
                let j = choose|j: int| 0 <= j < pv.len() && pv[j] == p;
            }
            lemma_painted_wf(*old(image), *image, pv.to_set(), color@);
        }
    }
    Ok(())
}

/// Draws the line from `p0` to `p1` with the given strategy. Fails with
/// `OutOfBounds`, writing nothing, where a point of the line lies outside the
/// surface.
pub fn line(
    p0: Vec2i,
    p1: Vec2i,
    color: [u8; 4],
    image: &mut Surface,
    line_method: LineMethodEnum,
) -> (r: Result<(), RenderError>)
    ensures
        width_of(*final(image)) == width_of(*old(image)),
        height_of(*final(image)) == height_of(*old(image)),
        r is Ok <==> all_in_bounds(
            line_model(point_of(p0), point_of(p1), line_method),
            width_of(*old(image)) as int,
            height_of(*old(image)) as int,
        ),
        r is Ok ==> pixels_of(*final(image)) == painted(
            pixels_of(*old(image)),
            line_model(point_of(p0), point_of(p1), line_method).to_set(),
            color@,
        ),
        r is Err ==> r == Err::<(), RenderError>(RenderError::OutOfBounds) && *final(image) == *old(image),
        old(image).wf() ==> final(image).wf(),
{
    let pts = line_points(p0, p1, line_method);
    plot_points(image, &pts, color)
}

} // verus!
