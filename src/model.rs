//! Filling a flat-coloured triangle by horizontal spans.
//!
//! The vertices are sorted by y. Row `k` of the fill, at height
//! `y_min + k` for `k` in `0..y_max - y_min`, runs between two boundaries:
//! one on the long edge from the lowest to the highest vertex, the other on
//! whichever short edge spans that row. Each boundary is the edge's point at
//! that row, rounded toward zero; the span holds every x between the two,
//! both included. Rows past the middle vertex use the upper short edge; so
//! does every row when the two lowest vertices share their y.
use vstd::prelude::*;
use crate::arith::{lerp_trunc, lemma_lerp_between, lerp_trunc_i32, min, max};
use crate::error::RenderError;
use crate::backend::geometry::Vec2i;
use crate::line::point_of;
use crate::backend::images::{Surface, pixels_of, width_of, height_of, in_bounds, painted, lemma_painted_wf};

verus! {

/// The vertices sorted by y, by the three compare-and-swap steps
/// (first, second), (first, third), (second, third).
pub open spec fn sort_by_y(v0: (int, int), v1: (int, int), v2: (int, int)) -> ((int, int), (int, int), (int, int)) {
    let (a, b) = if v0.1 > v1.1 { (v1, v0) } else { (v0, v1) };
    let (a, c) = if a.1 > v2.1 { (v2, a) } else { (a, v2) };
    let (b, c) = if b.1 > c.1 { (c, b) } else { (b, c) };
    (a, b, c)
}

/// The two boundaries of row `k` of a triangle whose vertices are sorted by
/// y, left one first.
pub open spec fn row_span(s: ((int, int), (int, int), (int, int)), k: int) -> (int, int) {
    let (v0, v1, v2) = s;
    let total = v2.1 - v0.1;
    let lower = v1.1 - v0.1;
    let upper_half = k > lower || lower == 0;
    let a = lerp_trunc(v0.0, v2.0, k, total);
    let b = if upper_half {
        lerp_trunc(v1.0, v2.0, k - lower, v2.1 - v1.1)
    } else {
        lerp_trunc(v0.0, v1.0, k, lower)
    };
    (min(a, b), max(a, b))
}

/// The rows of the fill, as `(y, left, right)`, from the lowest up.
pub open spec fn triangle_rows(t0: (int, int), t1: (int, int), t2: (int, int)) -> Seq<(int, int, int)> {
    let s = sort_by_y(t0, t1, t2);
    Seq::new(
        (s.2.1 - s.0.1) as nat,
        |k: int| (s.0.1 + k, row_span(s, k).0, row_span(s, k).1),
    )
}

/// Whether the fill covers the point `p`.
pub open spec fn triangle_covers(t0: (int, int), t1: (int, int), t2: (int, int), p: (int, int)) -> bool {
    let s = sort_by_y(t0, t1, t2);
    let k = p.1 - s.0.1;
    0 <= k < s.2.1 - s.0.1 && row_span(s, k).0 <= p.0 <= row_span(s, k).1
}

/// The points that the fill covers.
pub open spec fn triangle_points(t0: (int, int), t1: (int, int), t2: (int, int)) -> Set<(int, int)> {
    Set::new(|p: (int, int)| triangle_covers(t0, t1, t2, p))
}

/// Whether every row of the fill lies on a surface of the given size.
pub open spec fn rows_in_bounds(rows: Seq<(int, int, int)>, width: int, height: int) -> bool {
    forall|k: int|
        0 <= k < rows.len() ==> in_bounds(#[trigger] rows[k].1, rows[k].0, width, height)
            && in_bounds(rows[k].2, rows[k].0, width, height)
}

/// The rows that the fill writes at least one pixel of.
pub open spec fn filled_rows(t0: (int, int), t1: (int, int), t2: (int, int)) -> Set<int> {
    Set::new(|y: int| exists|x: int| triangle_covers(t0, t1, t2, (x, y)))
}

/// Rows as triples of mathematical integers.
pub open spec fn rows_view(rows: Seq<(i32, i32, i32)>) -> Seq<(int, int, int)> {
    Seq::new(rows.len(), |k: int| (rows[k].0 as int, rows[k].1 as int, rows[k].2 as int))
}

/// Sorting by y permutes the vertices and orders their y.
proof fn lemma_sort_by_y(v0: (int, int), v1: (int, int), v2: (int, int))
    ensures
        ({
            let (a, b, c) = sort_by_y(v0, v1, v2);
            &&& a.1 <= b.1 <= c.1
            &&& a.1 == min(v0.1, min(v1.1, v2.1))
            &&& c.1 == max(v0.1, max(v1.1, v2.1))
            &&& min(v0.0, min(v1.0, v2.0)) <= min(a.0, min(b.0, c.0))
            &&& max(a.0, max(b.0, c.0)) <= max(v0.0, max(v1.0, v2.0))
            &&& (a == v0 || a == v1 || a == v2)
            &&& (b == v0 || b == v1 || b == v2)
            &&& (c == v0 || c == v1 || c == v2)
        }),
{
}

/// Each span of the fill lies between the leftmost and the rightmost
/// vertex, and its left boundary does not pass its right one.
proof fn lemma_row_span_between(s: ((int, int), (int, int), (int, int)), k: int)
    requires
        s.0.1 <= s.1.1 <= s.2.1,
        0 <= k < s.2.1 - s.0.1,
    ensures
        row_span(s, k).0 <= row_span(s, k).1,
        min(s.0.0, min(s.1.0, s.2.0)) <= row_span(s, k).0,
        row_span(s, k).1 <= max(s.0.0, max(s.1.0, s.2.0)),
{
    let (v0, v1, v2) = s;
    let total = v2.1 - v0.1;
    let lower = v1.1 - v0.1;
    lemma_lerp_between(v0.0, v2.0, k, total);
    if k > lower || lower == 0 {
        lemma_lerp_between(v1.0, v2.0, k - lower, v2.1 - v1.1);
    } else {
        lemma_lerp_between(v0.0, v1.0, k, lower);
    }
}

/// Every pixel of the fill lies in the bounding box of the vertices, and the
/// fill writes the rows from the lowest vertex's up to, not including, the
/// highest vertex's: as many rows as the triangle's vertical extent.
pub proof fn lemma_fill_within_bounding_box(t0: (int, int), t1: (int, int), t2: (int, int))
    ensures
        forall|p: (int, int)|
            #[trigger] triangle_points(t0, t1, t2).contains(p) ==> min(t0.0, min(t1.0, t2.0)) <= p.0 <= max(
                t0.0,
                max(t1.0, t2.0),
            ) && min(t0.1, min(t1.1, t2.1)) <= p.1 <= max(t0.1, max(t1.1, t2.1)),
        filled_rows(t0, t1, t2) == vstd::set_lib::set_int_range(
            min(t0.1, min(t1.1, t2.1)),
            max(t0.1, max(t1.1, t2.1)),
        ),
        filled_rows(t0, t1, t2).len() == max(t0.1, max(t1.1, t2.1)) - min(t0.1, min(t1.1, t2.1)),
{
    let s = sort_by_y(t0, t1, t2);
    lemma_sort_by_y(t0, t1, t2);
    assert forall|p: (int, int)| #[trigger] triangle_points(t0, t1, t2).contains(p) implies min(
        t0.0,
        min(t1.0, t2.0),
    ) <= p.0 <= max(t0.0, max(t1.0, t2.0)) && min(t0.1, min(t1.1, t2.1)) <= p.1 <= max(
        t0.1,
        max(t1.1, t2.1),
    ) by {
        lemma_row_span_between(s, p.1 - s.0.1);
    }
    assert forall|y: int| #[trigger] filled_rows(t0, t1, t2).contains(y) <==> s.0.1 <= y < s.2.1 by {
        if s.0.1 <= y < s.2.1 {
            lemma_row_span_between(s, y - s.0.1);
            assert(triangle_covers(t0, t1, t2, (row_span(s, y - s.0.1).0, y)));
        }
    }
    assert(filled_rows(t0, t1, t2) =~= vstd::set_lib::set_int_range(s.0.1, s.2.1));
    vstd::set_lib::lemma_int_range(s.0.1, s.2.1);
}

/// The rows of the fill of the triangle `t0`, `t1`, `t2`, as
/// `(y, left, right)`, from the lowest up. A triangle whose vertices share
/// their y has no rows.
pub fn triangle_spans(t0: Vec2i, t1: Vec2i, t2: Vec2i) -> (r: Vec<(i32, i32, i32)>)
    ensures
        rows_view(r@) =~= triangle_rows(point_of(t0), point_of(t1), point_of(t2)),
{
    let ghost p0 = point_of(t0);
    let ghost p1 = point_of(t1);
    let ghost p2 = point_of(t2);
    let mut a: (i32, i32) = (t0.x.value, t0.y.value);
    let mut b: (i32, i32) = (t1.x.value, t1.y.value);
    let mut c: (i32, i32) = (t2.x.value, t2.y.value);
    if a.1 > b.1 {
        let tmp = a;
        a = b;
        b = tmp;
    }
    if a.1 > c.1 {
        let tmp = a;
        a = c;
        c = tmp;
    }
    if b.1 > c.1 {
        let tmp = b;
        b = c;
        c = tmp;
    }
    let ghost s = ((a.0 as int, a.1 as int), (b.0 as int, b.1 as int), (c.0 as int, c.1 as int));
    assert(s == sort_by_y(p0, p1, p2));
    let total: i64 = c.1 as i64 - a.1 as i64;
    let lower: i64 = b.1 as i64 - a.1 as i64;
    let upper: i64 = c.1 as i64 - b.1 as i64;
    let mut rows: Vec<(i32, i32, i32)> = Vec::new();
    let mut k: i64 = 0;
    while k < total
        invariant
            s == sort_by_y(p0, p1, p2),
            s == ((a.0 as int, a.1 as int), (b.0 as int, b.1 as int), (c.0 as int, c.1 as int)),
            a.1 <= b.1 <= c.1,
            total == c.1 - a.1,
            lower == b.1 - a.1,
            upper == c.1 - b.1,
            0 <= k <= total,
            rows@.len() == k,
            forall|j: int|
                0 <= j < k ==> (#[trigger] rows@[j]).0 == triangle_rows(p0, p1, p2)[j].0
                    && rows@[j].1 == triangle_rows(p0, p1, p2)[j].1
                    && rows@[j].2 == triangle_rows(p0, p1, p2)[j].2,
        decreases total - k,
    {
        let ax = lerp_trunc_i32(a.0, c.0, k, total);
        let bx = if k > lower || lower == 0 {
            lerp_trunc_i32(b.0, c.0, k - lower, upper)
        } else {
            lerp_trunc_i32(a.0, b.0, k, lower)
        };
        let (left, right) = if ax <= bx { (ax, bx) } else { (bx, ax) };
        let y: i32 = (a.1 as i64 + k) as i32;
        assert(triangle_rows(p0, p1, p2)[k as int] == (s.0.1 + k, row_span(s, k as int).0, row_span(s, k as int).1));
        rows.push((y, left, right));
        k = k + 1;
    }
    rows
}

/// The covered points of the rows before row `k`, and of row `k` left of
/// `x`.
pub open spec fn covered_before(t0: (int, int), t1: (int, int), t2: (int, int), k: int, x: int) -> Set<(int, int)> {
    let y0 = sort_by_y(t0, t1, t2).0.1;
    Set::new(
        |p: (int, int)|
            triangle_covers(t0, t1, t2, p) && (p.1 - y0 < k || (p.1 - y0 == k && p.0 < x)),
    )
}

/// Fills the triangle `t0`, `t1`, `t2` with `color`. Fails with
/// `OutOfBounds`, writing nothing, where a row of the fill leaves the
/// surface. A triangle whose vertices share their y writes nothing.
pub fn triangle(t0: Vec2i, t1: Vec2i, t2: Vec2i, color: [u8; 4], image: &mut Surface) -> (r: Result<
    (),
    RenderError,
>)
    ensures
        width_of(*final(image)) == width_of(*old(image)),
        height_of(*final(image)) == height_of(*old(image)),
        r is Ok <==> rows_in_bounds(
            triangle_rows(point_of(t0), point_of(t1), point_of(t2)),
            width_of(*old(image)) as int,
            height_of(*old(image)) as int,
        ),
        r is Ok ==> pixels_of(*final(image)) == painted(
            pixels_of(*old(image)),
            triangle_points(point_of(t0), point_of(t1), point_of(t2)),
            color@,
        ),
        r is Err ==> r == Err::<(), RenderError>(RenderError::OutOfBounds) && *final(image) == *old(image),
        t0.y.value == t1.y.value && t1.y.value == t2.y.value ==> r is Ok && *final(image) == *old(image),
        old(image).wf() ==> final(image).wf(),
{
    let ghost p0 = point_of(t0);
    let ghost p1 = point_of(t1);
    let ghost p2 = point_of(t2);
    let ghost model = triangle_rows(p0, p1, p2);
    let ghost s = sort_by_y(p0, p1, p2);
    proof {
        lemma_sort_by_y(p0, p1, p2);
    }
    let rows = triangle_spans(t0, t1, t2);
    assert(rows_view(rows@) == model);
    let w = image.width();
    let h = image.height();
    assert(t0.y.value == t1.y.value && t1.y.value == t2.y.value ==> rows@.len() == 0) by {
        assert(rows_view(rows@).len() == rows@.len());
    }
    let mut i: usize = 0;
    while i < rows.len()
        invariant
            p0 == point_of(t0),
            p1 == point_of(t1),
            p2 == point_of(t2),
            model == triangle_rows(p0, p1, p2),
            rows_view(rows@) == model,
            w == width_of(*image),
            h == height_of(*image),
            0 <= i <= rows@.len(),
            rows_in_bounds(model.take(i as int), w as int, h as int),
            *image == *old(image),
            t0.y.value == t1.y.value && t1.y.value == t2.y.value ==> rows@.len() == 0,
        decreases rows@.len() - i,
    {
        let (y, left, right) = rows[i];
        assert(model[i as int] == (y as int, left as int, right as int));
        if y < 0 || y as u32 >= h || left < 0 || left as u32 >= w || right < 0 || right as u32 >= w {
            assert(!(in_bounds(model[i as int].1, model[i as int].0, w as int, h as int) && in_bounds(
                model[i as int].2,
                model[i as int].0,
                w as int,
                h as int,
            )));
            assert(!rows_in_bounds(model, w as int, h as int));
            return Err(RenderError::OutOfBounds);
        }
        assert(rows_in_bounds(model.take(i + 1), w as int, h as int)) by {
            assert forall|j: int| 0 <= j < i + 1 implies in_bounds(
                #[trigger] model.take(i + 1)[j].1,
                model.take(i + 1)[j].0,
                w as int,
                h as int,
            ) && in_bounds(model.take(i + 1)[j].2, model.take(i + 1)[j].0, w as int, h as int) by {
                if j < i {
                    assert(model.take(i + 1)[j] == model.take(i as int)[j]);
                }
            }
        }
        i = i + 1;
    }
    assert(model.take(rows@.len() as int) =~= model);
    if rows.len() == 0 {
        assert(painted(pixels_of(*image), triangle_points(p0, p1, p2), color@) =~= pixels_of(*image));
        return Ok(());
    }
    let ghost m0 = pixels_of(*image);
    assert(rows@.len() == s.2.1 - s.0.1) by {
        assert(rows_view(rows@).len() == rows@.len());
    }
    let mut k: usize = 0;
    while k < rows.len()
        invariant
            p0 == point_of(t0),
            p1 == point_of(t1),
            p2 == point_of(t2),
            model == triangle_rows(p0, p1, p2),
            rows_view(rows@) == model,
            model == triangle_rows(p0, p1, p2),
            s == sort_by_y(p0, p1, p2),
            s.0.1 <= s.1.1 <= s.2.1,
            rows@.len() == s.2.1 - s.0.1,
            rows_in_bounds(model, w as int, h as int),
            w == width_of(*image),
            h == height_of(*image),
            0 <= k <= rows@.len(),
            pixels_of(*image) == painted(m0, covered_before(p0, p1, p2, k as int, i32::MIN as int), color@),
        decreases rows@.len() - k,
    {
        let (y, left, right) = rows[k];
        assert(model[k as int] == (y as int, left as int, right as int));
        assert(model[k as int] == (s.0.1 + k, row_span(s, k as int).0, row_span(s, k as int).1));
        proof {
            lemma_row_span_between(s, k as int);
            assert(covered_before(p0, p1, p2, k as int, i32::MIN as int) =~= covered_before(
                p0,
                p1,
                p2,
                k as int,
                left as int,
            ));
        }
        let mut x: i64 = left as i64;
        while x <= right as i64
            invariant
                p0 == point_of(t0),
                p1 == point_of(t1),
                p2 == point_of(t2),
                rows_view(rows@) == model,
                model == triangle_rows(p0, p1, p2),
                s == sort_by_y(p0, p1, p2),
                0 <= k < rows@.len(),
                model[k as int] == (y as int, left as int, right as int),
                y == s.0.1 + k,
                left == row_span(s, k as int).0,
                right == row_span(s, k as int).1,
                k < s.2.1 - s.0.1,
                s.0.1 <= s.1.1 <= s.2.1,
                in_bounds(left as int, y as int, w as int, h as int),
                in_bounds(right as int, y as int, w as int, h as int),
                left <= x <= right + 1,
                w == width_of(*image),
                h == height_of(*image),
                pixels_of(*image) == painted(m0, covered_before(p0, p1, p2, k as int, x as int), color@),
            decreases right + 1 - x,
        {
            let _ = crate::backend::images::set(image, x as i32, y, color);
            proof {
                assert(covered_before(p0, p1, p2, k as int, x + 1) =~= covered_before(p0, p1, p2, k as int, x as int).insert(
                    (x as int, y as int),
                ));
                assert(pixels_of(*image) =~= painted(m0, covered_before(p0, p1, p2, k as int, x + 1), color@));
            }
            x = x + 1;
        }
        proof {
            lemma_sort_by_y(p0, p1, p2);
            if k + 1 < s.2.1 - s.0.1 {
                lemma_row_span_between(s, k + 1);
            }
            assert forall|p: (int, int)| #[trigger] covered_before(p0, p1, p2, k + 1, i32::MIN as int).contains(p)
                implies covered_before(p0, p1, p2, k as int, x as int).contains(p) by {
                if p.1 - s.0.1 == k + 1 {
                    assert(triangle_covers(p0, p1, p2, p));
                    assert(row_span(s, k + 1).0 <= p.0);
                    assert(false);
                }
            }
            assert(covered_before(p0, p1, p2, k as int, x as int) =~= covered_before(
                p0,
                p1,
                p2,
                k + 1,
                i32::MIN as int,
            ));
        }
        k = k + 1;
    }
    assert(covered_before(p0, p1, p2, k as int, i32::MIN as int) =~= triangle_points(p0, p1, p2));
    proof {
        if old(image).wf() {
            assert forall|p: (int, int)| triangle_points(p0, p1, p2).contains(p) implies in_bounds(
                p.0,
                p.1,
                w as int,
                h as int,
            ) by {
                let j = p.1 - s.0.1;
                assert(model[j] == (s.0.1 + j, row_span(s, j).0, row_span(s, j).1));
            }
            lemma_painted_wf(*old(image), *image, triangle_points(p0, p1, p2), color@);
        }
    }
    Ok(())
}

} // verus!
