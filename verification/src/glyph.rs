//! Outlines of glyphs on the page: points in plotter units, as a producer of
//! documents has them before it writes them as commands.

use vstd::prelude::*;

verus! {

/// A point of an outline. It may lie off the page.
#[derive(Debug, PartialEq, Eq, Clone, Copy)]
pub struct GlyphPoint {
    pub x: i64,
    pub y: i64,
}

/// The width of the page, in plotter units.
pub const PAGE_WIDTH: i64 = 10300;

/// The height of the page, in plotter units.
pub const PAGE_HEIGHT: i64 = 7650;

/// Whether `p` lies on the page.
pub open spec fn on_page(p: GlyphPoint) -> bool {
    0 <= p.x <= PAGE_WIDTH && 0 <= p.y <= PAGE_HEIGHT
}

/// Whether `p` lies on the page.
pub fn is_on_page(p: &GlyphPoint) -> (b: bool)
    ensures
        b == on_page(*p),
{
    !(p.x < 0 || p.x > PAGE_WIDTH || p.y < 0 || p.y > PAGE_HEIGHT)
}

/// Whether `points[i]` repeats the point before it.
pub open spec fn is_repeat(points: Seq<GlyphPoint>, i: int) -> bool {
    0 < i < points.len() && points[i] == points[i - 1]
}

/// `points` without the points that repeat the one before them.
pub open spec fn without_repeats(points: Seq<GlyphPoint>) -> Seq<GlyphPoint>
    decreases points.len(),
{
    if points.len() == 0 {
        Seq::empty()
    } else if is_repeat(points, points.len() - 1) {
        without_repeats(points.drop_last())
    } else {
        without_repeats(points.drop_last()).push(points.last())
    }
}

/// What is left of a sequence that is not empty ends with its last point.
pub proof fn lemma_without_repeats_last(points: Seq<GlyphPoint>)
    requires
        points.len() > 0,
    ensures
        without_repeats(points).len() > 0,
        without_repeats(points).last() == points.last(),
    decreases points.len(),
{
    if is_repeat(points, points.len() - 1) {
        lemma_without_repeats_last(points.drop_last());
    }
}

/// Removes every point that repeats the point before it.
pub fn remove_repeats(points: &Vec<GlyphPoint>) -> (out: Vec<GlyphPoint>)
    ensures
        out@ == without_repeats(points@),
{
    let mut out: Vec<GlyphPoint> = Vec::new();
    let mut i: usize = 0;
    assert(points@.take(0) =~= Seq::empty());
    while i < points.len()
        invariant
            i <= points.len(),
            out@ == without_repeats(points@.take(i as int)),
        decreases points.len() - i,
    {
        let p = points[i];
        proof {
            assert(points@.take(i + 1).drop_last() =~= points@.take(i as int));
            if i > 0 {
                lemma_without_repeats_last(points@.take(i as int));
            }
        }
        let repeat = out.len() > 0 && out[out.len() - 1].x == p.x && out[out.len() - 1].y == p.y;
        if !repeat {
            out.push(p);
        }
        i += 1;
    }
    assert(points@.take(i as int) =~= points@);
    out
}

/// The quotient of `a` by `r`, rounded toward zero.
pub open spec fn quotient_toward_zero(a: int, r: int) -> int {
    if a >= 0 && r > 0 {
        a / r
    } else if a >= 0 {
        -(a / (-r))
    } else if r > 0 {
        -((-a) / r)
    } else {
        (-a) / (-r)
    }
}

/// The coordinate `v` on a grid of step `r`: `v + r - 1` divided by `r`,
/// rounded toward zero, times `r`.
pub open spec fn snapped(v: int, r: int) -> int {
    quotient_toward_zero(v + r - 1, r) * r
}

/// Whether `v` is a coordinate of a glyph point.
pub open spec fn in_range(v: int) -> bool {
    i64::MIN <= v <= i64::MAX
}

/// Whether `v` can be put on a grid of step `r`: the step is not zero, and
/// neither `v + r - 1` nor the result leaves the coordinate range.
pub open spec fn snappable(v: int, r: int) -> bool {
    r != 0 && in_range(v + r - 1) && in_range(snapped(v, r))
}

/// `p` with each coordinate on the grid.
pub open spec fn snapped_point(p: GlyphPoint, r: int) -> GlyphPoint {
    GlyphPoint { x: snapped(p.x as int, r) as i64, y: snapped(p.y as int, r) as i64 }
}

/// Whether every point of `points` can be put on the grid.
pub open spec fn all_snappable(points: Seq<GlyphPoint>, r: int) -> bool {
    forall|i: int|
        0 <= i < points.len() ==> snappable((#[trigger] points[i]).x as int, r) && snappable(
            points[i].y as int,
            r,
        )
}

/// The points of `points`, each on the grid.
pub open spec fn snapped_points(points: Seq<GlyphPoint>, r: int) -> Seq<GlyphPoint> {
    Seq::new(points.len(), |i: int| snapped_point(points[i], r))
}

/// Puts the coordinate `v` on a grid of step `r`, where that can be done.
fn snap(v: i64, r: i64) -> (s: Option<i64>)
    ensures
        match s {
            Some(w) => snappable(v as int, r as int) && w == snapped(v as int, r as int),
            None => !snappable(v as int, r as int),
        },
{
    if r == 0 {
        return None;
    }
    let a: i128 = v as i128 + r as i128 - 1;
    if a < -0x8000_0000_0000_0000 || a > 0x7fff_ffff_ffff_ffff {
        return None;
    }
    let size: i128 = if a >= 0 {
        a
    } else {
        -a
    };
    let step: i128 = if r > 0 {
        r as i128
    } else {
        -(r as i128)
    };
    let count: i128 = size / step;
    assert(0 <= count <= size) by (nonlinear_arith)
        requires
            count == size / step,
            size >= 0,
            step > 0,
    ;
    let q: i128 = if (a >= 0) == (r > 0) {
        count
    } else {
        -count
    };
    assert(q == quotient_toward_zero(a as int, r as int));
    assert(-0x4000_0000_0000_0000_0000_0000_0000_0000 <= q * r
        <= 0x4000_0000_0000_0000_0000_0000_0000_0000) by (nonlinear_arith)
        requires
            -0x8000_0000_0000_0000 <= q <= 0x8000_0000_0000_0000,
            -0x8000_0000_0000_0000 <= r <= 0x8000_0000_0000_0000,
    ;
    let w: i128 = q * (r as i128);
    if w < -0x8000_0000_0000_0000 || w > 0x7fff_ffff_ffff_ffff {
        return None;
    }
    Some(w as i64)
}

/// Puts every point on a grid of step `rescale` and removes the repeats that
/// this makes. Nothing where the step is zero or a coordinate leaves the
/// range on the way.
pub fn rescale_points(points: &Vec<GlyphPoint>, rescale: i64) -> (out: Option<Vec<GlyphPoint>>)
    ensures
        match out {
            Some(list) => all_snappable(points@, rescale as int) && list@ == without_repeats(
                snapped_points(points@, rescale as int),
            ),
            None => !all_snappable(points@, rescale as int),
        },
{
    let mut moved: Vec<GlyphPoint> = Vec::new();
    let mut i: usize = 0;
    while i < points.len()
        invariant
            i <= points.len(),
            all_snappable(points@.take(i as int), rescale as int),
            moved@ == snapped_points(points@.take(i as int), rescale as int),
        decreases points.len() - i,
    {
        let x = match snap(points[i].x, rescale) {
            Some(x) => x,
            None => {
                return None;
            },
        };
        let y = match snap(points[i].y, rescale) {
            Some(y) => y,
            None => {
                return None;
            },
        };
        moved.push(GlyphPoint { x, y });
        i += 1;
        assert(moved@ =~= snapped_points(points@.take(i as int), rescale as int));
    }
    assert(points@.take(i as int) =~= points@);
    Some(remove_repeats(&moved))
}

} // verus!
