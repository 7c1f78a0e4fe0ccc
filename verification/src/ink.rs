//! Freehand ink: marker stroke capture and proximity-based erasure, in
//! document coordinates.
use vstd::prelude::*;

use crate::geom::{point_near_spec, point_within, Point, DOC_LIMIT};
use crate::model::{seq_view, stroke_wf, Stroke, StrokeV};

verus! {

/// What erasing at `c` with threshold `t` leaves of one stroke: exactly the
/// points at distance `t` or more survive, in order.
pub open spec fn erase_stroke_spec(s: StrokeV, c: Point, t: int) -> StrokeV {
    StrokeV { points: s.points.filter(|p: Point| !point_near_spec(p, c, t)), ..s }
}

/// What erasing at `c` leaves of a stroke collection: every stroke loses its
/// nearby points, and a stroke reduced below two points is dropped entirely.
pub open spec fn erase_spec(ss: Seq<StrokeV>, c: Point, t: int) -> Seq<StrokeV> {
    ss.map_values(|s: StrokeV| erase_stroke_spec(s, c, t)).filter(
        |s: StrokeV| s.points.len() >= 2,
    )
}

/// Removes the points of `stroke` that lie strictly nearer than `t` to `c`.
fn erase_stroke_points(points: &Vec<Point>, c: Point, t: i64) -> (r: Vec<Point>)
    requires
        0 <= t <= 1000,
        forall|i: int| 0 <= i < points@.len() ==> point_within(#[trigger] points@[i], DOC_LIMIT as int),
        point_within(c, 20 * DOC_LIMIT as int),
    ensures
        r@ == points@.filter(|p: Point| !point_near_spec(p, c, t as int)),
        forall|i: int| 0 <= i < r@.len() ==> point_within(#[trigger] r@[i], DOC_LIMIT as int),
{
    let mut out: Vec<Point> = Vec::new();
    let mut i: usize = 0;
    proof {
        assert(points@.take(0) =~= Seq::<Point>::empty());
        reveal(Seq::filter);
    }
    while i < points.len()
        invariant
            i <= points@.len(),
            0 <= t <= 1000,
            forall|k: int|
                0 <= k < points@.len() ==> point_within(#[trigger] points@[k], DOC_LIMIT as int),
            point_within(c, 20 * DOC_LIMIT as int),
            out@ == points@.take(i as int).filter(|p: Point| !point_near_spec(p, c, t as int)),
            forall|k: int| 0 <= k < out@.len() ==> point_within(#[trigger] out@[k], DOC_LIMIT as int),
        decreases points@.len() - i,
    {
        let p = points[i];
        let keep = !crate::geom::point_near(p, c, t);
        proof {
            reveal(Seq::filter);
            assert(points@.take(i + 1).drop_last() =~= points@.take(i as int));
            assert(points@.take(i + 1).last() == p);
        }
        if keep {
            out.push(p);
        }
        i = i + 1;
    }
    proof {
        assert(points@.take(points@.len() as int) =~= points@);
    }
    out
}

/// Applies one eraser sample at `c` with threshold `t` to the whole stroke
/// collection.
pub fn erase_all(strokes: &mut Vec<Stroke>, c: Point, t: i64)
    requires
        0 <= t <= 1000,
        forall|i: int| 0 <= i < old(strokes)@.len() ==> stroke_wf(#[trigger] seq_view(old(strokes)@)[i]),
        point_within(c, 20 * DOC_LIMIT as int),
    ensures
        seq_view(final(strokes)@) == erase_spec(seq_view(old(strokes)@), c, t as int),
        forall|i: int|
            0 <= i < final(strokes)@.len() ==> stroke_wf(#[trigger] seq_view(final(strokes)@)[i]),
        final(strokes)@.len() <= old(strokes)@.len(),
    {
    let mut out: Vec<Stroke> = Vec::new();
    let mut i: usize = 0;
    proof {
        assert(seq_view(old(strokes)@).take(0) =~= Seq::<StrokeV>::empty());
        assert(seq_view(out@) =~= Seq::<StrokeV>::empty());
        reveal(Seq::filter);
    }
    while i < strokes.len()
        invariant
            i <= strokes@.len(),
            0 <= t <= 1000,
            strokes@ == old(strokes)@,
            forall|k: int|
                0 <= k < strokes@.len() ==> stroke_wf(#[trigger] seq_view(strokes@)[k]),
            point_within(c, 20 * DOC_LIMIT as int),
            seq_view(out@) == erase_spec(seq_view(strokes@).take(i as int), c, t as int),
            forall|k: int| 0 <= k < out@.len() ==> stroke_wf(#[trigger] seq_view(out@)[k]),
            out@.len() <= i,
        decreases strokes@.len() - i,
    {
        let ghost pre = seq_view(out@);
        let ghost mapped = seq_view(strokes@).take(i as int).map_values(
            |s: StrokeV| erase_stroke_spec(s, c, t as int),
        );
        let stroke = &strokes[i];
        let ghost sv = seq_view(strokes@)[i as int];
        proof {
            assert(stroke_wf(sv));
            assert(sv.points == stroke.points@);
        }
        let filtered = erase_stroke_points(&stroke.points, c, t);
        let keep = filtered.len() >= 2;
        proof {
            reveal(Seq::filter);
            let mapped1 = seq_view(strokes@).take(i + 1).map_values(
                |s: StrokeV| erase_stroke_spec(s, c, t as int),
            );
            assert(mapped1.drop_last() =~= mapped);
            assert(mapped1.last() == erase_stroke_spec(sv, c, t as int));
            assert(mapped1 =~= mapped.push(erase_stroke_spec(sv, c, t as int)));
        }
        if keep {
            let color = stroke.color;
            let thickness = stroke.thickness;
            out.push(Stroke { points: filtered, color, thickness });
            proof {
                assert(seq_view(out@) =~= pre.push(erase_stroke_spec(sv, c, t as int)));
            }
        }
        i = i + 1;
        proof {
            assert(seq_view(out@) == erase_spec(seq_view(strokes@).take(i as int), c, t as int));
        }
    }
    proof {
        assert(seq_view(strokes@).take(strokes@.len() as int) =~= seq_view(strokes@));
    }
    *strokes = out;
}

/// Erasing at a point whose distance to every stroke point reaches the
/// threshold leaves the whole collection unchanged.
pub proof fn lemma_eraser_untouched(ss: Seq<StrokeV>, c: Point, t: int)
    requires
        forall|i: int, j: int|
            0 <= i < ss.len() && 0 <= j < ss[i].points.len() ==> !point_near_spec(
                #[trigger] ss[i].points[j],
                c,
                t,
            ),
        forall|i: int| 0 <= i < ss.len() ==> (#[trigger] ss[i]).points.len() >= 2,
    ensures
        erase_spec(ss, c, t) == ss,
{
    assert forall|i: int| 0 <= i < ss.len() implies erase_stroke_spec(#[trigger] ss[i], c, t)
        == ss[i] by {
        lemma_filter_id(ss[i].points, |p: Point| !point_near_spec(p, c, t));
        assert(erase_stroke_spec(ss[i], c, t) =~= ss[i]);
    }
    let mapped = ss.map_values(|s: StrokeV| erase_stroke_spec(s, c, t));
    assert(mapped =~= ss);
    lemma_filter_id(ss, |s: StrokeV| s.points.len() >= 2);
}

/// A filter whose predicate holds of every element changes nothing.
proof fn lemma_filter_id<A>(s: Seq<A>, pred: spec_fn(A) -> bool)
    requires
        forall|i: int| 0 <= i < s.len() ==> pred(#[trigger] s[i]),
    ensures
        s.filter(pred) == s,
    decreases s.len(),
{
    reveal(Seq::filter);
    if s.len() > 0 {
        lemma_filter_id(s.drop_last(), pred);
        assert(s.drop_last().push(s.last()) =~= s);
    }
}

} // verus!
