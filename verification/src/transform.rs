//! The screen/document coordinate transform: one pan offset plus one zoom
//! factor in thousandths.
//!
//! `to_screen(p) = p * zoom / ZOOM_UNIT + offset` and
//! `to_document(p) = (p - offset) * ZOOM_UNIT / zoom`, with floor division, so
//! both directions are exact integer arithmetic.
use vstd::prelude::*;

use crate::geom::{
    clamp_i64, clamp_spec, div_floor, point_within, Point, DOC_LIMIT, SCREEN_LIMIT, ZOOM_MAX,
    ZOOM_MIN, ZOOM_UNIT,
};

verus! {

/// The zoom a fresh workspace starts with (scale 2.0).
pub const ZOOM_DEFAULT: i64 = 2000;

/// Converts between screen coordinates and logical document coordinates.
#[derive(Clone, Copy, PartialEq, Eq, Structural, Debug)]
pub struct ViewTransform {
    /// Scale factor in thousandths, always within `[ZOOM_MIN, ZOOM_MAX]`.
    pub zoom: i64,
    /// Pan offset in screen units, clamped to the canvas extent.
    pub offset: Point,
}

impl ViewTransform {
    /// The transform's invariant: zoom clamped, offset on the canvas.
    pub open spec fn wf(self) -> bool {
        &&& ZOOM_MIN <= self.zoom <= ZOOM_MAX
        &&& point_within(self.offset, DOC_LIMIT as int)
    }

    /// One screen coordinate of a document point.
    pub open spec fn to_screen_coord(self, v: int, off: int) -> int {
        v * self.zoom / ZOOM_UNIT as int + off
    }

    /// One document coordinate of a screen point.
    pub open spec fn to_doc_coord(self, v: int, off: int) -> int {
        (v - off) * ZOOM_UNIT as int / self.zoom as int
    }

    /// The transform of a fresh workspace: scale 2.0, no pan.
    pub fn new() -> (r: ViewTransform)
        ensures
            r.wf(),
            r.zoom == ZOOM_DEFAULT,
            r.offset == (Point { x: 0i64, y: 0i64 }),
    {
        ViewTransform { zoom: ZOOM_DEFAULT, offset: Point { x: 0, y: 0 } }
    }

    /// Maps a document point to screen space.
    pub fn to_screen(&self, p: Point) -> (r: Point)
        requires
            self.wf(),
            point_within(p, DOC_LIMIT as int),
        ensures
            r.x == self.to_screen_coord(p.x as int, self.offset.x as int),
            r.y == self.to_screen_coord(p.y as int, self.offset.y as int),
            point_within(r, 6 * DOC_LIMIT as int),
    {
        proof {
            crate::geom::lemma_scale_bound(p.x as int, self.zoom as int);
            crate::geom::lemma_scale_bound(p.y as int, self.zoom as int);
        }
        let x = div_floor(p.x * self.zoom, ZOOM_UNIT) + self.offset.x;
        let y = div_floor(p.y * self.zoom, ZOOM_UNIT) + self.offset.y;
        Point { x, y }
    }

    /// Maps a screen point back to document space.
    pub fn to_document(&self, p: Point) -> (r: Point)
        requires
            self.wf(),
            point_within(p, 6 * DOC_LIMIT as int),
        ensures
            r.x == self.to_doc_coord(p.x as int, self.offset.x as int),
            r.y == self.to_doc_coord(p.y as int, self.offset.y as int),
            point_within(r, 18 * DOC_LIMIT as int),
    {
        proof {
            crate::geom::lemma_unscale_bound(
                p.x as int - self.offset.x as int,
                self.zoom as int,
            );
            crate::geom::lemma_unscale_bound(
                p.y as int - self.offset.y as int,
                self.zoom as int,
            );
        }
        let x = div_floor((p.x - self.offset.x) * ZOOM_UNIT, self.zoom);
        let y = div_floor((p.y - self.offset.y) * ZOOM_UNIT, self.zoom);
        Point { x, y }
    }

    /// Applies one scroll step: the zoom is scaled by `1 + dy / 1000` and then
    /// clamped into `[ZOOM_MIN, ZOOM_MAX]`; the offset is untouched.
    pub fn apply_scroll(&mut self, dy: i64)
        requires
            old(self).wf(),
            -SCREEN_LIMIT <= dy <= SCREEN_LIMIT,
        ensures
            final(self).wf(),
            final(self).zoom == clamp_spec(
                old(self).zoom as int * (ZOOM_UNIT as int + dy) / ZOOM_UNIT as int,
                ZOOM_MIN as int,
                ZOOM_MAX as int,
            ),
            final(self).offset == old(self).offset,
    {
        let factor = clamp_i64(ZOOM_UNIT + dy, 0, 10_001);
        proof {
            crate::geom::lemma_mul_le(self.zoom as int, ZOOM_MAX as int, factor as int, 10_001);
        }
        let scaled = div_floor(self.zoom * factor, ZOOM_UNIT);
        proof {
            lemma_scroll_clamp(self.zoom as int, dy as int, factor as int);
        }
        self.zoom = clamp_i64(scaled, ZOOM_MIN, ZOOM_MAX);
    }

    /// Restores the default zoom, leaving the pan offset alone.
    pub fn reset_zoom(&mut self)
        requires
            old(self).wf(),
        ensures
            final(self).wf(),
            final(self).zoom == ZOOM_DEFAULT,
            final(self).offset == old(self).offset,
    {
        self.zoom = ZOOM_DEFAULT;
    }

    /// Pans by a screen-space delta; each offset coordinate is clamped to the
    /// canvas extent.
    pub fn pan(&mut self, delta: Point)
        requires
            old(self).wf(),
            point_within(delta, 4 * SCREEN_LIMIT as int),
        ensures
            final(self).wf(),
            final(self).zoom == old(self).zoom,
            final(self).offset.x == clamp_spec(
                old(self).offset.x as int + delta.x as int,
                -DOC_LIMIT as int,
                DOC_LIMIT as int,
            ),
            final(self).offset.y == clamp_spec(
                old(self).offset.y as int + delta.y as int,
                -DOC_LIMIT as int,
                DOC_LIMIT as int,
            ),
    {
        let x = clamp_i64(self.offset.x + delta.x, -DOC_LIMIT, DOC_LIMIT);
        let y = clamp_i64(self.offset.y + delta.y, -DOC_LIMIT, DOC_LIMIT);
        self.offset = Point { x, y };
    }
}

/// Clamping the scroll factor into `[0, 10_001]` does not change the clamped
/// zoom that one scroll step produces.
proof fn lemma_scroll_clamp(zoom: int, dy: int, factor: int)
    requires
        ZOOM_MIN <= zoom <= ZOOM_MAX,
        factor == clamp_spec(ZOOM_UNIT as int + dy, 0, 10_001),
    ensures
        clamp_spec(zoom * factor / ZOOM_UNIT as int, ZOOM_MIN as int, ZOOM_MAX as int)
            == clamp_spec(zoom * (ZOOM_UNIT as int + dy) / ZOOM_UNIT as int, ZOOM_MIN as int, ZOOM_MAX as int),
{
    let raw = ZOOM_UNIT as int + dy;
    if raw < 0 {
        assert(zoom * factor == 0) by (nonlinear_arith)
            requires
                factor == 0,
        ;
        vstd::arithmetic::div_mod::lemma_div_basics(ZOOM_UNIT as int);
        assert(zoom * raw <= -1) by (nonlinear_arith)
            requires
                raw <= -1,
                zoom >= 400,
        ;
        vstd::arithmetic::div_mod::lemma_div_is_ordered(zoom * raw, 0, ZOOM_UNIT as int);
    } else if raw > 10_001 {
        assert(zoom * factor >= 4_000_400) by (nonlinear_arith)
            requires
                factor == 10_001,
                zoom >= 400,
        ;
        assert(zoom * raw >= zoom * factor) by (nonlinear_arith)
            requires
                raw > factor,
                zoom >= 400,
        ;
        vstd::arithmetic::div_mod::lemma_fundamental_div_mod_converse(4_000_400, 1000, 4000, 400);
        vstd::arithmetic::div_mod::lemma_div_is_ordered(4_000_400, zoom * factor, ZOOM_UNIT as int);
        vstd::arithmetic::div_mod::lemma_div_is_ordered(zoom * factor, zoom * raw, ZOOM_UNIT as int);
    } else {
        assert(factor == raw);
    }
}


/// However far one scroll step scales the zoom, the updated factor never
/// leaves `[ZOOM_MIN, ZOOM_MAX]`; applied after every step, this keeps the
/// zoom clamped across any sequence of scroll inputs.
pub proof fn lemma_scroll_keeps_zoom_clamped(zoom: int, dy: int)
    ensures
        ZOOM_MIN <= crate::geom::clamp_spec(
            zoom * (ZOOM_UNIT as int + dy) / ZOOM_UNIT as int,
            ZOOM_MIN as int,
            ZOOM_MAX as int,
        ) <= ZOOM_MAX,
{
    crate::geom::lemma_clamp_in_range(
        zoom * (ZOOM_UNIT as int + dy) / ZOOM_UNIT as int,
        ZOOM_MIN as int,
        ZOOM_MAX as int,
    );
}

} // verus!
