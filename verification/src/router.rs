//! Connection routing: per-connection anchor selection with even
//! distribution of parallel arrows, bezier curve generation, and the
//! arrowhead at the target anchor.
use vstd::prelude::*;

use crate::engine::{Engine, PendingConnection};
use crate::geom::{
    anchor_point, anchor_point_spec, bezier_point_spec, compute_cubic_bezier_points, div_floor,
    is_isqrt, isqrt_u128, point_within, side_normal_spec, Point, Side, DOC_LIMIT,
};
use crate::model::{seq_view, Connection, NodeKind};

verus! {

/// The tessellation used for rendering connection curves.
pub const CURVE_SEGMENTS: usize = 30;

/// The perpendicular distance control points bow away from the endpoints.
pub const CONTROL_OFFSET: i64 = 50;

/// The length of the two arrowhead flanks, in screen units.
pub const ARROW_HEAD: i64 = 10;

/// Whether a connection starts at the given node and side; parallel arrows
/// are ranked among the connections for which this holds.
pub open spec fn arrow_matches(c: Connection, node_id: int, side: Side) -> bool {
    c.start_node_id == node_id && c.start_side == side
}

/// How many connections start at the given node and side.
pub open spec fn arrow_total(cs: Seq<Connection>, node_id: int, side: Side) -> int
    decreases cs.len(),
{
    if cs.len() == 0 {
        0
    } else {
        arrow_total(cs.drop_last(), node_id, side) + if arrow_matches(
            cs.last(),
            node_id,
            side,
        ) {
            1int
        } else {
            0int
        }
    }
}

/// Determines the rank of the connection with identifier `current_id` among
/// all connections that start at the given node and side, together with
/// their count.  A connection that is not among them ranks zero.
pub fn get_arrow_index(
    connections: &Vec<Connection>,
    node_id: usize,
    side: Side,
    current_id: usize,
) -> (r: (usize, usize))
    requires
        forall|i: int, j: int|
            0 <= i < connections@.len() && 0 <= j < connections@.len() && i != j ==> (
            #[trigger] connections@[i]).id != (#[trigger] connections@[j]).id,
    ensures
        r.1 == arrow_total(connections@, node_id as int, side),
        forall|j: int|
            0 <= j < connections@.len() && (#[trigger] connections@[j]).id == current_id
                && arrow_matches(connections@[j], node_id as int, side) ==> r.0 == arrow_total(
                connections@.take(j),
                node_id as int,
                side,
            ) && r.0 < r.1,
        (forall|j: int|
            0 <= j < connections@.len() ==> !((#[trigger] connections@[j]).id == current_id
                && arrow_matches(connections@[j], node_id as int, side))) ==> r.0 == 0,
        r.0 <= r.1,
{
    let mut count: usize = 0;
    let mut index: usize = 0;
    let mut i: usize = 0;
    proof {
        assert(connections@.take(0) =~= Seq::<Connection>::empty());
    }
    while i < connections.len()
        invariant
            i <= connections@.len(),
            count == arrow_total(connections@.take(i as int), node_id as int, side),
            count <= i,
            index <= count,
            forall|a: int, b: int|
                0 <= a < connections@.len() && 0 <= b < connections@.len() && a != b ==> (
                #[trigger] connections@[a]).id != (#[trigger] connections@[b]).id,
            forall|j: int|
                0 <= j < i && (#[trigger] connections@[j]).id == current_id && arrow_matches(
                    connections@[j],
                    node_id as int,
                    side,
                ) ==> index == arrow_total(connections@.take(j), node_id as int, side) && index
                    < count,
            (forall|j: int|
                0 <= j < i ==> !((#[trigger] connections@[j]).id == current_id && arrow_matches(
                    connections@[j],
                    node_id as int,
                    side,
                ))) ==> index == 0,
        decreases connections@.len() - i,
    {
        let c = &connections[i];
        proof {
            assert(connections@.take(i + 1).drop_last() =~= connections@.take(i as int));
            assert(connections@.take(i + 1).last() == connections@[i as int]);
        }
        if c.start_node_id == node_id && matches_side(c.start_side, side) {
            if c.id == current_id {
                index = count;
            }
            count = count + 1;
        }
        i = i + 1;
    }
    proof {
        assert(connections@.take(connections@.len() as int) =~= connections@);
    }
    (index, count)
}


/// No more connections can match a (node, side) than there are connections.
pub proof fn lemma_arrow_total_bound(cs: Seq<Connection>, node_id: int, side: Side)
    ensures
        0 <= arrow_total(cs, node_id, side) <= cs.len(),
    decreases cs.len(),
{
    if cs.len() > 0 {
        lemma_arrow_total_bound(cs.drop_last(), node_id, side);
    }
}

/// Equality of two sides.
fn matches_side(a: Side, b: Side) -> (r: bool)
    ensures
        r == (a == b),
{
    match (a, b) {
        (Side::Top, Side::Top) => true,
        (Side::Bottom, Side::Bottom) => true,
        (Side::Left, Side::Left) => true,
        (Side::Right, Side::Right) => true,
        _ => false,
    }
}

/// A fully routed arrow: the two anchors, the two control points, the
/// tessellated curve, and the arrowhead flanks at the target anchor.
pub struct RoutedArrow {
    pub start_anchor: Point,
    pub end_anchor: Point,
    pub control1: Point,
    pub control2: Point,
    pub polyline: Vec<Point>,
    /// Length of the final curve direction; zero means the arrowhead
    /// degenerates and the flanks coincide with the end anchor.
    pub head_scale: i64,
    pub head_left: Point,
    pub head_right: Point,
}

/// One coordinate of a control point: the anchor, moved a fraction of the
/// way towards the other anchor and `CONTROL_OFFSET` units along a normal.
pub open spec fn control_coord(a: int, b: int, tenths: int, normal: int) -> int {
    a + (b - a) * tenths / 10 + normal * CONTROL_OFFSET as int
}

/// Everything `route_arrow` promises of its result, over the two anchors
/// and the two endpoint sides.
pub open spec fn routed_ok(sa: Point, ea: Point, start_side: Side, end_side: Side, r: RoutedArrow) -> bool {
    &&& r.start_anchor == sa
    &&& r.end_anchor == ea
    &&& r.control1.x == control_coord(
        sa.x as int,
        ea.x as int,
        3,
        side_normal_spec(start_side).x as int,
    )
    &&& r.control1.y == control_coord(
        sa.y as int,
        ea.y as int,
        3,
        side_normal_spec(start_side).y as int,
    )
    &&& r.control2.x == control_coord(
        sa.x as int,
        ea.x as int,
        7,
        side_normal_spec(end_side).x as int,
    )
    &&& r.control2.y == control_coord(
        sa.y as int,
        ea.y as int,
        7,
        side_normal_spec(end_side).y as int,
    )
    &&& r.polyline@.len() == CURVE_SEGMENTS + 1
    &&& forall|i: int|
        0 <= i <= CURVE_SEGMENTS ==> r.polyline@[i] == bezier_point_spec(
            sa,
            r.control1,
            r.control2,
            ea,
            i,
            CURVE_SEGMENTS as int,
        )
    &&& ({
        let dx = ea.x - r.control2.x;
        let dy = ea.y - r.control2.y;
        if r.head_scale == 0 {
            dx == 0 && dy == 0 && r.head_left == ea && r.head_right == ea
        } else {
            &&& is_isqrt(dx * dx + dy * dy, r.head_scale as int)
            &&& 0 < r.head_scale
            &&& r.head_left.x == ea.x - dx * ARROW_HEAD / r.head_scale as int + (-dy) * (
            ARROW_HEAD / 2) / r.head_scale as int
            &&& r.head_left.y == ea.y - dy * ARROW_HEAD / r.head_scale as int + dx * (ARROW_HEAD
                / 2) / r.head_scale as int
            &&& r.head_right.x == ea.x - dx * ARROW_HEAD / r.head_scale as int - (-dy) * (
            ARROW_HEAD / 2) / r.head_scale as int
            &&& r.head_right.y == ea.y - dy * ARROW_HEAD / r.head_scale as int - dx * (ARROW_HEAD
                / 2) / r.head_scale as int
        }
    })
}

/// Routes one arrow between two already-resolved anchors.  The control
/// points bow the curve away from both endpoints along the side normals, the
/// polyline is the standard bezier tessellation, and the arrowhead flanks
/// sit `ARROW_HEAD` units back from the tip, spread half that length to each
/// side perpendicular to the final curve direction.
#[verifier::rlimit(100)]
#[verifier::spinoff_prover]
pub fn route_arrow(start_anchor: Point, end_anchor: Point, start_side: Side, end_side: Side) -> (r:
    RoutedArrow)
    requires
        point_within(start_anchor, 7 * DOC_LIMIT as int),
        point_within(end_anchor, 7 * DOC_LIMIT as int),
    ensures
        routed_ok(start_anchor, end_anchor, start_side, end_side, r),
{
    let ns = crate::geom::side_normal(start_side);
    let ne = crate::geom::side_normal(end_side);
    let dx_t = end_anchor.x - start_anchor.x;
    let dy_t = end_anchor.y - start_anchor.y;
    let control1 = Point {
        x: start_anchor.x + div_floor(dx_t * 3, 10) + ns.x * CONTROL_OFFSET,
        y: start_anchor.y + div_floor(dy_t * 3, 10) + ns.y * CONTROL_OFFSET,
    };
    let control2 = Point {
        x: start_anchor.x + div_floor(dx_t * 7, 10) + ne.x * CONTROL_OFFSET,
        y: start_anchor.y + div_floor(dy_t * 7, 10) + ne.y * CONTROL_OFFSET,
    };
    proof {
        crate::geom::lemma_div_scaled_bound(dx_t as int * 3, 10, 5 * DOC_LIMIT as int);
        crate::geom::lemma_div_scaled_bound(dy_t as int * 3, 10, 5 * DOC_LIMIT as int);
        crate::geom::lemma_div_scaled_bound(dx_t as int * 7, 10, 10 * DOC_LIMIT as int);
        crate::geom::lemma_div_scaled_bound(dy_t as int * 7, 10, 10 * DOC_LIMIT as int);
    }
    let polyline = compute_cubic_bezier_points(
        start_anchor,
        control1,
        control2,
        end_anchor,
        CURVE_SEGMENTS,
    );
    let dx = end_anchor.x - control2.x;
    let dy = end_anchor.y - control2.y;
    proof {
        assert(0 <= (dx as int) * (dx as int) <= 0x4000_0000_0000_0000_0000 && 0 <= (dy as int)
            * (dy as int) <= 0x4000_0000_0000_0000_0000) by (nonlinear_arith)
            requires
                crate::geom::abs_spec(dx as int) <= 30 * DOC_LIMIT as int,
                crate::geom::abs_spec(dy as int) <= 30 * DOC_LIMIT as int,
        ;
    }
    let sq = (dx as i128) * (dx as i128) + (dy as i128) * (dy as i128);
    if sq == 0 {
        proof {
            assert(dx as int * dx as int + dy as int * dy as int == 0);
            assert(dx == 0 && dy == 0) by (nonlinear_arith)
                requires
                    dx as int * dx as int + dy as int * dy as int == 0,
            ;
        }
        return RoutedArrow {
            start_anchor,
            end_anchor,
            control1,
            control2,
            polyline,
            head_scale: 0,
            head_left: end_anchor,
            head_right: end_anchor,
        };
    }
    proof {
        assert((1u128 << 126) == 0x4000_0000_0000_0000_0000_0000_0000_0000) by (bit_vector);
    }
    let scale_u = isqrt_u128(sq as u128);
    proof {
        assert(sq as u128 == (dx as int) * (dx as int) + (dy as int) * (dy as int));
        assert((scale_u as int) * (scale_u as int) <= 0x8000_0000_0000_0000_0000);
        assert(scale_u <= 0x1_0000_0000_0000) by (nonlinear_arith)
            requires
                (scale_u as int) * (scale_u as int) <= 0x8000_0000_0000_0000_0000,
                0 <= scale_u as int,
        ;
    }
    let scale = scale_u as i64;
    proof {
        if scale == 0 {
            assert(scale_u == 0);
            assert(((scale_u as int) + 1) * ((scale_u as int) + 1) == 1) by (nonlinear_arith)
                requires
                    scale_u as int == 0,
            ;
            assert((dx as int) * (dx as int) + (dy as int) * (dy as int) < 1);
        }
        crate::geom::lemma_div_scaled_bound(dx as int * 10, scale as int, 300 * DOC_LIMIT as int);
        crate::geom::lemma_div_scaled_bound(dy as int * 10, scale as int, 300 * DOC_LIMIT as int);
        crate::geom::lemma_div_scaled_bound((-dy) as int * 5, scale as int, 150 * DOC_LIMIT as int);
        crate::geom::lemma_div_scaled_bound(dx as int * 5, scale as int, 150 * DOC_LIMIT as int);
        assert(crate::geom::abs_spec(dx as int * 10) <= 300 * DOC_LIMIT as int * scale as int
            && crate::geom::abs_spec(dy as int * 10) <= 300 * DOC_LIMIT as int * scale as int
            && crate::geom::abs_spec((-dy) as int * 5) <= 150 * DOC_LIMIT as int * scale as int
            && crate::geom::abs_spec(dx as int * 5) <= 150 * DOC_LIMIT as int * scale as int)
            by (nonlinear_arith)
            requires
                crate::geom::abs_spec(dx as int) <= 30 * DOC_LIMIT as int,
                crate::geom::abs_spec(dy as int) <= 30 * DOC_LIMIT as int,
                1 <= scale as int,
        ;
    }
    let back_x = div_floor(dx * 10, scale);
    let back_y = div_floor(dy * 10, scale);
    let spread_x = div_floor(-dy * 5, scale);
    let spread_y = div_floor(dx * 5, scale);
    RoutedArrow {
        start_anchor,
        end_anchor,
        control1,
        control2,
        polyline,
        head_scale: scale,
        head_left: Point {
            x: end_anchor.x - back_x + spread_x,
            y: end_anchor.y - back_y + spread_y,
        },
        head_right: Point {
            x: end_anchor.x - back_x - spread_x,
            y: end_anchor.y - back_y - spread_y,
        },
    }
}


/// Index of the first connection at or after `i` with identifier `id`.
pub open spec fn find_conn_from(cs: Seq<Connection>, id: int, i: int) -> Option<int>
    decreases cs.len() - i,
{
    if i < 0 || i >= cs.len() {
        None
    } else if cs[i].id == id {
        Some(i)
    } else {
        find_conn_from(cs, id, i + 1)
    }
}

/// The rank of the connection with identifier `cid` among the connections
/// starting at the given node and side: the number of such connections
/// before it, or zero when it is not among them.
pub open spec fn arrow_rank(cs: Seq<Connection>, node_id: int, side: Side, cid: int) -> int {
    match find_conn_from(cs, cid, 0) {
        Some(j) => if arrow_matches(cs[j], node_id, side) {
            arrow_total(cs.take(j), node_id, side)
        } else {
            0
        },
        None => 0,
    }
}

impl Engine {
    /// The screen rectangle a connection endpoint resolves to: the first
    /// node of the given kind and identifier, or, when the reference
    /// dangles, a zero-size placeholder at the document origin.
    pub open spec fn resolve_rect_spec(self, id: int, kind: NodeKind) -> (Point, Point) {
        let found = match kind {
            NodeKind::Note => match crate::store::find_note_from(
                seq_view(self.store.notes@),
                id,
                0,
            ) {
                Some(i) => Some(
                    (
                        seq_view(self.store.notes@)[i].position,
                        seq_view(self.store.notes@)[i].size,
                    ),
                ),
                None => None,
            },
            NodeKind::Code => match crate::store::find_code_from(
                seq_view(self.store.codes@),
                id,
                0,
            ) {
                Some(i) => Some(
                    (
                        seq_view(self.store.codes@)[i].position,
                        seq_view(self.store.codes@)[i].size,
                    ),
                ),
                None => None,
            },
        };
        match found {
            Some((pos, size)) => (
                Point {
                    x: self.view.to_screen_coord(pos.x as int, self.view.offset.x as int) as i64,
                    y: self.view.to_screen_coord(pos.y as int, self.view.offset.y as int) as i64,
                },
                Point {
                    x: Self::scaled_dim(self.view.zoom as int, size.x as int) as i64,
                    y: Self::scaled_dim(self.view.zoom as int, size.y as int) as i64,
                },
            ),
            None => (
                Point {
                    x: self.view.to_screen_coord(0, self.view.offset.x as int) as i64,
                    y: self.view.to_screen_coord(0, self.view.offset.y as int) as i64,
                },
                Point { x: 0i64, y: 0i64 },
            ),
        }
    }

    /// Resolves a connection endpoint to its screen rectangle, falling back
    /// to the zero-size placeholder at the origin for a dangling reference.
    pub fn resolve_rect(&self, id: usize, kind: NodeKind) -> (r: (Point, Point))
        requires
            self.wf(),
        ensures
            r == self.resolve_rect_spec(id as int, kind),
            point_within(r.0, 6 * DOC_LIMIT as int),
            0 <= r.1.x <= 1600,
            0 <= r.1.y <= 1600,
    {
        let found = match kind {
            NodeKind::Note => {
                match self.store.find_note(id) {
                    Some(i) => {
                        proof {
                            assert(crate::model::note_wf(seq_view(self.store.notes@)[i as int]));
                        }
                        let n = &self.store.notes[i];
                        Some((n.position, n.size))
                    },
                    None => None,
                }
            },
            NodeKind::Code => {
                match self.store.find_code(id) {
                    Some(i) => {
                        proof {
                            assert(crate::model::code_wf(seq_view(self.store.codes@)[i as int]));
                        }
                        let n = &self.store.codes[i];
                        Some((n.position, n.size))
                    },
                    None => None,
                }
            },
        };
        match found {
            Some((pos, size)) => self.node_screen_rect(pos, size),
            None => {
                let corner = self.view.to_screen(Point { x: 0, y: 0 });
                (corner, Point { x: 0, y: 0 })
            },
        }
    }

    /// Routes the connection at `index`: both endpoints are resolved, the
    /// anchors spread the parallel arrows of each (node, side) evenly, and
    /// the curve and arrowhead follow the routed geometry.
    pub fn route_connection(&self, index: usize) -> (r: RoutedArrow)
        requires
            self.wf(),
            index < self.store.connections@.len(),
        ensures
            ({
                let c = self.store.connections@[index as int];
                let cs = self.store.connections@;
                let srect = self.resolve_rect_spec(c.start_node_id as int, c.start_node_kind);
                let erect = self.resolve_rect_spec(c.end_node_id as int, c.end_node_kind);
                let stotal = arrow_total(cs, c.start_node_id as int, c.start_side);
                let etotal = arrow_total(cs, c.end_node_id as int, c.end_side);
                let srank = arrow_rank(cs, c.start_node_id as int, c.start_side, c.id as int);
                let erank = arrow_rank(cs, c.end_node_id as int, c.end_side, c.id as int);
                let sa = anchor_point_spec(srect.0, srect.1, c.start_side, srank, stotal);
                let ea = anchor_point_spec(erect.0, erect.1, c.end_side, erank, etotal);
                routed_ok(sa, ea, c.start_side, c.end_side, r)
            }),
    {
        let c = self.store.connections[index];
        let srect = self.resolve_rect(c.start_node_id, c.start_node_kind);
        let erect = self.resolve_rect(c.end_node_id, c.end_node_kind);
        let (sidx, stotal) = get_arrow_index(
            &self.store.connections,
            c.start_node_id,
            c.start_side,
            c.id,
        );
        let (eidx, etotal) = get_arrow_index(
            &self.store.connections,
            c.end_node_id,
            c.end_side,
            c.id,
        );
        proof {
            lemma_find_conn_present(self.store.connections@, c.id as int, index as int);
            let cs = self.store.connections@;
            let j = find_conn_from(cs, c.id as int, 0).unwrap();
            assert(cs[j].id == c.id);
            assert(cs[j] == c);
            assert(sidx as int == arrow_rank(cs, c.start_node_id as int, c.start_side, c.id as int));
            assert(eidx as int == arrow_rank(cs, c.end_node_id as int, c.end_side, c.id as int));
            lemma_arrow_total_bound(cs, c.start_node_id as int, c.start_side);
            lemma_arrow_total_bound(cs, c.end_node_id as int, c.end_side);
            assert(stotal <= 1_000_000 && etotal <= 1_000_000);
        }
        let sa = anchor_point(srect.0, srect.1, c.start_side, sidx, stotal);
        let ea = anchor_point(erect.0, erect.1, c.end_side, eidx, etotal);
        route_arrow(sa, ea, c.start_side, c.end_side)
    }

    /// Routes the live preview curve of a connection gesture in progress:
    /// from the midpoint anchor of the pending endpoint's side to the
    /// pointer, bowing along the pending side's normal at both ends.
    pub fn route_preview(&self, pointer: Point) -> (r: RoutedArrow)
        requires
            self.wf(),
            self.pending_connection is Some,
            point_within(pointer, crate::geom::SCREEN_LIMIT as int),
        ensures
            ({
                let pending = self.pending_connection.unwrap();
                let rect = self.resolve_rect_spec(pending.node_id as int, pending.node_kind);
                let sa = anchor_point_spec(rect.0, rect.1, pending.side, 0, 1);
                routed_ok(sa, pointer, pending.side, pending.side, r)
            }),
    {
        let pending = match self.pending_connection {
            Some(p) => p,
            None => {
                proof {
                    assert(false);
                }
                PendingConnection { node_id: 0, node_kind: NodeKind::Note, side: Side::Top }
            },
        };
        let rect = self.resolve_rect(pending.node_id, pending.node_kind);
        let sa = anchor_point(rect.0, rect.1, pending.side, 0, 1);
        route_arrow(sa, pointer, pending.side, pending.side)
    }
}

/// A connection list with unique identifiers finds the connection at
/// `index` by its own identifier.
proof fn lemma_find_conn_present(cs: Seq<Connection>, id: int, index: int)
    requires
        0 <= index < cs.len(),
        cs[index].id == id,
        forall|i: int, j: int|
            0 <= i < cs.len() && 0 <= j < cs.len() && i != j ==> (#[trigger] cs[i]).id != (
            #[trigger] cs[j]).id,
    ensures
        find_conn_from(cs, id, 0) == Some(index),
{
    lemma_find_conn_scan(cs, id, index, 0);
}

/// The search for a uniquely-identified connection, started anywhere at or
/// before it, lands on it.
proof fn lemma_find_conn_scan(cs: Seq<Connection>, id: int, index: int, from: int)
    requires
        0 <= from <= index < cs.len(),
        cs[index].id == id,
        forall|i: int, j: int|
            0 <= i < cs.len() && 0 <= j < cs.len() && i != j ==> (#[trigger] cs[i]).id != (
            #[trigger] cs[j]).id,
    ensures
        find_conn_from(cs, id, from) == Some(index),
    decreases index - from,
{
    if from < index {
        assert(cs[from].id != cs[index].id);
        lemma_find_conn_scan(cs, id, index, from + 1);
    }
}

} // verus!
