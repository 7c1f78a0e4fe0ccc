//! The entity model: notes, code snippets, connections, ink strokes, and the
//! full-document snapshot that undo/redo and persistence work with.
use vstd::prelude::*;

use crate::geom::{point_within, Point, Side, DOC_LIMIT, ZOOM_MAX, ZOOM_MIN};

verus! {

/// Sizes are clamped per axis to `[SIZE_MIN, SIZE_MAX]` document units.
pub const SIZE_MIN: i64 = 1;

/// Largest node extent per axis, in document units.
pub const SIZE_MAX: i64 = 400;

/// Cap on how many entities one collection may hold.
pub const MAX_ENTITIES: usize = 1_000_000;

/// Which collection a node lives in.
#[derive(Clone, Copy, PartialEq, Eq, Structural, Debug)]
pub enum NodeKind {
    Note,
    Code,
}

/// An RGBA color with premultiplied alpha.
#[derive(Clone, Copy, PartialEq, Eq, Structural, Debug)]
pub struct Color {
    pub red: u8,
    pub green: u8,
    pub blue: u8,
    pub alpha: u8,
}

/// A free-text note placed on the canvas.
#[derive(PartialEq, Eq, Debug)]
pub struct NoteNode {
    pub id: usize,
    pub position: Point,
    pub size: Point,
    pub text: Vec<u8>,
    pub dragging: bool,
    pub locked: bool,
}

/// A code-reference snippet placed on the canvas.
#[derive(PartialEq, Eq, Debug)]
pub struct CodeNode {
    pub id: usize,
    pub position: Point,
    pub size: Point,
    pub file_path: Vec<u8>,
    pub code: Vec<u8>,
    pub dragging: bool,
    pub locked: bool,
    pub line_offset: Option<usize>,
}

/// A routed directional arrow between two nodes, referenced by id and kind.
#[derive(Clone, Copy, PartialEq, Eq, Structural, Debug)]
pub struct Connection {
    pub id: usize,
    pub start_node_id: usize,
    pub start_node_kind: NodeKind,
    pub start_side: Side,
    pub end_node_id: usize,
    pub end_node_kind: NodeKind,
    pub end_side: Side,
    pub color: Color,
}

/// A freehand ink stroke: drawing-ordered points in document space.
#[derive(PartialEq, Eq, Debug)]
pub struct Stroke {
    pub points: Vec<Point>,
    pub color: Color,
    /// Stroke width in thousandths of a document unit.
    pub thickness: i64,
}

/// An owned full copy of the document: the unit of undo/redo and persistence.
#[derive(PartialEq, Eq, Debug)]
pub struct Snapshot {
    pub notes: Vec<NoteNode>,
    pub codes: Vec<CodeNode>,
    pub connections: Vec<Connection>,
    pub strokes: Vec<Stroke>,
    /// Zoom in thousandths.
    pub zoom: i64,
    pub offset: Point,
}

/// Mathematical value of a note.
#[verifier::ext_equal]
pub ghost struct NoteV {
    pub id: int,
    pub position: Point,
    pub size: Point,
    pub text: Seq<u8>,
    pub dragging: bool,
    pub locked: bool,
}

/// Mathematical value of a code node.
#[verifier::ext_equal]
pub ghost struct CodeV {
    pub id: int,
    pub position: Point,
    pub size: Point,
    pub file_path: Seq<u8>,
    pub code: Seq<u8>,
    pub dragging: bool,
    pub locked: bool,
    pub line_offset: Option<usize>,
}

/// Mathematical value of a stroke.
#[verifier::ext_equal]
pub ghost struct StrokeV {
    pub points: Seq<Point>,
    pub color: Color,
    pub thickness: i64,
}

/// Mathematical value of a snapshot.
#[verifier::ext_equal]
pub ghost struct SnapshotV {
    pub notes: Seq<NoteV>,
    pub codes: Seq<CodeV>,
    pub connections: Seq<Connection>,
    pub strokes: Seq<StrokeV>,
    pub zoom: i64,
    pub offset: Point,
}

impl View for NoteNode {
    type V = NoteV;

    open spec fn view(&self) -> NoteV {
        NoteV {
            id: self.id as int,
            position: self.position,
            size: self.size,
            text: self.text@,
            dragging: self.dragging,
            locked: self.locked,
        }
    }
}

impl View for CodeNode {
    type V = CodeV;

    open spec fn view(&self) -> CodeV {
        CodeV {
            id: self.id as int,
            position: self.position,
            size: self.size,
            file_path: self.file_path@,
            code: self.code@,
            dragging: self.dragging,
            locked: self.locked,
            line_offset: self.line_offset,
        }
    }
}

impl View for Stroke {
    type V = StrokeV;

    open spec fn view(&self) -> StrokeV {
        StrokeV { points: self.points@, color: self.color, thickness: self.thickness }
    }
}

/// The sequence of mathematical values of a sequence of viewable values.
pub open spec fn seq_view<T: View>(s: Seq<T>) -> Seq<T::V> {
    s.map_values(|t: T| t@)
}

impl View for Snapshot {
    type V = SnapshotV;

    open spec fn view(&self) -> SnapshotV {
        SnapshotV {
            notes: seq_view(self.notes@),
            codes: seq_view(self.codes@),
            connections: self.connections@,
            strokes: seq_view(self.strokes@),
            zoom: self.zoom,
            offset: self.offset,
        }
    }
}

/// A node size is valid when both axes are clamped to `[SIZE_MIN, SIZE_MAX]`.
pub open spec fn size_wf(size: Point) -> bool {
    &&& SIZE_MIN <= size.x <= SIZE_MAX
    &&& SIZE_MIN <= size.y <= SIZE_MAX
}

/// Validity of a note: position on the canvas, size clamped.
pub open spec fn note_wf(n: NoteV) -> bool {
    &&& point_within(n.position, DOC_LIMIT as int)
    &&& size_wf(n.size)
}

/// Validity of a code node: position on the canvas, size clamped.
pub open spec fn code_wf(c: CodeV) -> bool {
    &&& point_within(c.position, DOC_LIMIT as int)
    &&& size_wf(c.size)
}

/// Validity of a stroke: every point on the canvas.
pub open spec fn stroke_wf(s: StrokeV) -> bool {
    &&& forall|i: int| 0 <= i < s.points.len() ==> point_within(#[trigger] s.points[i], DOC_LIMIT as int)
    &&& 0 <= s.thickness <= 1_000_000
}

/// Validity of the four entity collections: bounded, every element valid.
pub open spec fn snapshot_collections_wf(
    notes: Seq<NoteV>,
    codes: Seq<CodeV>,
    connections: Seq<Connection>,
    strokes: Seq<StrokeV>,
) -> bool {
    &&& notes.len() <= MAX_ENTITIES
    &&& codes.len() <= MAX_ENTITIES
    &&& connections.len() <= MAX_ENTITIES
    &&& strokes.len() <= MAX_ENTITIES
    &&& forall|i: int| 0 <= i < notes.len() ==> note_wf(#[trigger] notes[i])
    &&& forall|i: int| 0 <= i < codes.len() ==> code_wf(#[trigger] codes[i])
    &&& forall|i: int| 0 <= i < strokes.len() ==> stroke_wf(#[trigger] strokes[i])
}

/// Validity of a whole snapshot: valid collections, a clamped zoom and an
/// on-canvas offset.
pub open spec fn snapshot_wf(s: SnapshotV) -> bool {
    &&& snapshot_collections_wf(s.notes, s.codes, s.connections, s.strokes)
    &&& ZOOM_MIN <= s.zoom <= ZOOM_MAX
    &&& point_within(s.offset, DOC_LIMIT as int)
}

/// All note, code and connection identifiers lie below `next_id` and are
/// pairwise distinct, across both node collections.
pub open spec fn ids_wf(
    notes: Seq<NoteV>,
    codes: Seq<CodeV>,
    connections: Seq<Connection>,
    next_id: int,
) -> bool {
    &&& 0 < next_id
    &&& forall|i: int| 0 <= i < notes.len() ==> 0 < (#[trigger] notes[i]).id < next_id
    &&& forall|i: int| 0 <= i < codes.len() ==> 0 < (#[trigger] codes[i]).id < next_id
    &&& forall|i: int| 0 <= i < connections.len() ==> 0 < (#[trigger] connections[i]).id < next_id
    &&& forall|i: int, j: int|
        0 <= i < notes.len() && 0 <= j < notes.len() && i != j ==> (#[trigger] notes[i]).id != (
        #[trigger] notes[j]).id
    &&& forall|i: int, j: int|
        0 <= i < codes.len() && 0 <= j < codes.len() && i != j ==> (#[trigger] codes[i]).id != (
        #[trigger] codes[j]).id
    &&& forall|i: int, j: int|
        0 <= i < notes.len() && 0 <= j < codes.len() ==> (#[trigger] notes[i]).id != (
        #[trigger] codes[j]).id
    &&& forall|i: int, j: int|
        0 <= i < connections.len() && 0 <= j < connections.len() && i != j ==> (
        #[trigger] connections[i]).id != (#[trigger] connections[j]).id
}

/// Copies a byte vector; the copy has the same mathematical value.
pub fn clone_bytes(v: &Vec<u8>) -> (r: Vec<u8>)
    ensures
        r@ == v@,
{
    let r = v.clone();
    proof {
        assert(r@ =~= v@);
    }
    r
}

/// Copies a point vector; the copy has the same mathematical value.
pub fn clone_points(v: &Vec<Point>) -> (r: Vec<Point>)
    ensures
        r@ == v@,
{
    let r = v.clone();
    proof {
        assert(r@ =~= v@);
    }
    r
}

impl Clone for NoteNode {
    /// A deep copy with the same mathematical value.
    fn clone(&self) -> (r: Self)
        ensures
            r@ == self@,
    {
        NoteNode {
            id: self.id,
            position: self.position,
            size: self.size,
            text: clone_bytes(&self.text),
            dragging: self.dragging,
            locked: self.locked,
        }
    }
}

impl Clone for CodeNode {
    /// A deep copy with the same mathematical value.
    fn clone(&self) -> (r: Self)
        ensures
            r@ == self@,
    {
        CodeNode {
            id: self.id,
            position: self.position,
            size: self.size,
            file_path: clone_bytes(&self.file_path),
            code: clone_bytes(&self.code),
            dragging: self.dragging,
            locked: self.locked,
            line_offset: self.line_offset,
        }
    }
}

impl Clone for Stroke {
    /// A deep copy with the same mathematical value.
    fn clone(&self) -> (r: Self)
        ensures
            r@ == self@,
    {
        Stroke { points: clone_points(&self.points), color: self.color, thickness: self.thickness }
    }
}

/// Copies a note collection, element by element.
pub fn clone_notes(v: &Vec<NoteNode>) -> (r: Vec<NoteNode>)
    ensures
        seq_view(r@) == seq_view(v@),
        r@.len() == v@.len(),
{
    let r = v.clone();
    proof {
        assert forall|i: int| 0 <= i < v@.len() implies seq_view(r@)[i] == seq_view(v@)[i] by {
            assert(cloned::<NoteNode>(v@[i], r@[i]));
        }
        assert(seq_view(r@) =~= seq_view(v@));
    }
    r
}

/// Copies a code-node collection, element by element.
pub fn clone_codes(v: &Vec<CodeNode>) -> (r: Vec<CodeNode>)
    ensures
        seq_view(r@) == seq_view(v@),
        r@.len() == v@.len(),
{
    let r = v.clone();
    proof {
        assert forall|i: int| 0 <= i < v@.len() implies seq_view(r@)[i] == seq_view(v@)[i] by {
            assert(cloned::<CodeNode>(v@[i], r@[i]));
        }
        assert(seq_view(r@) =~= seq_view(v@));
    }
    r
}

/// Copies a connection collection.
pub fn clone_connections(v: &Vec<Connection>) -> (r: Vec<Connection>)
    ensures
        r@ == v@,
{
    let r = v.clone();
    proof {
        assert forall|i: int| 0 <= i < v@.len() implies r@[i] == v@[i] by {
            assert(cloned::<Connection>(v@[i], r@[i]));
        }
        assert(r@ =~= v@);
    }
    r
}

/// Copies a stroke collection, element by element.
pub fn clone_strokes(v: &Vec<Stroke>) -> (r: Vec<Stroke>)
    ensures
        seq_view(r@) == seq_view(v@),
        r@.len() == v@.len(),
{
    let r = v.clone();
    proof {
        assert forall|i: int| 0 <= i < v@.len() implies seq_view(r@)[i] == seq_view(v@)[i] by {
            assert(cloned::<Stroke>(v@[i], r@[i]));
        }
        assert(seq_view(r@) =~= seq_view(v@));
    }
    r
}


/// Copies a snapshot collection, element by element.
pub fn clone_snapshots(v: &Vec<Snapshot>) -> (r: Vec<Snapshot>)
    ensures
        seq_view(r@) == seq_view(v@),
        r@.len() == v@.len(),
{
    let r = v.clone();
    proof {
        assert forall|i: int| 0 <= i < v@.len() implies seq_view(r@)[i] == seq_view(v@)[i] by {
            assert(cloned::<Snapshot>(v@[i], r@[i]));
        }
        assert(seq_view(r@) =~= seq_view(v@));
    }
    r
}

impl Clone for Snapshot {
    /// A deep copy with the same mathematical value.
    fn clone(&self) -> (r: Self)
        ensures
            r@ == self@,
    {
        Snapshot {
            notes: clone_notes(&self.notes),
            codes: clone_codes(&self.codes),
            connections: clone_connections(&self.connections),
            strokes: clone_strokes(&self.strokes),
            zoom: self.zoom,
            offset: self.offset,
        }
    }
}

} // verus!
