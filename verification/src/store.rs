//! The entity store: owns the mutable collections, issues identifiers from a
//! single monotonically increasing counter shared by every entity kind, and
//! provides lookup, deletion and z-order reordering.
use vstd::prelude::*;

use crate::geom::{clamp_i64, clamp_spec, point_within, Point, DOC_LIMIT};
use crate::model::{
    code_wf, ids_wf, note_wf, seq_view, snapshot_collections_wf, stroke_wf, CodeNode, CodeV,
    Connection, NodeKind, NoteNode, NoteV, Stroke, StrokeV, MAX_ENTITIES, SIZE_MAX, SIZE_MIN,
};

verus! {

/// Default width of a fresh note node, in document units.
pub const NOTE_WIDTH: i64 = 200;

/// Default height of a fresh note or code node, in document units.
pub const NODE_HEIGHT: i64 = 40;

/// Default width of a fresh code node, in document units.
pub const CODE_WIDTH: i64 = 300;

/// Which neighbour a reorder swaps a node with.
#[derive(Clone, Copy, PartialEq, Eq, Structural, Debug)]
pub enum Direction {
    Backward,
    Forward,
}


/// Index of the first note at or after `i` with identifier `id`.
pub open spec fn find_note_from(notes: Seq<NoteV>, id: int, i: int) -> Option<int>
    decreases notes.len() - i,
{
    if i < 0 || i >= notes.len() {
        None
    } else if notes[i].id == id {
        Some(i)
    } else {
        find_note_from(notes, id, i + 1)
    }
}

/// Index of the first code node at or after `i` with identifier `id`.
pub open spec fn find_code_from(codes: Seq<CodeV>, id: int, i: int) -> Option<int>
    decreases codes.len() - i,
{
    if i < 0 || i >= codes.len() {
        None
    } else if codes[i].id == id {
        Some(i)
    } else {
        find_code_from(codes, id, i + 1)
    }
}

/// Owns the entity collections and the identifier counter.
#[derive(PartialEq, Eq, Debug)]
pub struct Store {
    pub next_id: usize,
    pub notes: Vec<NoteNode>,
    pub codes: Vec<CodeNode>,
    pub connections: Vec<Connection>,
    pub strokes: Vec<Stroke>,
}

impl Store {
    /// The store's invariant: bounded collections of valid entities whose
    /// identifiers are pairwise distinct and below the counter.
    pub open spec fn wf(self) -> bool {
        &&& snapshot_collections_wf(
            seq_view(self.notes@),
            seq_view(self.codes@),
            self.connections@,
            seq_view(self.strokes@),
        )
        &&& ids_wf(
            seq_view(self.notes@),
            seq_view(self.codes@),
            self.connections@,
            self.next_id as int,
        )
    }

    /// A store with no entities; identifiers start at one.
    pub fn new() -> (r: Store)
        ensures
            r.wf(),
            r.next_id == 1,
            r.notes@.len() == 0,
            r.codes@.len() == 0,
            r.connections@.len() == 0,
            r.strokes@.len() == 0,
    {
        let r = Store {
            next_id: 1,
            notes: Vec::new(),
            codes: Vec::new(),
            connections: Vec::new(),
            strokes: Vec::new(),
        };
        proof {
            assert(seq_view(r.notes@) =~= Seq::<NoteV>::empty());
            assert(seq_view(r.codes@) =~= Seq::<CodeV>::empty());
            assert(seq_view(r.strokes@) =~= Seq::<StrokeV>::empty());
        }
        r
    }

    /// The mathematical value of the note a fresh creation appends.
    pub open spec fn fresh_note(self, at: Point) -> NoteV {
        NoteV {
            id: self.next_id as int,
            position: Point {
                x: clamp_spec(at.x as int, -DOC_LIMIT as int, DOC_LIMIT as int) as i64,
                y: clamp_spec(at.y as int, -DOC_LIMIT as int, DOC_LIMIT as int) as i64,
            },
            size: Point { x: NOTE_WIDTH, y: NODE_HEIGHT },
            text: Seq::empty(),
            dragging: false,
            locked: false,
        }
    }

    /// Creates a note node at `at` (clamped onto the canvas) with the default
    /// size and a fresh identifier; the counter advances.
    pub fn create_note(&mut self, at: Point)
        requires
            old(self).wf(),
            old(self).notes@.len() < MAX_ENTITIES,
            old(self).next_id < usize::MAX,
        ensures
            final(self).wf(),
            seq_view(final(self).notes@) == seq_view(old(self).notes@).push(
                old(self).fresh_note(at),
            ),
            final(self).codes@ == old(self).codes@,
            final(self).connections@ == old(self).connections@,
            final(self).strokes@ == old(self).strokes@,
            final(self).next_id == old(self).next_id + 1,
    {
        let x = clamp_i64(at.x, -DOC_LIMIT, DOC_LIMIT);
        let y = clamp_i64(at.y, -DOC_LIMIT, DOC_LIMIT);
        let node = NoteNode {
            id: self.next_id,
            position: Point { x, y },
            size: Point { x: NOTE_WIDTH, y: NODE_HEIGHT },
            text: Vec::new(),
            dragging: false,
            locked: false,
        };
        self.notes.push(node);
        self.next_id = self.next_id + 1;
        proof {
            assert(seq_view(self.notes@) =~= seq_view(old(self).notes@).push(
                old(self).fresh_note(at),
            ));
        }
    }

    /// The mathematical value of the code node a fresh creation appends.
    pub open spec fn fresh_code(self, at: Point) -> CodeV {
        CodeV {
            id: self.next_id as int,
            position: Point {
                x: clamp_spec(at.x as int, -DOC_LIMIT as int, DOC_LIMIT as int) as i64,
                y: clamp_spec(at.y as int, -DOC_LIMIT as int, DOC_LIMIT as int) as i64,
            },
            size: Point { x: CODE_WIDTH, y: NODE_HEIGHT },
            file_path: Seq::empty(),
            code: Seq::empty(),
            dragging: false,
            locked: false,
            line_offset: None,
        }
    }

    /// Creates a code node at `at` (clamped onto the canvas) with the default
    /// size and a fresh identifier; the counter advances.
    pub fn create_code(&mut self, at: Point)
        requires
            old(self).wf(),
            old(self).codes@.len() < MAX_ENTITIES,
            old(self).next_id < usize::MAX,
        ensures
            final(self).wf(),
            seq_view(final(self).codes@) == seq_view(old(self).codes@).push(
                old(self).fresh_code(at),
            ),
            final(self).notes@ == old(self).notes@,
            final(self).connections@ == old(self).connections@,
            final(self).strokes@ == old(self).strokes@,
            final(self).next_id == old(self).next_id + 1,
    {
        let x = clamp_i64(at.x, -DOC_LIMIT, DOC_LIMIT);
        let y = clamp_i64(at.y, -DOC_LIMIT, DOC_LIMIT);
        let node = CodeNode {
            id: self.next_id,
            position: Point { x, y },
            size: Point { x: CODE_WIDTH, y: NODE_HEIGHT },
            file_path: Vec::new(),
            code: Vec::new(),
            dragging: false,
            locked: false,
            line_offset: None,
        };
        self.codes.push(node);
        self.next_id = self.next_id + 1;
        proof {
            assert(seq_view(self.codes@) =~= seq_view(old(self).codes@).push(
                old(self).fresh_code(at),
            ));
        }
    }

    /// Deletes the node of `kind` at position `index` in its collection.
    /// Connections that referenced it stay behind as dangling references.
    pub fn delete_node(&mut self, kind: NodeKind, index: usize)
        requires
            old(self).wf(),
            kind == NodeKind::Note ==> index < old(self).notes@.len(),
            kind == NodeKind::Code ==> index < old(self).codes@.len(),
        ensures
            final(self).wf(),
            kind == NodeKind::Note ==> seq_view(final(self).notes@) == seq_view(
                old(self).notes@,
            ).remove(index as int) && final(self).codes@ == old(self).codes@,
            kind == NodeKind::Code ==> seq_view(final(self).codes@) == seq_view(
                old(self).codes@,
            ).remove(index as int) && final(self).notes@ == old(self).notes@,
            final(self).connections@ == old(self).connections@,
            final(self).strokes@ == old(self).strokes@,
            final(self).next_id == old(self).next_id,
    {
        match kind {
            NodeKind::Note => {
                self.notes.remove(index);
                proof {
                    assert(seq_view(self.notes@) =~= seq_view(old(self).notes@).remove(
                        index as int,
                    ));
                }
            },
            NodeKind::Code => {
                self.codes.remove(index);
                proof {
                    assert(seq_view(self.codes@) =~= seq_view(old(self).codes@).remove(
                        index as int,
                    ));
                }
            },
        }
    }

    /// What a z-order swap does to a sequence: the neighbouring elements trade
    /// places, or nothing changes at a boundary.
    pub open spec fn reorder_spec<T>(s: Seq<T>, index: int, dir: Direction) -> Seq<T> {
        match dir {
            Direction::Backward => if index > 0 {
                s.update(index, s[index - 1]).update(index - 1, s[index])
            } else {
                s
            },
            Direction::Forward => if index + 1 < s.len() {
                s.update(index, s[index + 1]).update(index + 1, s[index])
            } else {
                s
            },
        }
    }

    /// Swaps the node of `kind` at `index` with its z-order neighbour; a no-op
    /// at the boundary of the collection.
    #[verifier::rlimit(50)]
    pub fn reorder_node(&mut self, kind: NodeKind, index: usize, dir: Direction)
        requires
            old(self).wf(),
            kind == NodeKind::Note ==> index < old(self).notes@.len(),
            kind == NodeKind::Code ==> index < old(self).codes@.len(),
        ensures
            final(self).wf(),
            kind == NodeKind::Note ==> seq_view(final(self).notes@) == Self::reorder_spec(
                seq_view(old(self).notes@),
                index as int,
                dir,
            ) && final(self).codes@ == old(self).codes@,
            kind == NodeKind::Code ==> seq_view(final(self).codes@) == Self::reorder_spec(
                seq_view(old(self).codes@),
                index as int,
                dir,
            ) && final(self).notes@ == old(self).notes@,
            final(self).connections@ == old(self).connections@,
            final(self).strokes@ == old(self).strokes@,
            final(self).next_id == old(self).next_id,
    {
        let i: usize;
        let j: usize;
        match dir {
            Direction::Backward => {
                if index == 0 {
                    return ;
                }
                i = index - 1;
                j = index;
            },
            Direction::Forward => {
                let len = match kind {
                    NodeKind::Note => self.notes.len(),
                    NodeKind::Code => self.codes.len(),
                };
                if index + 1 >= len {
                    return ;
                }
                i = index;
                j = index + 1;
            },
        }
        match kind {
            NodeKind::Note => {
                let second = self.notes.remove(j);
                let first = self.notes.remove(i);
                self.notes.insert(i, second);
                self.notes.insert(j, first);
                proof {
                    assert(seq_view(self.notes@) =~= Self::reorder_spec(
                        seq_view(old(self).notes@),
                        index as int,
                        dir,
                    ));
                }
            },
            NodeKind::Code => {
                let second = self.codes.remove(j);
                let first = self.codes.remove(i);
                self.codes.insert(i, second);
                self.codes.insert(j, first);
                proof {
                    assert(seq_view(self.codes@) =~= Self::reorder_spec(
                        seq_view(old(self).codes@),
                        index as int,
                        dir,
                    ));
                }
            },
        }
    }


    /// Replaces the text of the note at `index`.
    pub fn set_note_text(&mut self, index: usize, text: Vec<u8>)
        requires
            old(self).wf(),
            index < old(self).notes@.len(),
        ensures
            final(self).wf(),
            seq_view(final(self).notes@) == seq_view(old(self).notes@).update(
                index as int,
                NoteV { text: text@, ..seq_view(old(self).notes@)[index as int] },
            ),
            final(self).codes@ == old(self).codes@,
            final(self).connections@ == old(self).connections@,
            final(self).strokes@ == old(self).strokes@,
            final(self).next_id == old(self).next_id,
    {
        let mut node = self.notes.remove(index);
        node.text = text;
        self.notes.insert(index, node);
        proof {
            assert(seq_view(self.notes@) =~= seq_view(old(self).notes@).update(
                index as int,
                NoteV { text: text@, ..seq_view(old(self).notes@)[index as int] },
            ));
        }
    }

    /// Replaces the snippet text of the code node at `index`.
    pub fn set_code_text(&mut self, index: usize, code: Vec<u8>)
        requires
            old(self).wf(),
            index < old(self).codes@.len(),
        ensures
            final(self).wf(),
            seq_view(final(self).codes@) == seq_view(old(self).codes@).update(
                index as int,
                CodeV { code: code@, ..seq_view(old(self).codes@)[index as int] },
            ),
            final(self).notes@ == old(self).notes@,
            final(self).connections@ == old(self).connections@,
            final(self).strokes@ == old(self).strokes@,
            final(self).next_id == old(self).next_id,
    {
        let mut node = self.codes.remove(index);
        node.code = code;
        self.codes.insert(index, node);
        proof {
            assert(seq_view(self.codes@) =~= seq_view(old(self).codes@).update(
                index as int,
                CodeV { code: code@, ..seq_view(old(self).codes@)[index as int] },
            ));
        }
    }

    /// Replaces the file path of the code node at `index`.
    pub fn set_code_path(&mut self, index: usize, path: Vec<u8>)
        requires
            old(self).wf(),
            index < old(self).codes@.len(),
        ensures
            final(self).wf(),
            seq_view(final(self).codes@) == seq_view(old(self).codes@).update(
                index as int,
                CodeV { file_path: path@, ..seq_view(old(self).codes@)[index as int] },
            ),
            final(self).notes@ == old(self).notes@,
            final(self).connections@ == old(self).connections@,
            final(self).strokes@ == old(self).strokes@,
            final(self).next_id == old(self).next_id,
    {
        let mut node = self.codes.remove(index);
        node.file_path = path;
        self.codes.insert(index, node);
        proof {
            assert(seq_view(self.codes@) =~= seq_view(old(self).codes@).update(
                index as int,
                CodeV { file_path: path@, ..seq_view(old(self).codes@)[index as int] },
            ));
        }
    }

    /// The size a resize request settles on: clamped per axis.
    pub open spec fn clamped_size(w: int, h: int) -> Point {
        Point {
            x: clamp_spec(w, SIZE_MIN as int, SIZE_MAX as int) as i64,
            y: clamp_spec(h, SIZE_MIN as int, SIZE_MAX as int) as i64,
        }
    }

    /// Resizes the node of `kind` at `index`; each axis is clamped into
    /// `[SIZE_MIN, SIZE_MAX]`, so the stored size never leaves that range.
    pub fn set_node_size(&mut self, kind: NodeKind, index: usize, w: i64, h: i64)
        requires
            old(self).wf(),
            kind == NodeKind::Note ==> index < old(self).notes@.len(),
            kind == NodeKind::Code ==> index < old(self).codes@.len(),
        ensures
            final(self).wf(),
            kind == NodeKind::Note ==> seq_view(final(self).notes@) == seq_view(
                old(self).notes@,
            ).update(
                index as int,
                NoteV {
                    size: Self::clamped_size(w as int, h as int),
                    ..seq_view(old(self).notes@)[index as int]
                },
            ) && final(self).codes@ == old(self).codes@,
            kind == NodeKind::Code ==> seq_view(final(self).codes@) == seq_view(
                old(self).codes@,
            ).update(
                index as int,
                CodeV {
                    size: Self::clamped_size(w as int, h as int),
                    ..seq_view(old(self).codes@)[index as int]
                },
            ) && final(self).notes@ == old(self).notes@,
            final(self).connections@ == old(self).connections@,
            final(self).strokes@ == old(self).strokes@,
            final(self).next_id == old(self).next_id,
    {
        let size = Point {
            x: clamp_i64(w, SIZE_MIN, SIZE_MAX),
            y: clamp_i64(h, SIZE_MIN, SIZE_MAX),
        };
        match kind {
            NodeKind::Note => {
                let mut node = self.notes.remove(index);
                node.size = size;
                self.notes.insert(index, node);
                proof {
                    assert(seq_view(self.notes@) =~= seq_view(old(self).notes@).update(
                        index as int,
                        NoteV {
                            size: Self::clamped_size(w as int, h as int),
                            ..seq_view(old(self).notes@)[index as int]
                        },
                    ));
                }
            },
            NodeKind::Code => {
                let mut node = self.codes.remove(index);
                node.size = size;
                self.codes.insert(index, node);
                proof {
                    assert(seq_view(self.codes@) =~= seq_view(old(self).codes@).update(
                        index as int,
                        CodeV {
                            size: Self::clamped_size(w as int, h as int),
                            ..seq_view(old(self).codes@)[index as int]
                        },
                    ));
                }
            },
        }
    }

    /// Sets or clears the transient dragging flag of a node.
    pub fn set_node_dragging(&mut self, kind: NodeKind, index: usize, dragging: bool)
        requires
            old(self).wf(),
            kind == NodeKind::Note ==> index < old(self).notes@.len(),
            kind == NodeKind::Code ==> index < old(self).codes@.len(),
        ensures
            final(self).wf(),
            kind == NodeKind::Note ==> seq_view(final(self).notes@) == seq_view(
                old(self).notes@,
            ).update(
                index as int,
                NoteV { dragging, ..seq_view(old(self).notes@)[index as int] },
            ) && final(self).codes@ == old(self).codes@,
            kind == NodeKind::Code ==> seq_view(final(self).codes@) == seq_view(
                old(self).codes@,
            ).update(
                index as int,
                CodeV { dragging, ..seq_view(old(self).codes@)[index as int] },
            ) && final(self).notes@ == old(self).notes@,
            final(self).connections@ == old(self).connections@,
            final(self).strokes@ == old(self).strokes@,
            final(self).next_id == old(self).next_id,
    {
        match kind {
            NodeKind::Note => {
                let mut node = self.notes.remove(index);
                node.dragging = dragging;
                self.notes.insert(index, node);
                proof {
                    assert(seq_view(self.notes@) =~= seq_view(old(self).notes@).update(
                        index as int,
                        NoteV { dragging, ..seq_view(old(self).notes@)[index as int] },
                    ));
                }
            },
            NodeKind::Code => {
                let mut node = self.codes.remove(index);
                node.dragging = dragging;
                self.codes.insert(index, node);
                proof {
                    assert(seq_view(self.codes@) =~= seq_view(old(self).codes@).update(
                        index as int,
                        CodeV { dragging, ..seq_view(old(self).codes@)[index as int] },
                    ));
                }
            },
        }
    }

    /// The position a drag step settles on: the delta added, each axis
    /// clamped back onto the canvas.
    pub open spec fn moved_position(pos: Point, delta: Point) -> Point {
        Point {
            x: clamp_spec(pos.x as int + delta.x as int, -DOC_LIMIT as int, DOC_LIMIT as int) as i64,
            y: clamp_spec(pos.y as int + delta.y as int, -DOC_LIMIT as int, DOC_LIMIT as int) as i64,
        }
    }

    /// Moves the node of `kind` at `index` by a document-space delta,
    /// clamping the position onto the canvas.
    pub fn translate_node(&mut self, kind: NodeKind, index: usize, delta: Point)
        requires
            old(self).wf(),
            point_within(delta, 50 * DOC_LIMIT as int),
            kind == NodeKind::Note ==> index < old(self).notes@.len(),
            kind == NodeKind::Code ==> index < old(self).codes@.len(),
        ensures
            final(self).wf(),
            kind == NodeKind::Note ==> seq_view(final(self).notes@) == seq_view(
                old(self).notes@,
            ).update(
                index as int,
                NoteV {
                    position: Self::moved_position(
                        seq_view(old(self).notes@)[index as int].position,
                        delta,
                    ),
                    ..seq_view(old(self).notes@)[index as int]
                },
            ) && final(self).codes@ == old(self).codes@,
            kind == NodeKind::Code ==> seq_view(final(self).codes@) == seq_view(
                old(self).codes@,
            ).update(
                index as int,
                CodeV {
                    position: Self::moved_position(
                        seq_view(old(self).codes@)[index as int].position,
                        delta,
                    ),
                    ..seq_view(old(self).codes@)[index as int]
                },
            ) && final(self).notes@ == old(self).notes@,
            final(self).connections@ == old(self).connections@,
            final(self).strokes@ == old(self).strokes@,
            final(self).next_id == old(self).next_id,
    {
        match kind {
            NodeKind::Note => {
                proof {
                    assert(note_wf(seq_view(self.notes@)[index as int]));
                }
                let mut node = self.notes.remove(index);
                node.position = Point {
                    x: clamp_i64(node.position.x + delta.x, -DOC_LIMIT, DOC_LIMIT),
                    y: clamp_i64(node.position.y + delta.y, -DOC_LIMIT, DOC_LIMIT),
                };
                self.notes.insert(index, node);
                proof {
                    assert(seq_view(self.notes@) =~= seq_view(old(self).notes@).update(
                        index as int,
                        NoteV {
                            position: Self::moved_position(
                                seq_view(old(self).notes@)[index as int].position,
                                delta,
                            ),
                            ..seq_view(old(self).notes@)[index as int]
                        },
                    ));
                }
            },
            NodeKind::Code => {
                proof {
                    assert(code_wf(seq_view(self.codes@)[index as int]));
                }
                let mut node = self.codes.remove(index);
                node.position = Point {
                    x: clamp_i64(node.position.x + delta.x, -DOC_LIMIT, DOC_LIMIT),
                    y: clamp_i64(node.position.y + delta.y, -DOC_LIMIT, DOC_LIMIT),
                };
                self.codes.insert(index, node);
                proof {
                    assert(seq_view(self.codes@) =~= seq_view(old(self).codes@).update(
                        index as int,
                        CodeV {
                            position: Self::moved_position(
                                seq_view(old(self).codes@)[index as int].position,
                                delta,
                            ),
                            ..seq_view(old(self).codes@)[index as int]
                        },
                    ));
                }
            },
        }
    }

    /// Marks the note at `index` read-only.
    pub fn lock_note(&mut self, index: usize)
        requires
            old(self).wf(),
            index < old(self).notes@.len(),
        ensures
            final(self).wf(),
            seq_view(final(self).notes@) == seq_view(old(self).notes@).update(
                index as int,
                NoteV { locked: true, ..seq_view(old(self).notes@)[index as int] },
            ),
            final(self).codes@ == old(self).codes@,
            final(self).connections@ == old(self).connections@,
            final(self).strokes@ == old(self).strokes@,
            final(self).next_id == old(self).next_id,
    {
        let mut node = self.notes.remove(index);
        node.locked = true;
        self.notes.insert(index, node);
        proof {
            assert(seq_view(self.notes@) =~= seq_view(old(self).notes@).update(
                index as int,
                NoteV { locked: true, ..seq_view(old(self).notes@)[index as int] },
            ));
        }
    }

    /// Appends a finished ink stroke to the committed collection.
    pub fn add_stroke(&mut self, stroke: Stroke)
        requires
            old(self).wf(),
            old(self).strokes@.len() < MAX_ENTITIES,
            stroke_wf(stroke@),
        ensures
            final(self).wf(),
            seq_view(final(self).strokes@) == seq_view(old(self).strokes@).push(stroke@),
            final(self).notes@ == old(self).notes@,
            final(self).codes@ == old(self).codes@,
            final(self).connections@ == old(self).connections@,
            final(self).next_id == old(self).next_id,
    {
        self.strokes.push(stroke);
        proof {
            assert(seq_view(self.strokes@) =~= seq_view(old(self).strokes@).push(stroke@));
        }
    }

    /// Appends a connection between the two given endpoints with a fresh
    /// identifier; the counter advances.
    pub fn add_connection(
        &mut self,
        start_node_id: usize,
        start_node_kind: NodeKind,
        start_side: crate::geom::Side,
        end_node_id: usize,
        end_node_kind: NodeKind,
        end_side: crate::geom::Side,
        color: crate::model::Color,
    )
        requires
            old(self).wf(),
            old(self).connections@.len() < MAX_ENTITIES,
            old(self).next_id < usize::MAX,
        ensures
            final(self).wf(),
            final(self).connections@ == old(self).connections@.push(
                Connection {
                    id: old(self).next_id,
                    start_node_id,
                    start_node_kind,
                    start_side,
                    end_node_id,
                    end_node_kind,
                    end_side,
                    color,
                },
            ),
            final(self).notes@ == old(self).notes@,
            final(self).codes@ == old(self).codes@,
            final(self).strokes@ == old(self).strokes@,
            final(self).next_id == old(self).next_id + 1,
    {
        let conn = Connection {
            id: self.next_id,
            start_node_id,
            start_node_kind,
            start_side,
            end_node_id,
            end_node_kind,
            end_side,
            color,
        };
        self.connections.push(conn);
        self.next_id = self.next_id + 1;
    }


    /// Empties every entity collection; the identifier counter stays, so
    /// identifiers are never reused within a session.
    pub fn clear_entities(&mut self)
        requires
            old(self).wf(),
        ensures
            final(self).wf(),
            final(self).notes@.len() == 0,
            final(self).codes@.len() == 0,
            final(self).connections@.len() == 0,
            final(self).strokes@.len() == 0,
            final(self).next_id == old(self).next_id,
    {
        self.notes.clear();
        self.codes.clear();
        self.connections.clear();
        self.strokes.clear();
        proof {
            assert(seq_view(self.notes@) =~= Seq::<NoteV>::empty());
            assert(seq_view(self.codes@) =~= Seq::<CodeV>::empty());
            assert(seq_view(self.strokes@) =~= Seq::<StrokeV>::empty());
        }
    }

    /// Locks the code node at `index` and, when the target file's contents
    /// are at hand, re-resolves the 1-based line where its snippet appears.
    pub fn lock_code(&mut self, index: usize, file: Option<&Vec<u8>>)
        requires
            old(self).wf(),
            index < old(self).codes@.len(),
        ensures
            final(self).wf(),
            seq_view(final(self).codes@) == seq_view(old(self).codes@).update(
                index as int,
                CodeV {
                    locked: true,
                    line_offset: match file {
                        Some(f) => crate::snippet::find_line_spec(
                            f@,
                            seq_view(old(self).codes@)[index as int].code,
                        ),
                        None => seq_view(old(self).codes@)[index as int].line_offset,
                    },
                    ..seq_view(old(self).codes@)[index as int]
                },
            ),
            final(self).notes@ == old(self).notes@,
            final(self).connections@ == old(self).connections@,
            final(self).strokes@ == old(self).strokes@,
            final(self).next_id == old(self).next_id,
    {
        let mut node = self.codes.remove(index);
        node.locked = true;
        match file {
            Some(contents) => {
                node.line_offset = crate::snippet::find_snippet_line(contents, &node.code);
            },
            None => {},
        }
        self.codes.insert(index, node);
        proof {
            assert(seq_view(self.codes@) =~= seq_view(old(self).codes@).update(
                index as int,
                CodeV {
                    locked: true,
                    line_offset: match file {
                        Some(f) => crate::snippet::find_line_spec(
                            f@,
                            seq_view(old(self).codes@)[index as int].code,
                        ),
                        None => seq_view(old(self).codes@)[index as int].line_offset,
                    },
                    ..seq_view(old(self).codes@)[index as int]
                },
            ));
        }
    }

    /// Index of the first note with identifier `id`, if any.
    pub fn find_note(&self, id: usize) -> (r: Option<usize>)
        ensures
            ({
                let f = find_note_from(seq_view(self.notes@), id as int, 0);
                match r {
                    Some(i) => f == Some(i as int) && i < self.notes@.len(),
                    None => f is None,
                }
            }),
    {
        let mut i: usize = 0;
        while i < self.notes.len()
            invariant
                i <= self.notes@.len(),
                find_note_from(seq_view(self.notes@), id as int, 0) == find_note_from(
                    seq_view(self.notes@),
                    id as int,
                    i as int,
                ),
            decreases self.notes@.len() - i,
        {
            if self.notes[i].id == id {
                return Some(i);
            }
            i = i + 1;
        }
        None
    }

    /// Index of the first code node with identifier `id`, if any.
    pub fn find_code(&self, id: usize) -> (r: Option<usize>)
        ensures
            ({
                let f = find_code_from(seq_view(self.codes@), id as int, 0);
                match r {
                    Some(i) => f == Some(i as int) && i < self.codes@.len(),
                    None => f is None,
                }
            }),
    {
        let mut i: usize = 0;
        while i < self.codes.len()
            invariant
                i <= self.codes@.len(),
                find_code_from(seq_view(self.codes@), id as int, 0) == find_code_from(
                    seq_view(self.codes@),
                    id as int,
                    i as int,
                ),
            decreases self.codes@.len() - i,
        {
            if self.codes[i].id == id {
                return Some(i);
            }
            i = i + 1;
        }
        None
    }
}


/// However a resize request reads, the stored size never leaves
/// `[SIZE_MIN, SIZE_MAX]` on either axis.
pub proof fn lemma_resize_keeps_size_clamped(w: int, h: int)
    ensures
        crate::model::size_wf(Store::clamped_size(w, h)),
{
    crate::geom::lemma_clamp_in_range(w, SIZE_MIN as int, SIZE_MAX as int);
    crate::geom::lemma_clamp_in_range(h, SIZE_MIN as int, SIZE_MAX as int);
}

} // verus!
