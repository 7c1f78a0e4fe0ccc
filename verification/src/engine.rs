//! The per-frame interaction engine: resolves pointer and scroll input into
//! exactly one active mode, dispatches to the owning component, and keeps the
//! undo/redo history consistent across every discrete gesture.
use vstd::prelude::*;

use crate::geom::{clamp_spec, point_within, Point, Side, DOC_LIMIT, SCREEN_LIMIT, ZOOM_UNIT};
use crate::history::{edit_spec, record_spec, redo_spec, undo_spec, HistV, UNDO_CAP};
use crate::model::{
    ids_wf, seq_view, snapshot_wf, stroke_wf, Color, NodeKind, NoteV, CodeV, Snapshot, SnapshotV,
    Stroke, StrokeV, MAX_ENTITIES,
};
use crate::store::Store;
use crate::transform::ViewTransform;

verus! {

/// The tool the canvas currently owns the pointer with.  Exactly one of the
/// drawing tools can be active: activating one deactivates the others.
#[derive(Clone, Copy, PartialEq, Eq, Structural, Debug)]
pub enum Tool {
    /// No drawing tool: the pointer pans the canvas or drags nodes.
    Pan,
    Marker,
    Eraser,
    Connect,
}

/// The recorded first endpoint of a connection gesture in progress.
#[derive(Clone, Copy, PartialEq, Eq, Structural, Debug)]
pub struct PendingConnection {
    pub node_id: usize,
    pub node_kind: NodeKind,
    pub side: Side,
}

/// The node a drag gesture currently moves.
#[derive(Clone, Copy, PartialEq, Eq, Structural, Debug)]
pub struct DragTarget {
    pub kind: NodeKind,
    pub index: usize,
}

/// The whole application state the core owns: entities, transform,
/// interaction mode, and the two history stacks.
pub struct Engine {
    pub store: Store,
    pub view: ViewTransform,
    pub tool: Tool,
    /// The ink stroke a marker gesture is building, not yet committed.
    pub current_stroke: Option<Stroke>,
    /// Whether an eraser gesture is in progress.
    pub erasing: bool,
    /// Whether a canvas pan gesture is in progress.
    pub panning: bool,
    /// The node a drag gesture moves, if one is in progress.
    pub drag_target: Option<DragTarget>,
    /// Last pointer position of the active pan or drag gesture.
    pub drag_start: Point,
    pub pending_connection: Option<PendingConnection>,
    pub undo_stack: Vec<Snapshot>,
    pub redo_stack: Vec<Snapshot>,
}

/// Identifier validity of one snapshot against the live counter.
pub open spec fn snap_ids_wf(s: SnapshotV, next_id: int) -> bool {
    ids_wf(s.notes, s.codes, s.connections, next_id)
}

impl Engine {
    /// The live document as a mathematical snapshot value.
    pub open spec fn doc_view(self) -> SnapshotV {
        SnapshotV {
            notes: seq_view(self.store.notes@),
            codes: seq_view(self.store.codes@),
            connections: self.store.connections@,
            strokes: seq_view(self.store.strokes@),
            zoom: self.view.zoom,
            offset: self.view.offset,
        }
    }

    /// The history state: both stacks plus the live document.
    pub open spec fn hist_view(self) -> HistV {
        HistV {
            undo: seq_view(self.undo_stack@),
            redo: seq_view(self.redo_stack@),
            current: self.doc_view(),
        }
    }

    /// The interaction state of `b` is exactly that of `a`: same tool, same
    /// gestures in progress, same pending connection endpoint.
    pub open spec fn same_interaction(a: Engine, b: Engine) -> bool {
        &&& b.tool == a.tool
        &&& b.current_stroke == a.current_stroke
        &&& b.erasing == a.erasing
        &&& b.panning == a.panning
        &&& b.drag_target == a.drag_target
        &&& b.drag_start == a.drag_start
        &&& b.pending_connection == a.pending_connection
    }

    /// The engine invariant: a valid store and transform, valid stacked
    /// snapshots whose identifiers stay below the live counter, a valid
    /// in-progress stroke, a connection gesture only in connect mode, and a
    /// drag target that indexes a live node.
    pub open spec fn wf(self) -> bool {
        &&& self.store.wf()
        &&& self.view.wf()
        &&& forall|i: int|
            0 <= i < self.undo_stack@.len() ==> snapshot_wf(
                #[trigger] seq_view(self.undo_stack@)[i],
            ) && snap_ids_wf(seq_view(self.undo_stack@)[i], self.store.next_id as int)
        &&& forall|i: int|
            0 <= i < self.redo_stack@.len() ==> snapshot_wf(
                #[trigger] seq_view(self.redo_stack@)[i],
            ) && snap_ids_wf(seq_view(self.redo_stack@)[i], self.store.next_id as int)
        &&& match self.current_stroke {
            Some(s) => stroke_wf(s@) && self.tool == Tool::Marker,
            None => true,
        }
        &&& self.tool != Tool::Connect ==> self.pending_connection is None
        &&& match self.drag_target {
            Some(t) => match t.kind {
                NodeKind::Note => t.index < self.store.notes@.len(),
                NodeKind::Code => t.index < self.store.codes@.len(),
            },
            None => true,
        }
        &&& point_within(self.drag_start, 2 * SCREEN_LIMIT as int)
    }

    /// A fresh workspace: no entities, no history, the pan tool, default view.
    pub fn new() -> (r: Engine)
        ensures
            r.wf(),
            r.doc_view().notes.len() == 0,
            r.doc_view().codes.len() == 0,
            r.doc_view().connections.len() == 0,
            r.doc_view().strokes.len() == 0,
            r.doc_view().zoom == crate::transform::ZOOM_DEFAULT,
            r.doc_view().offset == (Point { x: 0i64, y: 0i64 }),
            r.hist_view().undo.len() == 0,
            r.hist_view().redo.len() == 0,
            r.tool == Tool::Pan,
            r.gesture_idle(),
            r.pending_connection is None,
            r.store.next_id == 1,
    {
        let r = Engine {
            store: Store::new(),
            view: ViewTransform::new(),
            tool: Tool::Pan,
            current_stroke: None,
            erasing: false,
            panning: false,
            drag_target: None,
            drag_start: Point { x: 0, y: 0 },
            pending_connection: None,
            undo_stack: Vec::new(),
            redo_stack: Vec::new(),
        };
        proof {
            assert(seq_view(r.undo_stack@) =~= Seq::<SnapshotV>::empty());
            assert(seq_view(r.redo_stack@) =~= Seq::<SnapshotV>::empty());
        }
        r
    }

    /// An owned deep copy of the live document.
    pub fn take_snapshot(&self) -> (r: Snapshot)
        ensures
            r@ == self.doc_view(),
    {
        let r = Snapshot {
            notes: crate::model::clone_notes(&self.store.notes),
            codes: crate::model::clone_codes(&self.store.codes),
            connections: crate::model::clone_connections(&self.store.connections),
            strokes: crate::model::clone_strokes(&self.store.strokes),
            zoom: self.view.zoom,
            offset: self.view.offset,
        };
        proof {
            assert(r@ =~= self.doc_view());
        }
        r
    }

    /// Replaces the live document with `snapshot`; the identifier counter and
    /// the interaction state stay as they are.
    pub fn restore_snapshot(&mut self, snapshot: Snapshot)
        requires
            old(self).wf(),
            snapshot_wf(snapshot@),
            snap_ids_wf(snapshot@, old(self).store.next_id as int),
        ensures
            final(self).wf(),
            final(self).doc_view() == snapshot@,
            final(self).hist_view().undo == old(self).hist_view().undo,
            final(self).hist_view().redo == old(self).hist_view().redo,
            final(self).store.next_id == old(self).store.next_id,
            final(self).tool == old(self).tool,
            final(self).current_stroke == old(self).current_stroke,
            final(self).pending_connection == old(self).pending_connection,
            final(self).erasing == old(self).erasing,
            final(self).panning == old(self).panning,
            final(self).drag_target is None,
            final(self).drag_start == old(self).drag_start,
    {
        let Snapshot { notes, codes, connections, strokes, zoom, offset } = snapshot;
        self.store.notes = notes;
        self.store.codes = codes;
        self.store.connections = connections;
        self.store.strokes = strokes;
        self.view.zoom = zoom;
        self.view.offset = offset;
        self.drag_target = None;
        proof {
            assert(self.doc_view() =~= snapshot@);
        }
    }


    /// Re-establishes the stack part of the invariant after one stack
    /// changed, from the elements' own validity.
    proof fn lemma_stacks_wf(self, undo_old: Seq<SnapshotV>, redo_old: Seq<SnapshotV>)
        requires
            forall|i: int|
                0 <= i < undo_old.len() ==> snapshot_wf(#[trigger] undo_old[i]) && snap_ids_wf(
                    undo_old[i],
                    self.store.next_id as int,
                ),
            forall|i: int|
                0 <= i < redo_old.len() ==> snapshot_wf(#[trigger] redo_old[i]) && snap_ids_wf(
                    redo_old[i],
                    self.store.next_id as int,
                ),
            forall|i: int|
                0 <= i < self.undo_stack@.len() ==> 0 <= i < undo_old.len() && #[trigger] seq_view(
                    self.undo_stack@,
                )[i] == undo_old[i],
            forall|i: int|
                0 <= i < self.redo_stack@.len() ==> 0 <= i < redo_old.len() && #[trigger] seq_view(
                    self.redo_stack@,
                )[i] == redo_old[i],
        ensures
            forall|i: int|
                0 <= i < self.undo_stack@.len() ==> snapshot_wf(
                    #[trigger] seq_view(self.undo_stack@)[i],
                ) && snap_ids_wf(seq_view(self.undo_stack@)[i], self.store.next_id as int),
            forall|i: int|
                0 <= i < self.redo_stack@.len() ==> snapshot_wf(
                    #[trigger] seq_view(self.redo_stack@)[i],
                ) && snap_ids_wf(seq_view(self.redo_stack@)[i], self.store.next_id as int),
    {
    }

    /// Pushes a deep copy of the live document onto the undo stack (dropping
    /// the oldest entry at the cap) and clears the redo stack.
    pub fn record_state(&mut self)
        requires
            old(self).wf(),
        ensures
            final(self).wf(),
            final(self).hist_view() == record_spec(old(self).hist_view()),
            final(self).doc_view() == old(self).doc_view(),
            final(self).store == old(self).store,
            final(self).view == old(self).view,
            final(self).tool == old(self).tool,
            final(self).current_stroke == old(self).current_stroke,
            final(self).pending_connection == old(self).pending_connection,
            final(self).erasing == old(self).erasing,
            final(self).panning == old(self).panning,
            final(self).drag_target == old(self).drag_target,
            final(self).drag_start == old(self).drag_start,
    {
        if self.undo_stack.len() >= UNDO_CAP {
            self.undo_stack.remove(0);
        }
        let snap = self.take_snapshot();
        self.undo_stack.push(snap);
        self.redo_stack.clear();
        proof {
            assert(seq_view(self.redo_stack@) =~= Seq::<SnapshotV>::empty());
            assert(self.hist_view().undo =~= record_spec(old(self).hist_view()).undo);
            assert(self.hist_view() =~= record_spec(old(self).hist_view()));
        }
    }

    /// Undoes the newest recorded edit, if any: the live document moves to
    /// the redo stack and the newest undo entry becomes live.
    pub fn undo(&mut self)
        requires
            old(self).wf(),
        ensures
            final(self).wf(),
            final(self).hist_view() == undo_spec(old(self).hist_view()),
            final(self).store.next_id == old(self).store.next_id,
            final(self).tool == old(self).tool,
            final(self).current_stroke == old(self).current_stroke,
            final(self).pending_connection == old(self).pending_connection,
            final(self).erasing == old(self).erasing,
            final(self).panning == old(self).panning,
            final(self).drag_start == old(self).drag_start,
            final(self).drag_target == if old(self).hist_view().undo.len() == 0 {
                old(self).drag_target
            } else {
                None
            },
    {
        let popped = self.undo_stack.pop();
        match popped {
            Some(snapshot) => {
                let cur = self.take_snapshot();
                self.redo_stack.push(cur);
                proof {
                    let h = old(self).hist_view();
                    self.lemma_stacks_wf(h.undo, h.redo.push(h.current));
                    assert(snapshot@ == h.undo.last());
                }
                self.restore_snapshot(snapshot);
                proof {
                    assert(self.hist_view().undo =~= undo_spec(old(self).hist_view()).undo);
                    assert(self.hist_view().redo =~= undo_spec(old(self).hist_view()).redo);
                    assert(self.hist_view() =~= undo_spec(old(self).hist_view()));
                }
            },
            None => {
                proof {
                    assert(self.hist_view() =~= undo_spec(old(self).hist_view()));
                }
            },
        }
    }

    /// Redoes the newest undone edit, if any; symmetric to `undo`.
    pub fn redo(&mut self)
        requires
            old(self).wf(),
        ensures
            final(self).wf(),
            final(self).hist_view() == redo_spec(old(self).hist_view()),
            final(self).store.next_id == old(self).store.next_id,
            final(self).tool == old(self).tool,
            final(self).current_stroke == old(self).current_stroke,
            final(self).pending_connection == old(self).pending_connection,
            final(self).erasing == old(self).erasing,
            final(self).panning == old(self).panning,
            final(self).drag_start == old(self).drag_start,
            final(self).drag_target == if old(self).hist_view().redo.len() == 0 {
                old(self).drag_target
            } else {
                None
            },
    {
        let popped = self.redo_stack.pop();
        match popped {
            Some(snapshot) => {
                let cur = self.take_snapshot();
                self.undo_stack.push(cur);
                proof {
                    let h = old(self).hist_view();
                    self.lemma_stacks_wf(h.undo.push(h.current), h.redo);
                    assert(snapshot@ == h.redo.last());
                }
                self.restore_snapshot(snapshot);
                proof {
                    assert(self.hist_view().undo =~= redo_spec(old(self).hist_view()).undo);
                    assert(self.hist_view().redo =~= redo_spec(old(self).hist_view()).redo);
                    assert(self.hist_view() =~= redo_spec(old(self).hist_view()));
                }
            },
            None => {
                proof {
                    assert(self.hist_view() =~= redo_spec(old(self).hist_view()));
                }
            },
        }
    }
}


impl Engine {
    /// The ink color of marker strokes and fresh connections.
    pub open spec fn ink_color() -> Color {
        Color { red: 187, green: 192, blue: 206, alpha: 255 }
    }

    /// Returns the ink color.
    pub fn make_ink_color() -> (r: Color)
        ensures
            r == Self::ink_color(),
    {
        Color { red: 187, green: 192, blue: 206, alpha: 255 }
    }

    /// Deactivates every drawing tool and cancels gestures in progress.
    fn clear_tool_state(&mut self)
        requires
            old(self).wf(),
        ensures
            *final(self) == (Engine {
                tool: Tool::Pan,
                current_stroke: None,
                erasing: false,
                panning: false,
                pending_connection: None,
                ..*old(self)
            }),
    {
        self.tool = Tool::Pan;
        self.current_stroke = None;
        self.erasing = false;
        self.panning = false;
        self.pending_connection = None;
    }

    /// Toggles the marker; activating it deactivates the other tools.
    pub fn toggle_marker(&mut self)
        requires
            old(self).wf(),
        ensures
            final(self).wf(),
            final(self).tool == if old(self).tool == Tool::Marker {
                Tool::Pan
            } else {
                Tool::Marker
            },
            final(self).pending_connection is None,
            final(self).current_stroke is None,
            !final(self).erasing,
            !final(self).panning,
            final(self).drag_target == old(self).drag_target,
            final(self).drag_start == old(self).drag_start,
            final(self).doc_view() == old(self).doc_view(),
            final(self).hist_view().undo == old(self).hist_view().undo,
            final(self).hist_view().redo == old(self).hist_view().redo,
            final(self).store == old(self).store,
    {
        let was = self.tool;
        self.clear_tool_state();
        if was != Tool::Marker {
            self.tool = Tool::Marker;
        }
    }

    /// Toggles the eraser; activating it deactivates the other tools.
    pub fn toggle_eraser(&mut self)
        requires
            old(self).wf(),
        ensures
            final(self).wf(),
            final(self).tool == if old(self).tool == Tool::Eraser {
                Tool::Pan
            } else {
                Tool::Eraser
            },
            final(self).pending_connection is None,
            final(self).current_stroke is None,
            !final(self).erasing,
            !final(self).panning,
            final(self).drag_target == old(self).drag_target,
            final(self).drag_start == old(self).drag_start,
            final(self).doc_view() == old(self).doc_view(),
            final(self).hist_view().undo == old(self).hist_view().undo,
            final(self).hist_view().redo == old(self).hist_view().redo,
            final(self).store == old(self).store,
    {
        let was = self.tool;
        self.clear_tool_state();
        if was != Tool::Eraser {
            self.tool = Tool::Eraser;
        }
    }

    /// Toggles connect mode; leaving it forgets a pending first endpoint.
    pub fn toggle_connect(&mut self)
        requires
            old(self).wf(),
        ensures
            final(self).wf(),
            final(self).tool == if old(self).tool == Tool::Connect {
                Tool::Pan
            } else {
                Tool::Connect
            },
            final(self).pending_connection is None,
            final(self).current_stroke is None,
            !final(self).erasing,
            !final(self).panning,
            final(self).drag_target == old(self).drag_target,
            final(self).drag_start == old(self).drag_start,
            final(self).doc_view() == old(self).doc_view(),
            final(self).hist_view().undo == old(self).hist_view().undo,
            final(self).hist_view().redo == old(self).hist_view().redo,
            final(self).store == old(self).store,
    {
        let was = self.tool;
        self.clear_tool_state();
        if was != Tool::Connect {
            self.tool = Tool::Connect;
        }
    }

    /// One scroll step: the zoom scales by `1 + dy/1000`, clamped.
    pub fn on_scroll(&mut self, dy: i64)
        requires
            old(self).wf(),
            -SCREEN_LIMIT <= dy <= SCREEN_LIMIT,
        ensures
            final(self).wf(),
            final(self).view.zoom == clamp_spec(
                old(self).view.zoom as int * (ZOOM_UNIT as int + dy) / ZOOM_UNIT as int,
                crate::geom::ZOOM_MIN as int,
                crate::geom::ZOOM_MAX as int,
            ),
            final(self).view.offset == old(self).view.offset,
            final(self).doc_view().notes == old(self).doc_view().notes,
            final(self).doc_view().codes == old(self).doc_view().codes,
            final(self).doc_view().connections == old(self).doc_view().connections,
            final(self).doc_view().strokes == old(self).doc_view().strokes,
            final(self).hist_view().undo == old(self).hist_view().undo,
            final(self).hist_view().redo == old(self).hist_view().redo,
            final(self).store.next_id == old(self).store.next_id,
            Self::same_interaction(*old(self), *final(self)),
    {
        self.view.apply_scroll(dy);
    }

    /// Restores the default zoom; pan offset, document and history stay.
    pub fn cmd_reset_zoom(&mut self)
        requires
            old(self).wf(),
        ensures
            final(self).wf(),
            final(self).view.zoom == crate::transform::ZOOM_DEFAULT,
            final(self).view.offset == old(self).view.offset,
            final(self).doc_view().notes == old(self).doc_view().notes,
            final(self).doc_view().codes == old(self).doc_view().codes,
            final(self).doc_view().connections == old(self).doc_view().connections,
            final(self).doc_view().strokes == old(self).doc_view().strokes,
            final(self).hist_view().undo == old(self).hist_view().undo,
            final(self).hist_view().redo == old(self).hist_view().redo,
            final(self).store.next_id == old(self).store.next_id,
            Self::same_interaction(*old(self), *final(self)),
    {
        self.view.reset_zoom();
    }

    /// Creates a note node at `at`: one recorded edit.
    pub fn cmd_create_note(&mut self, at: Point)
        requires
            old(self).wf(),
            old(self).store.notes@.len() < MAX_ENTITIES,
            old(self).store.next_id < usize::MAX,
        ensures
            final(self).wf(),
            final(self).hist_view() == edit_spec(old(self).hist_view(), final(self).doc_view()),
            final(self).doc_view() == (SnapshotV {
                notes: old(self).doc_view().notes.push(old(self).store.fresh_note(at)),
                ..old(self).doc_view()
            }),
            final(self).store.next_id == old(self).store.next_id + 1,
            Self::same_interaction(*old(self), *final(self)),
    {
        self.record_state();
        self.store.create_note(at);
        proof {
            assert(self.doc_view() =~= (SnapshotV {
                notes: old(self).doc_view().notes.push(old(self).store.fresh_note(at)),
                ..old(self).doc_view()
            }));
            assert(self.hist_view() =~= edit_spec(old(self).hist_view(), self.doc_view()));
        }
    }

    /// Creates a code node at `at`: one recorded edit.
    pub fn cmd_create_code(&mut self, at: Point)
        requires
            old(self).wf(),
            old(self).store.codes@.len() < MAX_ENTITIES,
            old(self).store.next_id < usize::MAX,
        ensures
            final(self).wf(),
            final(self).hist_view() == edit_spec(old(self).hist_view(), final(self).doc_view()),
            final(self).doc_view() == (SnapshotV {
                codes: old(self).doc_view().codes.push(old(self).store.fresh_code(at)),
                ..old(self).doc_view()
            }),
            final(self).store.next_id == old(self).store.next_id + 1,
            Self::same_interaction(*old(self), *final(self)),
    {
        self.record_state();
        self.store.create_code(at);
        proof {
            assert(self.doc_view() =~= (SnapshotV {
                codes: old(self).doc_view().codes.push(old(self).store.fresh_code(at)),
                ..old(self).doc_view()
            }));
            assert(self.hist_view() =~= edit_spec(old(self).hist_view(), self.doc_view()));
        }
    }

    /// Deletes a node: one recorded edit.  Connections that pointed at it
    /// stay behind and render against a degenerate fallback.
    pub fn cmd_delete_node(&mut self, kind: NodeKind, index: usize)
        requires
            old(self).wf(),
            kind == NodeKind::Note ==> index < old(self).store.notes@.len(),
            kind == NodeKind::Code ==> index < old(self).store.codes@.len(),
        ensures
            final(self).wf(),
            final(self).hist_view() == edit_spec(old(self).hist_view(), final(self).doc_view()),
            kind == NodeKind::Note ==> final(self).doc_view() == (SnapshotV {
                notes: old(self).doc_view().notes.remove(index as int),
                ..old(self).doc_view()
            }),
            kind == NodeKind::Code ==> final(self).doc_view() == (SnapshotV {
                codes: old(self).doc_view().codes.remove(index as int),
                ..old(self).doc_view()
            }),
            final(self).store.next_id == old(self).store.next_id,
            final(self).tool == old(self).tool,
            final(self).current_stroke == old(self).current_stroke,
            final(self).erasing == old(self).erasing,
            final(self).panning == old(self).panning,
            final(self).drag_target is None,
            final(self).drag_start == old(self).drag_start,
            final(self).pending_connection == old(self).pending_connection,
    {
        self.record_state();
        self.drag_target = None;
        self.store.delete_node(kind, index);
        proof {
            match kind {
                NodeKind::Note => {
                    assert(self.doc_view() =~= (SnapshotV {
                        notes: old(self).doc_view().notes.remove(index as int),
                        ..old(self).doc_view()
                    }));
                },
                NodeKind::Code => {
                    assert(self.doc_view() =~= (SnapshotV {
                        codes: old(self).doc_view().codes.remove(index as int),
                        ..old(self).doc_view()
                    }));
                },
            }
            assert(self.hist_view() =~= edit_spec(old(self).hist_view(), self.doc_view()));
        }
    }

    /// Swaps a node with its z-order neighbour: one recorded edit, unless the
    /// node sits at the boundary, in which case nothing happens at all.
    pub fn cmd_reorder_node(&mut self, kind: NodeKind, index: usize, dir: crate::store::Direction)
        requires
            old(self).wf(),
            kind == NodeKind::Note ==> index < old(self).store.notes@.len(),
            kind == NodeKind::Code ==> index < old(self).store.codes@.len(),
        ensures
            final(self).wf(),
            ({
                let len = match kind {
                    NodeKind::Note => old(self).store.notes@.len() as int,
                    NodeKind::Code => old(self).store.codes@.len() as int,
                };
                let noop = match dir {
                    crate::store::Direction::Backward => index == 0,
                    crate::store::Direction::Forward => index as int + 1 >= len,
                };
                if noop {
                    *final(self) == *old(self)
                } else {
                    final(self).hist_view() == edit_spec(
                        old(self).hist_view(),
                        final(self).doc_view(),
                    ) && (kind == NodeKind::Note ==> final(self).doc_view() == (SnapshotV {
                        notes: crate::store::Store::reorder_spec(
                            old(self).doc_view().notes,
                            index as int,
                            dir,
                        ),
                        ..old(self).doc_view()
                    })) && (kind == NodeKind::Code ==> final(self).doc_view() == (SnapshotV {
                        codes: crate::store::Store::reorder_spec(
                            old(self).doc_view().codes,
                            index as int,
                            dir,
                        ),
                        ..old(self).doc_view()
                    }))
                }
            }),
            final(self).store.next_id == old(self).store.next_id,
            Self::same_interaction(*old(self), *final(self)),
    {
        let len = match kind {
            NodeKind::Note => self.store.notes.len(),
            NodeKind::Code => self.store.codes.len(),
        };
        let noop = match dir {
            crate::store::Direction::Backward => index == 0,
            crate::store::Direction::Forward => index + 1 >= len,
        };
        if noop {
            return ;
        }
        self.record_state();
        self.store.reorder_node(kind, index, dir);
        proof {
            match kind {
                NodeKind::Note => {
                    assert(self.doc_view() =~= (SnapshotV {
                        notes: crate::store::Store::reorder_spec(
                            old(self).doc_view().notes,
                            index as int,
                            dir,
                        ),
                        ..old(self).doc_view()
                    }));
                },
                NodeKind::Code => {
                    assert(self.doc_view() =~= (SnapshotV {
                        codes: crate::store::Store::reorder_spec(
                            old(self).doc_view().codes,
                            index as int,
                            dir,
                        ),
                        ..old(self).doc_view()
                    }));
                },
            }
            assert(self.hist_view() =~= edit_spec(old(self).hist_view(), self.doc_view()));
        }
    }

    /// Locks a note, making it read-only: one recorded edit.
    pub fn cmd_lock_note(&mut self, index: usize)
        requires
            old(self).wf(),
            index < old(self).store.notes@.len(),
        ensures
            final(self).wf(),
            final(self).hist_view() == edit_spec(old(self).hist_view(), final(self).doc_view()),
            final(self).doc_view() == (SnapshotV {
                notes: old(self).doc_view().notes.update(
                    index as int,
                    NoteV { locked: true, ..old(self).doc_view().notes[index as int] },
                ),
                ..old(self).doc_view()
            }),
            final(self).store.next_id == old(self).store.next_id,
            Self::same_interaction(*old(self), *final(self)),
    {
        self.record_state();
        self.store.lock_note(index);
        proof {
            assert(self.doc_view() =~= (SnapshotV {
                notes: old(self).doc_view().notes.update(
                    index as int,
                    NoteV { locked: true, ..old(self).doc_view().notes[index as int] },
                ),
                ..old(self).doc_view()
            }));
            assert(self.hist_view() =~= edit_spec(old(self).hist_view(), self.doc_view()));
        }
    }
}


impl Engine {
    /// Locks a code node and re-resolves its snippet's line inside the
    /// target file's contents, when the caller has them: one recorded edit.
    pub fn cmd_lock_code(&mut self, index: usize, file: Option<&Vec<u8>>)
        requires
            old(self).wf(),
            index < old(self).store.codes@.len(),
        ensures
            final(self).wf(),
            final(self).hist_view() == edit_spec(old(self).hist_view(), final(self).doc_view()),
            final(self).doc_view() == (SnapshotV {
                codes: old(self).doc_view().codes.update(
                    index as int,
                    CodeV {
                        locked: true,
                        line_offset: match file {
                            Some(f) => crate::snippet::find_line_spec(
                                f@,
                                old(self).doc_view().codes[index as int].code,
                            ),
                            None => old(self).doc_view().codes[index as int].line_offset,
                        },
                        ..old(self).doc_view().codes[index as int]
                    },
                ),
                ..old(self).doc_view()
            }),
            final(self).store.next_id == old(self).store.next_id,
            Self::same_interaction(*old(self), *final(self)),
    {
        self.record_state();
        self.store.lock_code(index, file);
        proof {
            assert(self.doc_view() =~= (SnapshotV {
                codes: old(self).doc_view().codes.update(
                    index as int,
                    CodeV {
                        locked: true,
                        line_offset: match file {
                            Some(f) => crate::snippet::find_line_spec(
                                f@,
                                old(self).doc_view().codes[index as int].code,
                            ),
                            None => old(self).doc_view().codes[index as int].line_offset,
                        },
                        ..old(self).doc_view().codes[index as int]
                    },
                ),
                ..old(self).doc_view()
            }));
            assert(self.hist_view() =~= edit_spec(old(self).hist_view(), self.doc_view()));
        }
    }

    /// Replaces a note's text; live editing is not a recorded gesture.
    pub fn set_note_text(&mut self, index: usize, text: Vec<u8>)
        requires
            old(self).wf(),
            index < old(self).store.notes@.len(),
        ensures
            final(self).wf(),
            final(self).doc_view() == (SnapshotV {
                notes: old(self).doc_view().notes.update(
                    index as int,
                    NoteV { text: text@, ..old(self).doc_view().notes[index as int] },
                ),
                ..old(self).doc_view()
            }),
            final(self).hist_view().undo == old(self).hist_view().undo,
            final(self).hist_view().redo == old(self).hist_view().redo,
            final(self).store.next_id == old(self).store.next_id,
            Self::same_interaction(*old(self), *final(self)),
    {
        self.store.set_note_text(index, text);
        proof {
            assert(self.doc_view() =~= (SnapshotV {
                notes: old(self).doc_view().notes.update(
                    index as int,
                    NoteV { text: text@, ..old(self).doc_view().notes[index as int] },
                ),
                ..old(self).doc_view()
            }));
        }
    }

    /// Replaces a code node's snippet text; not a recorded gesture.
    pub fn set_code_text(&mut self, index: usize, code: Vec<u8>)
        requires
            old(self).wf(),
            index < old(self).store.codes@.len(),
        ensures
            final(self).wf(),
            final(self).doc_view() == (SnapshotV {
                codes: old(self).doc_view().codes.update(
                    index as int,
                    CodeV { code: code@, ..old(self).doc_view().codes[index as int] },
                ),
                ..old(self).doc_view()
            }),
            final(self).hist_view().undo == old(self).hist_view().undo,
            final(self).hist_view().redo == old(self).hist_view().redo,
            final(self).store.next_id == old(self).store.next_id,
            Self::same_interaction(*old(self), *final(self)),
    {
        self.store.set_code_text(index, code);
        proof {
            assert(self.doc_view() =~= (SnapshotV {
                codes: old(self).doc_view().codes.update(
                    index as int,
                    CodeV { code: code@, ..old(self).doc_view().codes[index as int] },
                ),
                ..old(self).doc_view()
            }));
        }
    }

    /// Replaces a code node's file path; not a recorded gesture.
    pub fn set_code_path(&mut self, index: usize, path: Vec<u8>)
        requires
            old(self).wf(),
            index < old(self).store.codes@.len(),
        ensures
            final(self).wf(),
            final(self).doc_view() == (SnapshotV {
                codes: old(self).doc_view().codes.update(
                    index as int,
                    CodeV { file_path: path@, ..old(self).doc_view().codes[index as int] },
                ),
                ..old(self).doc_view()
            }),
            final(self).hist_view().undo == old(self).hist_view().undo,
            final(self).hist_view().redo == old(self).hist_view().redo,
            final(self).store.next_id == old(self).store.next_id,
            Self::same_interaction(*old(self), *final(self)),
    {
        self.store.set_code_path(index, path);
        proof {
            assert(self.doc_view() =~= (SnapshotV {
                codes: old(self).doc_view().codes.update(
                    index as int,
                    CodeV { file_path: path@, ..old(self).doc_view().codes[index as int] },
                ),
                ..old(self).doc_view()
            }));
        }
    }

    /// Resizes a node; each axis is clamped into the valid size range, so
    /// width and height never leave `[SIZE_MIN, SIZE_MAX]`.  Not recorded.
    pub fn set_node_size(&mut self, kind: NodeKind, index: usize, w: i64, h: i64)
        requires
            old(self).wf(),
            kind == NodeKind::Note ==> index < old(self).store.notes@.len(),
            kind == NodeKind::Code ==> index < old(self).store.codes@.len(),
        ensures
            final(self).wf(),
            kind == NodeKind::Note ==> final(self).doc_view() == (SnapshotV {
                notes: old(self).doc_view().notes.update(
                    index as int,
                    NoteV {
                        size: crate::store::Store::clamped_size(w as int, h as int),
                        ..old(self).doc_view().notes[index as int]
                    },
                ),
                ..old(self).doc_view()
            }),
            kind == NodeKind::Code ==> final(self).doc_view() == (SnapshotV {
                codes: old(self).doc_view().codes.update(
                    index as int,
                    CodeV {
                        size: crate::store::Store::clamped_size(w as int, h as int),
                        ..old(self).doc_view().codes[index as int]
                    },
                ),
                ..old(self).doc_view()
            }),
            final(self).hist_view().undo == old(self).hist_view().undo,
            final(self).hist_view().redo == old(self).hist_view().redo,
            final(self).store.next_id == old(self).store.next_id,
            Self::same_interaction(*old(self), *final(self)),
    {
        self.store.set_node_size(kind, index, w, h);
        proof {
            match kind {
                NodeKind::Note => {
                    assert(self.doc_view() =~= (SnapshotV {
                        notes: old(self).doc_view().notes.update(
                            index as int,
                            NoteV {
                                size: crate::store::Store::clamped_size(w as int, h as int),
                                ..old(self).doc_view().notes[index as int]
                            },
                        ),
                        ..old(self).doc_view()
                    }));
                },
                NodeKind::Code => {
                    assert(self.doc_view() =~= (SnapshotV {
                        codes: old(self).doc_view().codes.update(
                            index as int,
                            CodeV {
                                size: crate::store::Store::clamped_size(w as int, h as int),
                                ..old(self).doc_view().codes[index as int]
                            },
                        ),
                        ..old(self).doc_view()
                    }));
                },
            }
        }
    }

    /// The blank document a fresh or reset workspace shows.
    pub open spec fn blank_doc() -> SnapshotV {
        SnapshotV {
            notes: Seq::empty(),
            codes: Seq::empty(),
            connections: Seq::empty(),
            strokes: Seq::empty(),
            zoom: crate::transform::ZOOM_DEFAULT,
            offset: Point { x: 0i64, y: 0i64 },
        }
    }

    /// Resets the workspace to a blank document: entities, tools and both
    /// history stacks are cleared, the view returns to its defaults, and the
    /// blank state is recorded as the first history entry.  The identifier
    /// counter survives, so identifiers are never reused within a session.
    pub fn cmd_new_document(&mut self)
        requires
            old(self).wf(),
        ensures
            final(self).wf(),
            final(self).doc_view() == Self::blank_doc(),
            final(self).hist_view() == record_spec(
                HistV { undo: Seq::empty(), redo: Seq::empty(), current: Self::blank_doc() },
            ),
            final(self).tool == Tool::Pan,
            final(self).gesture_idle(),
            final(self).pending_connection is None,
            final(self).store.next_id == old(self).store.next_id,
    {
        self.clear_tool_state();
        self.drag_target = None;
        self.store.clear_entities();
        self.view.reset_zoom();
        self.view.offset = Point { x: 0, y: 0 };
        self.undo_stack.clear();
        self.redo_stack.clear();
        proof {
            assert(self.doc_view() =~= Self::blank_doc());
            assert(seq_view(self.undo_stack@) =~= Seq::<SnapshotV>::empty());
            assert(seq_view(self.redo_stack@) =~= Seq::<SnapshotV>::empty());
        }
        self.record_state();
        proof {
            assert(self.hist_view() =~= record_spec(
                HistV { undo: Seq::empty(), redo: Seq::empty(), current: Self::blank_doc() },
            ));
        }
    }
}


impl Engine {
    /// A node dimension on screen: scaled by the zoom, at least one unit.
    pub open spec fn scaled_dim(zoom: int, v: int) -> int {
        let s = v * zoom / (ZOOM_UNIT as int);
        if s < 1 {
            1
        } else {
            s
        }
    }

    /// Whether `p` lies on the screen rectangle of a node at `pos` with
    /// extent `size` (document units), boundaries included.
    pub open spec fn rect_hit(self, pos: Point, size: Point, p: Point) -> bool {
        let sx = self.view.to_screen_coord(pos.x as int, self.view.offset.x as int);
        let sy = self.view.to_screen_coord(pos.y as int, self.view.offset.y as int);
        let w = Self::scaled_dim(self.view.zoom as int, size.x as int);
        let h = Self::scaled_dim(self.view.zoom as int, size.y as int);
        sx <= p.x <= sx + w && sy <= p.y <= sy + h
    }

    /// Whether `p` hits the note at position `i` in the z-order.
    pub open spec fn note_hit(self, i: int, p: Point) -> bool {
        self.rect_hit(
            seq_view(self.store.notes@)[i].position,
            seq_view(self.store.notes@)[i].size,
            p,
        )
    }

    /// Whether `p` hits the code node at position `i` in the z-order.
    pub open spec fn code_hit(self, i: int, p: Point) -> bool {
        self.rect_hit(
            seq_view(self.store.codes@)[i].position,
            seq_view(self.store.codes@)[i].size,
            p,
        )
    }

    /// The screen rectangle of a node: top-left corner and extent.
    pub fn node_screen_rect(&self, pos: Point, size: Point) -> (r: (Point, Point))
        requires
            self.wf(),
            point_within(pos, DOC_LIMIT as int),
            crate::model::size_wf(size),
        ensures
            r.0.x == self.view.to_screen_coord(pos.x as int, self.view.offset.x as int),
            r.0.y == self.view.to_screen_coord(pos.y as int, self.view.offset.y as int),
            r.1.x == Self::scaled_dim(self.view.zoom as int, size.x as int),
            r.1.y == Self::scaled_dim(self.view.zoom as int, size.y as int),
            point_within(r.0, 6 * DOC_LIMIT as int),
            1 <= r.1.x <= 1600,
            1 <= r.1.y <= 1600,
    {
        let corner = self.view.to_screen(pos);
        proof {
            crate::geom::lemma_mul_le(size.x as int, 400, self.view.zoom as int, 4000);
            crate::geom::lemma_mul_le(size.y as int, 400, self.view.zoom as int, 4000);
            vstd::arithmetic::div_mod::lemma_div_pos_is_pos(
                size.x as int * self.view.zoom as int,
                ZOOM_UNIT as int,
            );
            vstd::arithmetic::div_mod::lemma_div_pos_is_pos(
                size.y as int * self.view.zoom as int,
                ZOOM_UNIT as int,
            );
            crate::geom::lemma_div_le_bound(
                size.x as int * self.view.zoom as int,
                ZOOM_UNIT as int,
                1600,
            );
            crate::geom::lemma_div_le_bound(
                size.y as int * self.view.zoom as int,
                ZOOM_UNIT as int,
                1600,
            );
        }
        let mut w = crate::geom::div_floor(size.x * self.view.zoom, ZOOM_UNIT);
        let mut h = crate::geom::div_floor(size.y * self.view.zoom, ZOOM_UNIT);
        if w < 1 {
            w = 1;
        }
        if h < 1 {
            h = 1;
        }
        (corner, Point { x: w, y: h })
    }

    /// The topmost code node whose rectangle holds `p`, looking below `i`.
    pub open spec fn top_code_hit(self, i: int, p: Point) -> Option<int>
        decreases i,
    {
        if i <= 0 {
            None
        } else if self.code_hit(i - 1, p) {
            Some(i - 1)
        } else {
            self.top_code_hit(i - 1, p)
        }
    }

    /// The topmost note whose rectangle holds `p`, looking below `i`.
    pub open spec fn top_note_hit(self, i: int, p: Point) -> Option<int>
        decreases i,
    {
        if i <= 0 {
            None
        } else if self.note_hit(i - 1, p) {
            Some(i - 1)
        } else {
            self.top_note_hit(i - 1, p)
        }
    }

    /// The node a click at `p` lands on: code nodes render above notes and
    /// later entries above earlier ones, so the topmost code node wins, then
    /// the topmost note.
    pub open spec fn hit_test_spec(self, p: Point) -> Option<DragTarget> {
        match self.top_code_hit(self.store.codes@.len() as int, p) {
            Some(i) => Some(DragTarget { kind: NodeKind::Code, index: i as usize }),
            None => match self.top_note_hit(self.store.notes@.len() as int, p) {
                Some(i) => Some(DragTarget { kind: NodeKind::Note, index: i as usize }),
                None => None,
            },
        }
    }

    /// The topmost node under `p`, if any.
    pub fn hit_test(&self, p: Point) -> (r: Option<DragTarget>)
        requires
            self.wf(),
            point_within(p, SCREEN_LIMIT as int),
        ensures
            r == self.hit_test_spec(p),
    {
        let mut i: usize = self.store.codes.len();
        while i > 0
            invariant
                self.wf(),
                point_within(p, SCREEN_LIMIT as int),
                i <= self.store.codes@.len(),
                self.top_code_hit(self.store.codes@.len() as int, p) == self.top_code_hit(
                    i as int,
                    p,
                ),
            decreases i,
        {
            i = i - 1;
            let node = &self.store.codes[i];
            proof {
                assert(crate::model::code_wf(seq_view(self.store.codes@)[i as int]));
            }
            let (corner, extent) = self.node_screen_rect(node.position, node.size);
            if corner.x <= p.x && p.x <= corner.x + extent.x && corner.y <= p.y && p.y <= corner.y
                + extent.y {
                proof {
                    assert(self.code_hit(i as int, p));
                    assert(self.top_code_hit(i + 1, p) == Some(i as int));
                }
                return Some(DragTarget { kind: NodeKind::Code, index: i });
            }
            proof {
                assert(!self.code_hit(i as int, p));
                assert(self.top_code_hit(i + 1, p) == self.top_code_hit(i as int, p));
            }
        }
        let mut i: usize = self.store.notes.len();
        while i > 0
            invariant
                self.wf(),
                point_within(p, SCREEN_LIMIT as int),
                i <= self.store.notes@.len(),
                self.top_code_hit(self.store.codes@.len() as int, p) is None,
                self.top_note_hit(self.store.notes@.len() as int, p) == self.top_note_hit(
                    i as int,
                    p,
                ),
            decreases i,
        {
            i = i - 1;
            let node = &self.store.notes[i];
            proof {
                assert(crate::model::note_wf(seq_view(self.store.notes@)[i as int]));
            }
            let (corner, extent) = self.node_screen_rect(node.position, node.size);
            if corner.x <= p.x && p.x <= corner.x + extent.x && corner.y <= p.y && p.y <= corner.y
                + extent.y {
                proof {
                    assert(self.note_hit(i as int, p));
                    assert(self.top_note_hit(i + 1, p) == Some(i as int));
                }
                return Some(DragTarget { kind: NodeKind::Note, index: i });
            }
            proof {
                assert(!self.note_hit(i as int, p));
                assert(self.top_note_hit(i + 1, p) == self.top_note_hit(i as int, p));
            }
        }
        None
    }
}


impl Engine {
    /// No pointer gesture is in progress.
    pub open spec fn gesture_idle(self) -> bool {
        &&& self.current_stroke is None
        &&& !self.erasing
        &&& !self.panning
        &&& self.drag_target is None
    }

    /// The document point under the screen point `p`.
    pub open spec fn doc_point(self, p: Point) -> Point {
        Point {
            x: self.view.to_doc_coord(p.x as int, self.view.offset.x as int) as i64,
            y: self.view.to_doc_coord(p.y as int, self.view.offset.y as int) as i64,
        }
    }

    /// The document point under `p`, clamped onto the canvas: what a marker
    /// sample stores.
    pub open spec fn marker_point(self, p: Point) -> Point {
        Point {
            x: clamp_spec(
                self.view.to_doc_coord(p.x as int, self.view.offset.x as int),
                -DOC_LIMIT as int,
                DOC_LIMIT as int,
            ) as i64,
            y: clamp_spec(
                self.view.to_doc_coord(p.y as int, self.view.offset.y as int),
                -DOC_LIMIT as int,
                DOC_LIMIT as int,
            ) as i64,
        }
    }

    /// The eraser radius in document units: a constant ten screen units.
    pub open spec fn erase_threshold(zoom: int) -> int {
        10 * (ZOOM_UNIT as int) / zoom
    }

    /// The side of the hit node's screen rectangle closest to the click.
    pub open spec fn pick_side(self, pos: Point, size: Point, p: Point) -> Side {
        crate::geom::closest_side_spec(
            Point {
                x: self.view.to_screen_coord(pos.x as int, self.view.offset.x as int) as i64,
                y: self.view.to_screen_coord(pos.y as int, self.view.offset.y as int) as i64,
            },
            Point {
                x: Self::scaled_dim(self.view.zoom as int, size.x as int) as i64,
                y: Self::scaled_dim(self.view.zoom as int, size.y as int) as i64,
            },
            p,
        )
    }

    /// The document-space displacement of a drag step to `p`, scaled from
    /// screen space by the inverse zoom.
    pub open spec fn drag_delta(self, p: Point) -> Point {
        Point {
            x: ((p.x - self.drag_start.x) * (ZOOM_UNIT as int) / self.view.zoom as int) as i64,
            y: ((p.y - self.drag_start.y) * (ZOOM_UNIT as int) / self.view.zoom as int) as i64,
        }
    }

    /// Converts a screen point to a clamped document point.
    fn marker_point_at(&self, p: Point) -> (r: Point)
        requires
            self.wf(),
            point_within(p, SCREEN_LIMIT as int),
        ensures
            r == self.marker_point(p),
            point_within(r, DOC_LIMIT as int),
    {
        let d = self.view.to_document(p);
        Point {
            x: crate::geom::clamp_i64(d.x, -DOC_LIMIT, DOC_LIMIT),
            y: crate::geom::clamp_i64(d.y, -DOC_LIMIT, DOC_LIMIT),
        }
    }

    /// Applies one eraser sample at the screen point `p`.
    fn erase_sample(&mut self, p: Point)
        requires
            old(self).wf(),
            point_within(p, SCREEN_LIMIT as int),
        ensures
            final(self).wf(),
            final(self).doc_view() == (SnapshotV {
                strokes: crate::ink::erase_spec(
                    old(self).doc_view().strokes,
                    old(self).doc_point(p),
                    Self::erase_threshold(old(self).view.zoom as int),
                ),
                ..old(self).doc_view()
            }),
            final(self).hist_view().undo == old(self).hist_view().undo,
            final(self).hist_view().redo == old(self).hist_view().redo,
            final(self).store.next_id == old(self).store.next_id,
            final(self).tool == old(self).tool,
            final(self).current_stroke == old(self).current_stroke,
            final(self).erasing == old(self).erasing,
            final(self).panning == old(self).panning,
            final(self).drag_target == old(self).drag_target,
            final(self).drag_start == old(self).drag_start,
            final(self).pending_connection == old(self).pending_connection,
    {
        let c = self.view.to_document(p);
        proof {
            vstd::arithmetic::div_mod::lemma_div_pos_is_pos(
                10 * ZOOM_UNIT as int,
                self.view.zoom as int,
            );
            crate::geom::lemma_div_le_bound(10 * ZOOM_UNIT as int, self.view.zoom as int, 25);
        }
        let t = crate::geom::div_floor(10 * ZOOM_UNIT, self.view.zoom);
        let ghost pre_target = self.drag_target;
        crate::ink::erase_all(&mut self.store.strokes, c, t);
        proof {
            assert(self.doc_view() =~= (SnapshotV {
                strokes: crate::ink::erase_spec(
                    old(self).doc_view().strokes,
                    old(self).doc_point(p),
                    Self::erase_threshold(old(self).view.zoom as int),
                ),
                ..old(self).doc_view()
            }));
        }
    }

    /// A successful code hit names a real index below `i` whose rectangle
    /// holds the point.
    pub proof fn lemma_top_code_hit_bounds(self, i: int, p: Point)
        ensures
            match self.top_code_hit(i, p) {
                Some(j) => 0 <= j < i && self.code_hit(j, p),
                None => true,
            },
        decreases i,
    {
        if i > 0 && !self.code_hit(i - 1, p) {
            self.lemma_top_code_hit_bounds(i - 1, p);
        }
    }

    /// A successful note hit names a real index below `i` whose rectangle
    /// holds the point.
    pub proof fn lemma_top_note_hit_bounds(self, i: int, p: Point)
        ensures
            match self.top_note_hit(i, p) {
                Some(j) => 0 <= j < i && self.note_hit(j, p),
                None => true,
            },
        decreases i,
    {
        if i > 0 && !self.note_hit(i - 1, p) {
            self.lemma_top_note_hit_bounds(i - 1, p);
        }
    }

    /// A pointer press.  With the marker or eraser the pre-gesture state is
    /// recorded and the gesture starts; in connect mode a click on a node
    /// picks an endpoint (the second click, on any node, creates the
    /// connection and records); otherwise a press starts a node drag (on a
    /// node) or a canvas pan.  A press can only begin when no gesture is in
    /// progress: the host event loop pairs every press with a release.
    pub fn pointer_down(&mut self, p: Point)
        requires
            old(self).wf(),
            old(self).gesture_idle(),
            point_within(p, SCREEN_LIMIT as int),
            old(self).tool == Tool::Connect ==> old(self).store.connections@.len()
                < MAX_ENTITIES && old(self).store.next_id < usize::MAX,
        ensures
            final(self).wf(),
            old(self).tool == Tool::Marker ==> {
                &&& final(self).hist_view().undo == record_spec(old(self).hist_view()).undo
                &&& final(self).hist_view().redo == record_spec(old(self).hist_view()).redo
                &&& final(self).doc_view() == old(self).doc_view()
                &&& match final(self).current_stroke {
                    Some(s) => s@ == (StrokeV {
                        points: seq![old(self).marker_point(p)],
                        color: Self::ink_color(),
                        thickness: 2000,
                    }),
                    None => false,
                }
            },
            old(self).tool == Tool::Eraser ==> {
                &&& final(self).hist_view() == edit_spec(
                    old(self).hist_view(),
                    final(self).doc_view(),
                )
                &&& final(self).doc_view() == (SnapshotV {
                    strokes: crate::ink::erase_spec(
                        old(self).doc_view().strokes,
                        old(self).doc_point(p),
                        Self::erase_threshold(old(self).view.zoom as int),
                    ),
                    ..old(self).doc_view()
                })
                &&& final(self).erasing
            },
            old(self).tool == Tool::Connect ==> match old(self).hit_test_spec(p) {
                None => *final(self) == *old(self),
                Some(t) => {
                    let node_id = match t.kind {
                        NodeKind::Note => old(self).doc_view().notes[t.index as int].id,
                        NodeKind::Code => old(self).doc_view().codes[t.index as int].id,
                    };
                    let pos = match t.kind {
                        NodeKind::Note => old(self).doc_view().notes[t.index as int].position,
                        NodeKind::Code => old(self).doc_view().codes[t.index as int].position,
                    };
                    let size = match t.kind {
                        NodeKind::Note => old(self).doc_view().notes[t.index as int].size,
                        NodeKind::Code => old(self).doc_view().codes[t.index as int].size,
                    };
                    let side = old(self).pick_side(pos, size, p);
                    match old(self).pending_connection {
                        None => *final(self) == (Engine {
                            pending_connection: Some(
                                PendingConnection {
                                    node_id: node_id as usize,
                                    node_kind: t.kind,
                                    side,
                                },
                            ),
                            ..*old(self)
                        }),
                        Some(start) => {
                            &&& final(self).hist_view() == edit_spec(
                                old(self).hist_view(),
                                final(self).doc_view(),
                            )
                            &&& final(self).doc_view() == (SnapshotV {
                                connections: old(self).doc_view().connections.push(
                                    crate::model::Connection {
                                        id: old(self).store.next_id,
                                        start_node_id: start.node_id,
                                        start_node_kind: start.node_kind,
                                        start_side: start.side,
                                        end_node_id: node_id as usize,
                                        end_node_kind: t.kind,
                                        end_side: side,
                                        color: Self::ink_color(),
                                    },
                                ),
                                ..old(self).doc_view()
                            })
                            &&& final(self).pending_connection is None
                            &&& final(self).store.next_id == old(self).store.next_id + 1
                        },
                    }
                },
            },
            old(self).tool == Tool::Pan ==> match old(self).hit_test_spec(p) {
                Some(t) => {
                    &&& final(self).hist_view() == edit_spec(
                        old(self).hist_view(),
                        final(self).doc_view(),
                    )
                    &&& (t.kind == NodeKind::Note ==> final(self).doc_view() == (SnapshotV {
                        notes: old(self).doc_view().notes.update(
                            t.index as int,
                            NoteV {
                                dragging: true,
                                ..old(self).doc_view().notes[t.index as int]
                            },
                        ),
                        ..old(self).doc_view()
                    }))
                    &&& (t.kind == NodeKind::Code ==> final(self).doc_view() == (SnapshotV {
                        codes: old(self).doc_view().codes.update(
                            t.index as int,
                            CodeV {
                                dragging: true,
                                ..old(self).doc_view().codes[t.index as int]
                            },
                        ),
                        ..old(self).doc_view()
                    }))
                    &&& final(self).drag_target == Some(t)
                    &&& final(self).drag_start == p
                },
                None => *final(self) == (Engine { panning: true, drag_start: p, ..*old(self) }),
            },
            final(self).tool == old(self).tool,
            final(self).store.next_id >= old(self).store.next_id,
    {
        match self.tool {
            Tool::Marker => {
                self.record_state();
                let pt = self.marker_point_at(p);
                let mut points: Vec<Point> = Vec::new();
                points.push(pt);
                let stroke = Stroke {
                    points,
                    color: Self::make_ink_color(),
                    thickness: 2000,
                };
                proof {
                    assert(stroke@.points =~= seq![old(self).marker_point(p)]);
                }
                self.current_stroke = Some(stroke);
            },
            Tool::Eraser => {
                self.record_state();
                self.erasing = true;
                self.erase_sample(p);
                proof {
                    assert(self.hist_view() =~= edit_spec(old(self).hist_view(), self.doc_view()));
                }
            },
            Tool::Connect => {
                let hit = self.hit_test(p);
                proof {
                    self.lemma_top_code_hit_bounds(self.store.codes@.len() as int, p);
                    self.lemma_top_note_hit_bounds(self.store.notes@.len() as int, p);
                }
                match hit {
                    None => {},
                    Some(t) => {
                        let (node_id, pos, size) = match t.kind {
                            NodeKind::Note => {
                                let n = &self.store.notes[t.index];
                                (n.id, n.position, n.size)
                            },
                            NodeKind::Code => {
                                let n = &self.store.codes[t.index];
                                (n.id, n.position, n.size)
                            },
                        };
                        proof {
                            match t.kind {
                                NodeKind::Note => {
                                    assert(crate::model::note_wf(
                                        seq_view(self.store.notes@)[t.index as int],
                                    ));
                                },
                                NodeKind::Code => {
                                    assert(crate::model::code_wf(
                                        seq_view(self.store.codes@)[t.index as int],
                                    ));
                                },
                            }
                        }
                        let (corner, extent) = self.node_screen_rect(pos, size);
                        let side = crate::geom::closest_side(corner, extent, p);
                        let pending = self.pending_connection;
                        match pending {
                            None => {
                                self.pending_connection = Some(
                                    PendingConnection { node_id, node_kind: t.kind, side },
                                );
                            },
                            Some(start) => {
                                self.record_state();
                                self.store.add_connection(
                                    start.node_id,
                                    start.node_kind,
                                    start.side,
                                    node_id,
                                    t.kind,
                                    side,
                                    Self::make_ink_color(),
                                );
                                self.pending_connection = None;
                                proof {
                                    assert(self.doc_view() =~= (SnapshotV {
                                        connections: old(self).doc_view().connections.push(
                                            crate::model::Connection {
                                                id: old(self).store.next_id,
                                                start_node_id: start.node_id,
                                                start_node_kind: start.node_kind,
                                                start_side: start.side,
                                                end_node_id: node_id,
                                                end_node_kind: t.kind,
                                                end_side: side,
                                                color: Self::ink_color(),
                                            },
                                        ),
                                        ..old(self).doc_view()
                                    }));
                                    assert(self.hist_view() =~= edit_spec(
                                        old(self).hist_view(),
                                        self.doc_view(),
                                    ));
                                }
                            },
                        }
                    },
                }
            },
            Tool::Pan => {
                let hit = self.hit_test(p);
                proof {
                    self.lemma_top_code_hit_bounds(self.store.codes@.len() as int, p);
                    self.lemma_top_note_hit_bounds(self.store.notes@.len() as int, p);
                }
                match hit {
                    Some(t) => {
                        self.record_state();
                        self.store.set_node_dragging(t.kind, t.index, true);
                        self.drag_target = Some(t);
                        self.drag_start = p;
                        proof {
                            match t.kind {
                                NodeKind::Note => {
                                    assert(self.doc_view() =~= (SnapshotV {
                                        notes: old(self).doc_view().notes.update(
                                            t.index as int,
                                            NoteV {
                                                dragging: true,
                                                ..old(self).doc_view().notes[t.index as int]
                                            },
                                        ),
                                        ..old(self).doc_view()
                                    }));
                                },
                                NodeKind::Code => {
                                    assert(self.doc_view() =~= (SnapshotV {
                                        codes: old(self).doc_view().codes.update(
                                            t.index as int,
                                            CodeV {
                                                dragging: true,
                                                ..old(self).doc_view().codes[t.index as int]
                                            },
                                        ),
                                        ..old(self).doc_view()
                                    }));
                                },
                            }
                            assert(self.hist_view() =~= edit_spec(
                                old(self).hist_view(),
                                self.doc_view(),
                            ));
                        }
                    },
                    None => {
                        self.panning = true;
                        self.drag_start = p;
                    },
                }
            },
        }
    }
}


impl Engine {
    /// A pointer movement while pressed.  The marker appends a sample to the
    /// stroke in progress, the eraser erases around the pointer, a node drag
    /// moves its node by the zoom-scaled delta, and a canvas pan shifts the
    /// offset; each step re-anchors the gesture at `p`.
    pub fn pointer_move(&mut self, p: Point)
        requires
            old(self).wf(),
            point_within(p, SCREEN_LIMIT as int),
        ensures
            final(self).wf(),
            old(self).tool == Tool::Marker ==> match old(self).current_stroke {
                Some(s) => {
                    &&& final(self).doc_view() == old(self).doc_view()
                    &&& final(self).hist_view().undo == old(self).hist_view().undo
                    &&& final(self).hist_view().redo == old(self).hist_view().redo
                    &&& match final(self).current_stroke {
                        Some(s2) => s2@ == (StrokeV {
                            points: s@.points.push(old(self).marker_point(p)),
                            ..s@
                        }),
                        None => false,
                    }
                },
                None => *final(self) == *old(self),
            },
            old(self).tool == Tool::Eraser ==> if old(self).erasing {
                {
                    &&& final(self).doc_view() == (SnapshotV {
                        strokes: crate::ink::erase_spec(
                            old(self).doc_view().strokes,
                            old(self).doc_point(p),
                            Self::erase_threshold(old(self).view.zoom as int),
                        ),
                        ..old(self).doc_view()
                    })
                    &&& final(self).hist_view().undo == old(self).hist_view().undo
                    &&& final(self).hist_view().redo == old(self).hist_view().redo
                }
            } else {
                *final(self) == *old(self)
            },
            old(self).tool == Tool::Connect ==> *final(self) == *old(self),
            old(self).tool == Tool::Pan ==> match old(self).drag_target {
                Some(t) => {
                    &&& final(self).hist_view().undo == old(self).hist_view().undo
                    &&& final(self).hist_view().redo == old(self).hist_view().redo
                    &&& (t.kind == NodeKind::Note ==> final(self).doc_view() == (SnapshotV {
                        notes: old(self).doc_view().notes.update(
                            t.index as int,
                            NoteV {
                                position: crate::store::Store::moved_position(
                                    old(self).doc_view().notes[t.index as int].position,
                                    old(self).drag_delta(p),
                                ),
                                ..old(self).doc_view().notes[t.index as int]
                            },
                        ),
                        ..old(self).doc_view()
                    }))
                    &&& (t.kind == NodeKind::Code ==> final(self).doc_view() == (SnapshotV {
                        codes: old(self).doc_view().codes.update(
                            t.index as int,
                            CodeV {
                                position: crate::store::Store::moved_position(
                                    old(self).doc_view().codes[t.index as int].position,
                                    old(self).drag_delta(p),
                                ),
                                ..old(self).doc_view().codes[t.index as int]
                            },
                        ),
                        ..old(self).doc_view()
                    }))
                    &&& final(self).drag_start == p
                    &&& final(self).drag_target == old(self).drag_target
                },
                None => if old(self).panning {
                    {
                        &&& final(self).view.zoom == old(self).view.zoom
                        &&& final(self).view.offset.x == clamp_spec(
                            old(self).view.offset.x + p.x - old(self).drag_start.x,
                            -DOC_LIMIT as int,
                            DOC_LIMIT as int,
                        )
                        &&& final(self).view.offset.y == clamp_spec(
                            old(self).view.offset.y + p.y - old(self).drag_start.y,
                            -DOC_LIMIT as int,
                            DOC_LIMIT as int,
                        )
                        &&& final(self).doc_view().notes == old(self).doc_view().notes
                        &&& final(self).doc_view().codes == old(self).doc_view().codes
                        &&& final(self).doc_view().connections == old(
                            self,
                        ).doc_view().connections
                        &&& final(self).doc_view().strokes == old(self).doc_view().strokes
                        &&& final(self).hist_view().undo == old(self).hist_view().undo
                        &&& final(self).hist_view().redo == old(self).hist_view().redo
                        &&& final(self).drag_start == p
                    }
                } else {
                    *final(self) == *old(self)
                },
            },
            final(self).tool == old(self).tool,
            final(self).store.next_id == old(self).store.next_id,
    {
        match self.tool {
            Tool::Marker => {
                let pt = self.marker_point_at(p);
                let stroke = self.current_stroke.take();
                match stroke {
                    Some(mut s) => {
                        s.points.push(pt);
                        self.current_stroke = Some(s);
                    },
                    None => {},
                }
            },
            Tool::Eraser => {
                if self.erasing {
                    self.erase_sample(p);
                }
            },
            Tool::Connect => {},
            Tool::Pan => {
                let target = self.drag_target;
                match target {
                    Some(t) => {
                        let dx = p.x - self.drag_start.x;
                        let dy = p.y - self.drag_start.y;
                        proof {
                            crate::geom::lemma_div_scaled_bound(
                                dx as int * ZOOM_UNIT as int,
                                self.view.zoom as int,
                                10_000_000_000,
                            );
                            crate::geom::lemma_div_scaled_bound(
                                dy as int * ZOOM_UNIT as int,
                                self.view.zoom as int,
                                10_000_000_000,
                            );
                            assert(crate::geom::abs_spec(dx as int * ZOOM_UNIT as int)
                                <= 10_000_000_000 * self.view.zoom as int) by (nonlinear_arith)
                                requires
                                    crate::geom::abs_spec(dx as int) <= 3_000_000_000,
                                    ZOOM_UNIT == 1000,
                                    400 <= self.view.zoom <= 4000,
                            ;
                            assert(crate::geom::abs_spec(dy as int * ZOOM_UNIT as int)
                                <= 10_000_000_000 * self.view.zoom as int) by (nonlinear_arith)
                                requires
                                    crate::geom::abs_spec(dy as int) <= 3_000_000_000,
                                    ZOOM_UNIT == 1000,
                                    400 <= self.view.zoom <= 4000,
                            ;
                        }
                        let delta = Point {
                            x: crate::geom::div_floor(dx * ZOOM_UNIT, self.view.zoom),
                            y: crate::geom::div_floor(dy * ZOOM_UNIT, self.view.zoom),
                        };
                        self.store.translate_node(t.kind, t.index, delta);
                        self.drag_start = p;
                        proof {
                            match t.kind {
                                NodeKind::Note => {
                                    assert(self.doc_view() =~= (SnapshotV {
                                        notes: old(self).doc_view().notes.update(
                                            t.index as int,
                                            NoteV {
                                                position: crate::store::Store::moved_position(
                                                    old(self).doc_view().notes[t.index as int].position,
                                                    old(self).drag_delta(p),
                                                ),
                                                ..old(self).doc_view().notes[t.index as int]
                                            },
                                        ),
                                        ..old(self).doc_view()
                                    }));
                                },
                                NodeKind::Code => {
                                    assert(self.doc_view() =~= (SnapshotV {
                                        codes: old(self).doc_view().codes.update(
                                            t.index as int,
                                            CodeV {
                                                position: crate::store::Store::moved_position(
                                                    old(self).doc_view().codes[t.index as int].position,
                                                    old(self).drag_delta(p),
                                                ),
                                                ..old(self).doc_view().codes[t.index as int]
                                            },
                                        ),
                                        ..old(self).doc_view()
                                    }));
                                },
                            }
                        }
                    },
                    None => {
                        if self.panning {
                            let delta = Point {
                                x: p.x - self.drag_start.x,
                                y: p.y - self.drag_start.y,
                            };
                            self.view.pan(delta);
                            self.drag_start = p;
                        }
                    },
                }
            },
        }
    }

    /// A pointer release: the stroke in progress is committed, gestures end,
    /// and a dragged node's transient flag is cleared.  The pre-gesture state
    /// was already recorded when the gesture began.
    pub fn pointer_up(&mut self)
        requires
            old(self).wf(),
            old(self).store.strokes@.len() < MAX_ENTITIES,
        ensures
            final(self).wf(),
            final(self).gesture_idle(),
            match old(self).current_stroke {
                Some(s) => final(self).doc_view().strokes == old(self).doc_view().strokes.push(
                    s@,
                ),
                None => final(self).doc_view().strokes == old(self).doc_view().strokes,
            },
            final(self).doc_view().zoom == old(self).doc_view().zoom,
            final(self).doc_view().offset == old(self).doc_view().offset,
            final(self).doc_view().connections == old(self).doc_view().connections,
            match old(self).drag_target {
                Some(t) => {
                    &&& (t.kind == NodeKind::Note ==> final(self).doc_view().notes == old(
                        self,
                    ).doc_view().notes.update(
                        t.index as int,
                        NoteV { dragging: false, ..old(self).doc_view().notes[t.index as int] },
                    ))
                    &&& (t.kind == NodeKind::Code ==> final(self).doc_view().codes == old(
                        self,
                    ).doc_view().codes.update(
                        t.index as int,
                        CodeV { dragging: false, ..old(self).doc_view().codes[t.index as int] },
                    ))
                },
                None => {
                    &&& final(self).doc_view().notes == old(self).doc_view().notes
                    &&& final(self).doc_view().codes == old(self).doc_view().codes
                },
            },
            final(self).hist_view().undo == old(self).hist_view().undo,
            final(self).hist_view().redo == old(self).hist_view().redo,
            final(self).tool == old(self).tool,
            final(self).pending_connection == old(self).pending_connection,
            final(self).store.next_id == old(self).store.next_id,
    {
        let stroke = self.current_stroke.take();
        match stroke {
            Some(s) => {
                self.store.add_stroke(s);
            },
            None => {},
        }
        self.erasing = false;
        self.panning = false;
        let target = self.drag_target;
        match target {
            Some(t) => {
                self.store.set_node_dragging(t.kind, t.index, false);
                self.drag_target = None;
            },
            None => {},
        }
    }
}


impl Engine {
    /// Validity of one node-size axis value.
    fn coord_on_canvas(v: i64) -> (r: bool)
        ensures
            r == (-DOC_LIMIT <= v <= DOC_LIMIT),
    {
        -DOC_LIMIT <= v && v <= DOC_LIMIT
    }

    /// Checks one note against the model invariant.
    fn check_note(n: &crate::model::NoteNode) -> (r: bool)
        ensures
            r == crate::model::note_wf(n@),
    {
        Self::coord_on_canvas(n.position.x) && Self::coord_on_canvas(n.position.y)
            && crate::model::SIZE_MIN <= n.size.x && n.size.x <= crate::model::SIZE_MAX
            && crate::model::SIZE_MIN <= n.size.y && n.size.y <= crate::model::SIZE_MAX
    }

    /// Checks one code node against the model invariant.
    fn check_code(c: &crate::model::CodeNode) -> (r: bool)
        ensures
            r == crate::model::code_wf(c@),
    {
        Self::coord_on_canvas(c.position.x) && Self::coord_on_canvas(c.position.y)
            && crate::model::SIZE_MIN <= c.size.x && c.size.x <= crate::model::SIZE_MAX
            && crate::model::SIZE_MIN <= c.size.y && c.size.y <= crate::model::SIZE_MAX
    }

    /// Checks one stroke against the model invariant.
    fn check_stroke(s: &crate::model::Stroke) -> (r: bool)
        ensures
            r == stroke_wf(s@),
    {
        if !(0 <= s.thickness && s.thickness <= 1_000_000) {
            return false;
        }
        let mut i: usize = 0;
        while i < s.points.len()
            invariant
                i <= s.points@.len(),
                0 <= s.thickness <= 1_000_000,
                forall|k: int|
                    0 <= k < i ==> point_within(#[trigger] s.points@[k], DOC_LIMIT as int),
            decreases s.points@.len() - i,
        {
            let p = s.points[i];
            if !(Self::coord_on_canvas(p.x) && Self::coord_on_canvas(p.y)) {
                proof {
                    assert(!point_within(s@.points[i as int], DOC_LIMIT as int));
                }
                return false;
            }
            i = i + 1;
        }
        true
    }

    /// Checks a whole snapshot against the model invariant.
    fn check_snapshot(s: &Snapshot) -> (r: bool)
        ensures
            r == snapshot_wf(s@),
    {
        if s.notes.len() > crate::model::MAX_ENTITIES || s.codes.len()
            > crate::model::MAX_ENTITIES || s.connections.len() > crate::model::MAX_ENTITIES
            || s.strokes.len() > crate::model::MAX_ENTITIES {
            return false;
        }
        if !(crate::geom::ZOOM_MIN <= s.zoom && s.zoom <= crate::geom::ZOOM_MAX) {
            return false;
        }
        if !(Self::coord_on_canvas(s.offset.x) && Self::coord_on_canvas(s.offset.y)) {
            return false;
        }
        let mut i: usize = 0;
        while i < s.notes.len()
            invariant
                i <= s.notes@.len(),
                forall|k: int|
                    0 <= k < i ==> crate::model::note_wf(#[trigger] seq_view(s.notes@)[k]),
            decreases s.notes@.len() - i,
        {
            if !Self::check_note(&s.notes[i]) {
                proof {
                    assert(!crate::model::note_wf(s@.notes[i as int]));
                }
                return false;
            }
            i = i + 1;
        }
        let mut i: usize = 0;
        while i < s.codes.len()
            invariant
                i <= s.codes@.len(),
                forall|k: int|
                    0 <= k < i ==> crate::model::code_wf(#[trigger] seq_view(s.codes@)[k]),
            decreases s.codes@.len() - i,
        {
            if !Self::check_code(&s.codes[i]) {
                proof {
                    assert(!crate::model::code_wf(s@.codes[i as int]));
                }
                return false;
            }
            i = i + 1;
        }
        let mut i: usize = 0;
        while i < s.strokes.len()
            invariant
                i <= s.strokes@.len(),
                forall|k: int|
                    0 <= k < i ==> stroke_wf(#[trigger] seq_view(s.strokes@)[k]),
            decreases s.strokes@.len() - i,
        {
            if !Self::check_stroke(&s.strokes[i]) {
                proof {
                    assert(!stroke_wf(s@.strokes[i as int]));
                }
                return false;
            }
            i = i + 1;
        }
        true
    }

    /// Checks the identifier discipline of one snapshot against the whole
    /// machine identifier space: positive, below the maximum, and pairwise
    /// distinct across both node collections and among connections.
    fn check_ids(s: &Snapshot) -> (r: bool)
        ensures
            r == snap_ids_wf(s@, usize::MAX as int),
    {
        let mut i: usize = 0;
        while i < s.notes.len()
            invariant
                i <= s.notes@.len(),
                forall|k: int|
                    0 <= k < i ==> 0 < (#[trigger] seq_view(s.notes@)[k]).id < usize::MAX,
            decreases s.notes@.len() - i,
        {
            let id = s.notes[i].id;
            if id == 0 || id == usize::MAX {
                proof {
                    assert(!(0 < s@.notes[i as int].id < usize::MAX));
                }
                return false;
            }
            i = i + 1;
        }
        let mut i: usize = 0;
        while i < s.codes.len()
            invariant
                i <= s.codes@.len(),
                forall|k: int|
                    0 <= k < i ==> 0 < (#[trigger] seq_view(s.codes@)[k]).id < usize::MAX,
            decreases s.codes@.len() - i,
        {
            let id = s.codes[i].id;
            if id == 0 || id == usize::MAX {
                proof {
                    assert(!(0 < s@.codes[i as int].id < usize::MAX));
                }
                return false;
            }
            i = i + 1;
        }
        let mut i: usize = 0;
        while i < s.connections.len()
            invariant
                i <= s.connections@.len(),
                forall|k: int|
                    0 <= k < i ==> 0 < (#[trigger] s.connections@[k]).id < usize::MAX,
            decreases s.connections@.len() - i,
        {
            let id = s.connections[i].id;
            if id == 0 || id == usize::MAX {
                proof {
                    assert(!(0 < s@.connections[i as int].id < usize::MAX));
                }
                return false;
            }
            i = i + 1;
        }
        let mut i: usize = 0;
        while i < s.notes.len()
            invariant
                i <= s.notes@.len(),
                forall|a: int, b: int|
                    0 <= a < i && 0 <= b < s.notes@.len() && a != b ==> (#[trigger] seq_view(
                        s.notes@,
                    )[a]).id != (#[trigger] seq_view(s.notes@)[b]).id,
            decreases s.notes@.len() - i,
        {
            let mut j: usize = 0;
            while j < s.notes.len()
                invariant
                    i < s.notes@.len(),
                    j <= s.notes@.len(),
                    forall|b: int|
                        0 <= b < j && b != i ==> (#[trigger] seq_view(s.notes@)[b]).id != seq_view(
                            s.notes@,
                        )[i as int].id,
                decreases s.notes@.len() - j,
            {
                if j != i && s.notes[j].id == s.notes[i].id {
                    proof {
                        assert(s@.notes[j as int].id == s@.notes[i as int].id);
                    }
                    return false;
                }
                j = j + 1;
            }
            i = i + 1;
        }
        let mut i: usize = 0;
        while i < s.codes.len()
            invariant
                i <= s.codes@.len(),
                forall|a: int, b: int|
                    0 <= a < i && 0 <= b < s.codes@.len() && a != b ==> (#[trigger] seq_view(
                        s.codes@,
                    )[a]).id != (#[trigger] seq_view(s.codes@)[b]).id,
            decreases s.codes@.len() - i,
        {
            let mut j: usize = 0;
            while j < s.codes.len()
                invariant
                    i < s.codes@.len(),
                    j <= s.codes@.len(),
                    forall|b: int|
                        0 <= b < j && b != i ==> (#[trigger] seq_view(s.codes@)[b]).id != seq_view(
                            s.codes@,
                        )[i as int].id,
                decreases s.codes@.len() - j,
            {
                if j != i && s.codes[j].id == s.codes[i].id {
                    proof {
                        assert(s@.codes[j as int].id == s@.codes[i as int].id);
                    }
                    return false;
                }
                j = j + 1;
            }
            i = i + 1;
        }
        let mut i: usize = 0;
        while i < s.notes.len()
            invariant
                i <= s.notes@.len(),
                forall|a: int, b: int|
                    0 <= a < i && 0 <= b < s.codes@.len() ==> (#[trigger] seq_view(s.notes@)[a]).id
                        != (#[trigger] seq_view(s.codes@)[b]).id,
            decreases s.notes@.len() - i,
        {
            let mut j: usize = 0;
            while j < s.codes.len()
                invariant
                    i < s.notes@.len(),
                    j <= s.codes@.len(),
                    forall|b: int|
                        0 <= b < j ==> (#[trigger] seq_view(s.codes@)[b]).id != seq_view(
                            s.notes@,
                        )[i as int].id,
                decreases s.codes@.len() - j,
            {
                if s.codes[j].id == s.notes[i].id {
                    proof {
                        assert(s@.codes[j as int].id == s@.notes[i as int].id);
                    }
                    return false;
                }
                j = j + 1;
            }
            i = i + 1;
        }
        let mut i: usize = 0;
        while i < s.connections.len()
            invariant
                i <= s.connections@.len(),
                forall|a: int, b: int|
                    0 <= a < i && 0 <= b < s.connections@.len() && a != b ==> (
                    #[trigger] s.connections@[a]).id != (#[trigger] s.connections@[b]).id,
            decreases s.connections@.len() - i,
        {
            let mut j: usize = 0;
            while j < s.connections.len()
                invariant
                    i < s.connections@.len(),
                    j <= s.connections@.len(),
                    forall|b: int|
                        0 <= b < j && b != i ==> (#[trigger] s.connections@[b]).id
                            != s.connections@[i as int].id,
                decreases s.connections@.len() - j,
            {
                if j != i && s.connections[j].id == s.connections[i].id {
                    proof {
                        assert(s@.connections[j as int].id == s@.connections[i as int].id);
                    }
                    return false;
                }
                j = j + 1;
            }
            i = i + 1;
        }
        true
    }

    /// The largest identifier a snapshot holds, folded into `acc`.
    fn fold_max_id(s: &Snapshot, acc: usize) -> (r: usize)
        requires
            acc < usize::MAX,
            snap_ids_wf(s@, usize::MAX as int),
        ensures
            acc <= r,
            r < usize::MAX,
            forall|i: int|
                0 <= i < s@.notes.len() ==> (#[trigger] s@.notes[i]).id <= r,
            forall|i: int|
                0 <= i < s@.codes.len() ==> (#[trigger] s@.codes[i]).id <= r,
            forall|i: int|
                0 <= i < s@.connections.len() ==> (#[trigger] s@.connections[i]).id <= r,
    {
        let mut m = acc;
        let mut i: usize = 0;
        while i < s.notes.len()
            invariant
                i <= s.notes@.len(),
                acc <= m,
                m < usize::MAX,
                snap_ids_wf(s@, usize::MAX as int),
                forall|k: int| 0 <= k < i ==> (#[trigger] seq_view(s.notes@)[k]).id <= m,
            decreases s.notes@.len() - i,
        {
            proof {
                assert(0 < s@.notes[i as int].id < usize::MAX);
            }
            if s.notes[i].id > m {
                m = s.notes[i].id;
            }
            i = i + 1;
        }
        let mut i: usize = 0;
        while i < s.codes.len()
            invariant
                i <= s.codes@.len(),
                acc <= m,
                m < usize::MAX,
                snap_ids_wf(s@, usize::MAX as int),
                forall|k: int| 0 <= k < s.notes@.len() ==> (#[trigger] seq_view(s.notes@)[k]).id <= m,
                forall|k: int| 0 <= k < i ==> (#[trigger] seq_view(s.codes@)[k]).id <= m,
            decreases s.codes@.len() - i,
        {
            proof {
                assert(0 < s@.codes[i as int].id < usize::MAX);
            }
            if s.codes[i].id > m {
                m = s.codes[i].id;
            }
            i = i + 1;
        }
        let mut i: usize = 0;
        while i < s.connections.len()
            invariant
                i <= s.connections@.len(),
                acc <= m,
                m < usize::MAX,
                snap_ids_wf(s@, usize::MAX as int),
                forall|k: int| 0 <= k < s.notes@.len() ==> (#[trigger] seq_view(s.notes@)[k]).id <= m,
                forall|k: int| 0 <= k < s.codes@.len() ==> (#[trigger] seq_view(s.codes@)[k]).id <= m,
                forall|k: int| 0 <= k < i ==> (#[trigger] s.connections@[k]).id <= m,
            decreases s.connections@.len() - i,
        {
            proof {
                assert(0 < s@.connections[i as int].id < usize::MAX);
            }
            if s.connections[i].id > m {
                m = s.connections[i].id;
            }
            i = i + 1;
        }
        m
    }
}


impl Engine {
    /// Whether a decoded history may be installed: every snapshot satisfies
    /// the model invariant and the identifier discipline.
    pub open spec fn loadable(h: HistV) -> bool {
        &&& crate::codec::history_wf(h)
        &&& forall|i: int|
            0 <= i < h.undo.len() ==> snap_ids_wf(#[trigger] h.undo[i], usize::MAX as int)
        &&& forall|i: int|
            0 <= i < h.redo.len() ==> snap_ids_wf(#[trigger] h.redo[i], usize::MAX as int)
        &&& snap_ids_wf(h.current, usize::MAX as int)
    }

    /// An owned copy of the whole history: both stacks and the live document.
    pub fn project_history(&self) -> (r: crate::codec::DocumentHistory)
        requires
            self.wf(),
        ensures
            r@ == self.hist_view(),
            crate::codec::history_wf(r@),
    {
        let r = crate::codec::DocumentHistory {
            undo_stack: crate::model::clone_snapshots(&self.undo_stack),
            redo_stack: crate::model::clone_snapshots(&self.redo_stack),
            current: self.take_snapshot(),
        };
        proof {
            assert(r@ =~= self.hist_view());
        }
        r
    }

    /// Serializes the whole workspace history to its textual document form.
    pub fn save_document(&self) -> (r: Vec<u8>)
        requires
            self.wf(),
        ensures
            r@ == crate::codec::enc_history(self.hist_view()),
    {
        let history = self.project_history();
        crate::codec::serialize_history(&history)
    }

    /// Parses a textual document and, when it decodes and every contained
    /// snapshot is valid, replaces the whole workspace history with it; the
    /// identifier counter restarts above every identifier in the document.
    /// On a malformed or invalid document nothing changes and the call
    /// reports failure.
    pub fn load_document(&mut self, bytes: &Vec<u8>) -> (r: bool)
        requires
            old(self).wf(),
        ensures
            final(self).wf(),
            match crate::codec::dec_history(bytes@) {
                Some(h) => if Self::loadable(h) {
                    r && final(self).hist_view() == h
                } else {
                    !r && *final(self) == *old(self)
                },
                None => !r && *final(self) == *old(self),
            },
    {
        let decoded = crate::codec::deserialize_history(bytes);
        let history = match decoded {
            Some(h) => h,
            None => {
                return false;
            },
        };
        if !(Self::check_snapshot(&history.current) && Self::check_ids(&history.current)) {
            proof {
                assert(!Self::loadable(history@));
            }
            return false;
        }
        let mut i: usize = 0;
        while i < history.undo_stack.len()
            invariant
                i <= history.undo_stack@.len(),
                *self == *old(self),
                old(self).wf(),
                crate::codec::dec_history(bytes@) == Some(history@),
                snapshot_wf(history@.current) && snap_ids_wf(history@.current, usize::MAX as int),
                forall|k: int|
                    0 <= k < i ==> snapshot_wf(#[trigger] history@.undo[k]) && snap_ids_wf(
                        history@.undo[k],
                        usize::MAX as int,
                    ),
            decreases history.undo_stack@.len() - i,
        {
            if !(Self::check_snapshot(&history.undo_stack[i]) && Self::check_ids(
                &history.undo_stack[i],
            )) {
                proof {
                    assert(!(snapshot_wf(history@.undo[i as int]) && snap_ids_wf(
                        history@.undo[i as int],
                        usize::MAX as int,
                    )));
                    assert(!Self::loadable(history@));
                }
                return false;
            }
            i = i + 1;
        }
        let mut i: usize = 0;
        while i < history.redo_stack.len()
            invariant
                i <= history.redo_stack@.len(),
                *self == *old(self),
                old(self).wf(),
                crate::codec::dec_history(bytes@) == Some(history@),
                snapshot_wf(history@.current) && snap_ids_wf(history@.current, usize::MAX as int),
                forall|k: int|
                    0 <= k < history@.undo.len() ==> snapshot_wf(#[trigger] history@.undo[k])
                        && snap_ids_wf(history@.undo[k], usize::MAX as int),
                forall|k: int|
                    0 <= k < i ==> snapshot_wf(#[trigger] history@.redo[k]) && snap_ids_wf(
                        history@.redo[k],
                        usize::MAX as int,
                    ),
            decreases history.redo_stack@.len() - i,
        {
            if !(Self::check_snapshot(&history.redo_stack[i]) && Self::check_ids(
                &history.redo_stack[i],
            )) {
                proof {
                    assert(!(snapshot_wf(history@.redo[i as int]) && snap_ids_wf(
                        history@.redo[i as int],
                        usize::MAX as int,
                    )));
                    assert(!Self::loadable(history@));
                }
                return false;
            }
            i = i + 1;
        }
        let mut max_id: usize = 0;
        max_id = Self::fold_max_id(&history.current, max_id);
        let mut i: usize = 0;
        while i < history.undo_stack.len()
            invariant
                i <= history.undo_stack@.len(),
                max_id < usize::MAX,
                *self == *old(self),
                old(self).wf(),
                crate::codec::dec_history(bytes@) == Some(history@),
                snapshot_wf(history@.current) && snap_ids_wf(history@.current, usize::MAX as int),
                forall|k: int|
                    0 <= k < history@.undo.len() ==> snapshot_wf(#[trigger] history@.undo[k])
                        && snap_ids_wf(history@.undo[k], usize::MAX as int),
                forall|k: int|
                    0 <= k < history@.redo.len() ==> snapshot_wf(#[trigger] history@.redo[k])
                        && snap_ids_wf(history@.redo[k], usize::MAX as int),
                forall|k: int|
                    0 <= k < history@.current.notes.len() ==> (
                    #[trigger] history@.current.notes[k]).id <= max_id,
                forall|k: int|
                    0 <= k < history@.current.codes.len() ==> (
                    #[trigger] history@.current.codes[k]).id <= max_id,
                forall|k: int|
                    0 <= k < history@.current.connections.len() ==> (
                    #[trigger] history@.current.connections[k]).id <= max_id,
                forall|k: int, j: int|
                    0 <= k < i && 0 <= j < history@.undo[k].notes.len() ==> (#[trigger] history@.undo[k].notes[j]).id <= max_id,
                forall|k: int, j: int|
                    0 <= k < i && 0 <= j < history@.undo[k].codes.len() ==> (#[trigger] history@.undo[k].codes[j]).id <= max_id,
                forall|k: int, j: int|
                    0 <= k < i && 0 <= j < history@.undo[k].connections.len() ==> (#[trigger] history@.undo[k].connections[j]).id <= max_id,
            decreases history.undo_stack@.len() - i,
        {
            proof {
                assert(snap_ids_wf(history@.undo[i as int], usize::MAX as int));
            }
            max_id = Self::fold_max_id(&history.undo_stack[i], max_id);
            i = i + 1;
        }
        let ghost undo_bound = max_id as int;
        let mut i: usize = 0;
        while i < history.redo_stack.len()
            invariant
                i <= history.redo_stack@.len(),
                max_id < usize::MAX,
                undo_bound <= max_id,
                *self == *old(self),
                old(self).wf(),
                crate::codec::dec_history(bytes@) == Some(history@),
                snapshot_wf(history@.current) && snap_ids_wf(history@.current, usize::MAX as int),
                forall|k: int|
                    0 <= k < history@.undo.len() ==> snapshot_wf(#[trigger] history@.undo[k])
                        && snap_ids_wf(history@.undo[k], usize::MAX as int),
                forall|k: int|
                    0 <= k < history@.redo.len() ==> snapshot_wf(#[trigger] history@.redo[k])
                        && snap_ids_wf(history@.redo[k], usize::MAX as int),
                forall|k: int|
                    0 <= k < history@.current.notes.len() ==> (
                    #[trigger] history@.current.notes[k]).id <= undo_bound,
                forall|k: int|
                    0 <= k < history@.current.codes.len() ==> (
                    #[trigger] history@.current.codes[k]).id <= undo_bound,
                forall|k: int|
                    0 <= k < history@.current.connections.len() ==> (
                    #[trigger] history@.current.connections[k]).id <= undo_bound,
                forall|k: int, j: int|
                    0 <= k < history@.undo.len() && 0 <= j < history@.undo[k].notes.len() ==> (#[trigger] history@.undo[k].notes[j]).id <= undo_bound,
                forall|k: int, j: int|
                    0 <= k < history@.undo.len() && 0 <= j < history@.undo[k].codes.len() ==> (#[trigger] history@.undo[k].codes[j]).id <= undo_bound,
                forall|k: int, j: int|
                    0 <= k < history@.undo.len() && 0 <= j < history@.undo[k].connections.len() ==> (#[trigger] history@.undo[k].connections[j]).id <= undo_bound,
                forall|k: int, j: int|
                    0 <= k < i && 0 <= j < history@.redo[k].notes.len() ==> (#[trigger] history@.redo[k].notes[j]).id <= max_id,
                forall|k: int, j: int|
                    0 <= k < i && 0 <= j < history@.redo[k].codes.len() ==> (#[trigger] history@.redo[k].codes[j]).id <= max_id,
                forall|k: int, j: int|
                    0 <= k < i && 0 <= j < history@.redo[k].connections.len() ==> (#[trigger] history@.redo[k].connections[j]).id <= max_id,
            decreases history.redo_stack@.len() - i,
        {
            proof {
                assert(snap_ids_wf(history@.redo[i as int], usize::MAX as int));
            }
            max_id = Self::fold_max_id(&history.redo_stack[i], max_id);
            i = i + 1;
        }
        let next_id = max_id + 1;
        let ghost hv = history@;
        let crate::codec::DocumentHistory { undo_stack, redo_stack, current } = history;
        self.clear_tool_state();
        self.drag_target = None;
        self.undo_stack = Vec::new();
        self.redo_stack = Vec::new();
        self.store.clear_entities();
        self.store.next_id = next_id;
        proof {
            assert(seq_view(self.undo_stack@) =~= Seq::<SnapshotV>::empty());
            assert(seq_view(self.redo_stack@) =~= Seq::<SnapshotV>::empty());
        }
        self.undo_stack = undo_stack;
        self.redo_stack = redo_stack;
        proof {
            assert(seq_view(self.undo_stack@) == hv.undo);
            assert(seq_view(self.redo_stack@) == hv.redo);
            assert forall|k: int| 0 <= k < self.undo_stack@.len() implies snapshot_wf(
                #[trigger] seq_view(self.undo_stack@)[k],
            ) && snap_ids_wf(seq_view(self.undo_stack@)[k], self.store.next_id as int) by {
                assert(snapshot_wf(hv.undo[k]) && snap_ids_wf(hv.undo[k], usize::MAX as int));
            }
            assert forall|k: int| 0 <= k < self.redo_stack@.len() implies snapshot_wf(
                #[trigger] seq_view(self.redo_stack@)[k],
            ) && snap_ids_wf(seq_view(self.redo_stack@)[k], self.store.next_id as int) by {
                assert(snapshot_wf(hv.redo[k]) && snap_ids_wf(hv.redo[k], usize::MAX as int));
            }
        }
        self.restore_snapshot(current);
        proof {
            assert(self.hist_view() =~= crate::codec::dec_history(bytes@).unwrap());
        }
        true
    }
}


} // verus!
