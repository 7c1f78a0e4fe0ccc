//! The undo/redo mechanism as a mathematical transition system over
//! history states, together with the inverse law that makes it an undo.
//!
//! A history state is the pair of snapshot stacks plus the live document.
//! Recording pushes the live document onto the undo stack (dropping the
//! oldest entry once the stack is full) and clears the redo stack; an edit is
//! a recording followed by a change of the live document.
use vstd::prelude::*;

use crate::model::SnapshotV;

verus! {

/// Upper bound on the undo stack; recording beyond it drops the oldest entry.
pub const UNDO_CAP: usize = 256;

/// A history state: the undo and redo stacks and the live document.
#[verifier::ext_equal]
pub ghost struct HistV {
    pub undo: Seq<SnapshotV>,
    pub redo: Seq<SnapshotV>,
    pub current: SnapshotV,
}

/// Pushing onto a bounded stack: at the cap the oldest entry falls out.
pub open spec fn push_capped(s: Seq<SnapshotV>, v: SnapshotV) -> Seq<SnapshotV> {
    if s.len() < UNDO_CAP {
        s.push(v)
    } else {
        s.skip(1).push(v)
    }
}

/// What recording the live document does to a history state.
pub open spec fn record_spec(h: HistV) -> HistV {
    HistV { undo: push_capped(h.undo, h.current), redo: Seq::empty(), current: h.current }
}

/// An edit: the pre-state is recorded, then the live document becomes `b`.
pub open spec fn edit_spec(h: HistV, b: SnapshotV) -> HistV {
    HistV { undo: push_capped(h.undo, h.current), redo: Seq::empty(), current: b }
}

/// What undoing does: the newest undo entry becomes live and the previous
/// live document is kept for redo; with an empty undo stack, nothing.
pub open spec fn undo_spec(h: HistV) -> HistV {
    if h.undo.len() > 0 {
        HistV { undo: h.undo.drop_last(), redo: h.redo.push(h.current), current: h.undo.last() }
    } else {
        h
    }
}

/// What redoing does: symmetric to undoing; with an empty redo stack, nothing.
pub open spec fn redo_spec(h: HistV) -> HistV {
    if h.redo.len() > 0 {
        HistV { undo: h.undo.push(h.current), redo: h.redo.drop_last(), current: h.redo.last() }
    } else {
        h
    }
}

/// The undo/redo inverse law.  Starting from any history whose live document
/// is `A`, an edit to `B` is undone by `undo` (the live document is `A`
/// again) and restored exactly by `redo`; and any edit performed after an
/// undo leaves the redo stack empty.
pub proof fn lemma_undo_redo_inverse(h: HistV, b: SnapshotV, c: SnapshotV)
    ensures
        undo_spec(edit_spec(h, b)).current == h.current,
        redo_spec(undo_spec(edit_spec(h, b))) == edit_spec(h, b),
        edit_spec(undo_spec(edit_spec(h, b)), c).redo == Seq::<SnapshotV>::empty(),
{
    let e = edit_spec(h, b);
    let u = undo_spec(e);
    assert(e.undo.last() == h.current);
    assert(u.current == h.current);
    assert(redo_spec(u).undo =~= e.undo);
    assert(redo_spec(u).redo =~= e.redo);
    assert(redo_spec(u) =~= e);
}

/// Undoing after a plain recording restores the recorded document.
pub proof fn lemma_record_then_undo(h: HistV)
    ensures
        undo_spec(record_spec(h)).current == h.current,
{
}

} // verus!
