use cnf_infinity::{Direction, Engine, NodeKind, Point, Tool};

fn note_pos(e: &Engine, i: usize) -> Point {
    e.store.notes[i].position
}

#[test]
fn fresh_workspace_defaults() {
    let e = Engine::new();
    assert_eq!(e.view.zoom, 2000);
    assert_eq!(e.view.offset, Point { x: 0, y: 0 });
    assert_eq!(e.store.next_id, 1);
    assert!(e.store.notes.is_empty());
    assert!(e.undo_stack.is_empty());
    assert!(e.redo_stack.is_empty());
    assert!(!e.panning);
    assert!(!e.erasing);
    assert!(e.current_stroke.is_none());
    assert!(e.drag_target.is_none());
    assert!(e.pending_connection.is_none());
}

#[test]
fn create_note_assigns_monotonic_ids() {
    let mut e = Engine::new();
    e.cmd_create_note(Point { x: 10, y: 20 });
    e.cmd_create_code(Point { x: 30, y: 40 });
    e.cmd_create_note(Point { x: 50, y: 60 });
    assert_eq!(e.store.notes[0].id, 1);
    assert_eq!(e.store.codes[0].id, 2);
    assert_eq!(e.store.notes[1].id, 3);
    assert_eq!(e.store.next_id, 4);
    assert_eq!(e.store.notes[0].size, Point { x: 200, y: 40 });
    assert_eq!(e.store.codes[0].size, Point { x: 300, y: 40 });
}

#[test]
fn undo_redo_inverse_on_create() {
    let mut e = Engine::new();
    e.cmd_create_note(Point { x: 10, y: 20 });
    assert_eq!(e.store.notes.len(), 1);
    e.undo();
    assert_eq!(e.store.notes.len(), 0);
    e.redo();
    assert_eq!(e.store.notes.len(), 1);
    assert_eq!(note_pos(&e, 0), Point { x: 10, y: 20 });
}

#[test]
fn new_edit_after_undo_clears_redo() {
    let mut e = Engine::new();
    e.cmd_create_note(Point { x: 10, y: 20 });
    e.undo();
    assert!(!e.redo_stack.is_empty());
    e.cmd_create_code(Point { x: 1, y: 2 });
    assert!(e.redo_stack.is_empty());
    e.redo();
    assert_eq!(e.store.codes.len(), 1);
}

#[test]
fn delete_and_reorder_nodes() {
    let mut e = Engine::new();
    e.cmd_create_note(Point { x: 1, y: 1 });
    e.cmd_create_note(Point { x: 2, y: 2 });
    e.cmd_create_note(Point { x: 3, y: 3 });
    e.cmd_reorder_node(NodeKind::Note, 0, Direction::Forward);
    assert_eq!(note_pos(&e, 0), Point { x: 2, y: 2 });
    assert_eq!(note_pos(&e, 1), Point { x: 1, y: 1 });
    // a reorder at the boundary is a no-op and records nothing
    let undo_depth = e.undo_stack.len();
    e.cmd_reorder_node(NodeKind::Note, 0, Direction::Backward);
    assert_eq!(e.undo_stack.len(), undo_depth);
    e.cmd_delete_node(NodeKind::Note, 1);
    assert_eq!(e.store.notes.len(), 2);
    assert_eq!(note_pos(&e, 0), Point { x: 2, y: 2 });
    assert_eq!(note_pos(&e, 1), Point { x: 3, y: 3 });
}

#[test]
fn size_clamped_between_one_and_four_hundred() {
    let mut e = Engine::new();
    e.cmd_create_note(Point { x: 0, y: 0 });
    e.set_node_size(NodeKind::Note, 0, 100_000, -5);
    assert_eq!(e.store.notes[0].size, Point { x: 400, y: 1 });
    e.set_node_size(NodeKind::Note, 0, 37, 42);
    assert_eq!(e.store.notes[0].size, Point { x: 37, y: 42 });
}

#[test]
fn zoom_clamped_for_any_scroll_sequence() {
    let mut e = Engine::new();
    for _ in 0..50 {
        e.on_scroll(900);
        assert!(e.view.zoom >= 400 && e.view.zoom <= 4000);
    }
    assert_eq!(e.view.zoom, 4000);
    for _ in 0..200 {
        e.on_scroll(-900);
        assert!(e.view.zoom >= 400 && e.view.zoom <= 4000);
    }
    assert_eq!(e.view.zoom, 400);
    e.cmd_reset_zoom();
    assert_eq!(e.view.zoom, 2000);
}

#[test]
fn scenario_drag_and_lock_with_two_undos() {
    let mut e = Engine::new();
    e.cmd_create_note(Point { x: 100, y: 100 });
    // screen rectangle at zoom 2, offset zero: (200,200) to (600,280)
    let corner = e.view.to_screen(Point { x: 100, y: 100 });
    let far = e.view.to_screen(Point { x: 300, y: 140 });
    assert_eq!(corner, Point { x: 200, y: 200 });
    assert_eq!(far, Point { x: 600, y: 280 });
    // drag by screen delta (20, 0): document position moves by 10
    e.pointer_down(Point { x: 250, y: 220 });
    assert!(e.store.notes[0].dragging);
    e.pointer_move(Point { x: 270, y: 220 });
    e.pointer_up();
    assert!(!e.store.notes[0].dragging);
    assert_eq!(note_pos(&e, 0), Point { x: 110, y: 100 });
    // lock it: a separate recorded gesture
    e.cmd_lock_note(0);
    assert!(e.store.notes[0].locked);
    // one undo reverts the lock only
    e.undo();
    assert!(!e.store.notes[0].locked);
    assert_eq!(note_pos(&e, 0), Point { x: 110, y: 100 });
    // the second undo reverts the drag
    e.undo();
    assert_eq!(note_pos(&e, 0), Point { x: 100, y: 100 });
    // two redos restore both changes
    e.redo();
    assert_eq!(note_pos(&e, 0), Point { x: 110, y: 100 });
    e.redo();
    assert!(e.store.notes[0].locked);
    assert_eq!(note_pos(&e, 0), Point { x: 110, y: 100 });
}

#[test]
fn panning_moves_offset_only() {
    let mut e = Engine::new();
    e.pointer_down(Point { x: 500, y: 500 });
    e.pointer_move(Point { x: 530, y: 480 });
    e.pointer_up();
    assert_eq!(e.view.offset, Point { x: 30, y: -20 });
    assert!(e.undo_stack.is_empty());
}

#[test]
fn marker_gesture_commits_one_stroke_and_one_history_entry() {
    let mut e = Engine::new();
    e.toggle_marker();
    assert_eq!(e.tool, Tool::Marker);
    e.pointer_down(Point { x: 10, y: 10 });
    e.pointer_move(Point { x: 20, y: 10 });
    e.pointer_move(Point { x: 30, y: 10 });
    e.pointer_up();
    assert_eq!(e.store.strokes.len(), 1);
    assert_eq!(e.store.strokes[0].points.len(), 3);
    // at zoom 2 with no offset, screen (10, 10) is document (5, 5)
    assert_eq!(e.store.strokes[0].points[0], Point { x: 5, y: 5 });
    assert_eq!(e.store.strokes[0].thickness, 2000);
    e.undo();
    assert_eq!(e.store.strokes.len(), 0);
}

#[test]
fn eraser_far_away_leaves_strokes_untouched() {
    let mut e = Engine::new();
    e.toggle_marker();
    e.pointer_down(Point { x: 10, y: 10 });
    e.pointer_move(Point { x: 20, y: 10 });
    e.pointer_up();
    let before: Vec<Point> = e.store.strokes[0].points.clone();
    e.toggle_eraser();
    assert_eq!(e.tool, Tool::Eraser);
    e.pointer_down(Point { x: 900, y: 900 });
    e.pointer_up();
    assert_eq!(e.store.strokes.len(), 1);
    assert_eq!(e.store.strokes[0].points, before);
}

#[test]
fn eraser_near_drops_points_and_short_strokes() {
    let mut e = Engine::new();
    e.toggle_marker();
    e.pointer_down(Point { x: 10, y: 10 });
    e.pointer_move(Point { x: 20, y: 10 });
    e.pointer_up();
    e.toggle_eraser();
    // erase around document point (5, 5): threshold is 10000/2000 = 5 units
    e.pointer_down(Point { x: 10, y: 10 });
    e.pointer_up();
    // both points of the stroke are within 5 units, so the stroke is gone
    assert_eq!(e.store.strokes.len(), 0);
}

#[test]
fn tools_are_mutually_exclusive() {
    let mut e = Engine::new();
    e.toggle_marker();
    assert_eq!(e.tool, Tool::Marker);
    e.toggle_eraser();
    assert_eq!(e.tool, Tool::Eraser);
    e.toggle_connect();
    assert_eq!(e.tool, Tool::Connect);
    e.toggle_connect();
    assert_eq!(e.tool, Tool::Pan);
}

#[test]
fn connect_two_clicks_create_a_connection() {
    let mut e = Engine::new();
    e.cmd_create_note(Point { x: 0, y: 0 });
    e.cmd_create_note(Point { x: 500, y: 0 });
    e.toggle_connect();
    // click the right edge of the first note, then the left edge of the second
    e.pointer_down(Point { x: 395, y: 40 });
    e.pointer_up();
    assert!(e.pending_connection.is_some());
    assert_eq!(e.store.connections.len(), 0);
    e.pointer_down(Point { x: 1005, y: 40 });
    e.pointer_up();
    assert!(e.pending_connection.is_none());
    assert_eq!(e.store.connections.len(), 1);
    let c = &e.store.connections[0];
    assert_eq!(c.start_node_id, 1);
    assert_eq!(c.end_node_id, 2);
    assert_eq!(c.start_node_kind, NodeKind::Note);
    e.undo();
    assert_eq!(e.store.connections.len(), 0);
}

#[test]
fn hit_test_prefers_topmost_and_code_over_note() {
    let mut e = Engine::new();
    e.cmd_create_note(Point { x: 0, y: 0 });
    e.cmd_create_code(Point { x: 0, y: 0 });
    let hit = e.hit_test(Point { x: 10, y: 10 }).unwrap();
    assert_eq!(hit.kind, NodeKind::Code);
    e.cmd_create_note(Point { x: 0, y: 0 });
    e.cmd_delete_node(NodeKind::Code, 0);
    let hit = e.hit_test(Point { x: 10, y: 10 }).unwrap();
    assert_eq!(hit.kind, NodeKind::Note);
    assert_eq!(hit.index, 1);
    assert!(e.hit_test(Point { x: 100_000, y: 100_000 }).is_none());
}

#[test]
fn new_document_clears_everything_but_keeps_the_counter() {
    let mut e = Engine::new();
    e.cmd_create_note(Point { x: 1, y: 1 });
    e.cmd_create_note(Point { x: 2, y: 2 });
    e.on_scroll(500);
    e.cmd_new_document();
    assert_eq!(e.store.notes.len(), 0);
    assert_eq!(e.view.zoom, 2000);
    assert_eq!(e.view.offset, Point { x: 0, y: 0 });
    assert_eq!(e.store.next_id, 3);
    assert_eq!(e.undo_stack.len(), 1);
    assert!(e.redo_stack.is_empty());
}

#[test]
fn text_edits_are_not_recorded() {
    let mut e = Engine::new();
    e.cmd_create_note(Point { x: 0, y: 0 });
    let depth = e.undo_stack.len();
    e.set_note_text(0, b"hello".to_vec());
    assert_eq!(e.store.notes[0].text, b"hello".to_vec());
    assert_eq!(e.undo_stack.len(), depth);
}
