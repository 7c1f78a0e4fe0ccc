use cnf_infinity::{Engine, NodeKind, Point};

#[test]
fn round_trip_reproduces_the_whole_document() {
    let mut e = Engine::new();
    e.cmd_create_note(Point { x: 100, y: 100 });
    e.set_note_text(0, b"a note\nwith two lines".to_vec());
    e.cmd_create_code(Point { x: -50, y: 300 });
    e.set_code_path(0, b"src/lib.rs".to_vec());
    e.set_code_text(0, b"fn main() {}".to_vec());
    e.cmd_lock_note(0);
    e.toggle_marker();
    e.pointer_down(Point { x: 10, y: 10 });
    e.pointer_move(Point { x: 40, y: 60 });
    e.pointer_up();
    e.toggle_marker();
    e.toggle_connect();
    e.pointer_down(Point { x: 210, y: 210 });
    e.pointer_up();
    e.pointer_down(Point { x: -90, y: 620 });
    e.pointer_up();
    e.undo();
    let history = e.project_history();
    let bytes = e.save_document();
    let mut restored = Engine::new();
    assert!(restored.load_document(&bytes));
    let reloaded = restored.project_history();
    assert_eq!(history, reloaded);
    assert_eq!(restored.view.zoom, e.view.zoom);
    assert_eq!(restored.view.offset, e.view.offset);
    assert_eq!(restored.store.notes, e.store.notes);
    assert_eq!(restored.store.codes, e.store.codes);
    assert_eq!(restored.store.connections, e.store.connections);
    assert_eq!(restored.store.strokes, e.store.strokes);
}

#[test]
fn round_trip_of_an_empty_workspace() {
    let e = Engine::new();
    let bytes = e.save_document();
    let mut restored = Engine::new();
    assert!(restored.load_document(&bytes));
    assert_eq!(restored.project_history(), e.project_history());
}

#[test]
fn loading_restarts_the_identifier_counter_above_every_id() {
    let mut e = Engine::new();
    e.cmd_create_note(Point { x: 1, y: 1 });
    e.cmd_create_note(Point { x: 2, y: 2 });
    e.cmd_create_code(Point { x: 3, y: 3 });
    let bytes = e.save_document();
    let mut restored = Engine::new();
    assert!(restored.load_document(&bytes));
    assert_eq!(restored.store.next_id, 4);
    restored.cmd_create_note(Point { x: 9, y: 9 });
    assert_eq!(restored.store.notes[2].id, 4);
}

#[test]
fn malformed_documents_are_rejected_without_change() {
    let mut e = Engine::new();
    e.cmd_create_note(Point { x: 7, y: 7 });
    let before = e.project_history();
    assert!(!e.load_document(&b"not a document".to_vec()));
    assert!(!e.load_document(&Vec::new()));
    // a truncated serialization is rejected too
    let mut bytes = e.save_document();
    bytes.pop();
    assert!(!e.load_document(&bytes));
    // trailing bytes are rejected
    let mut bytes = e.save_document();
    bytes.push(b' ');
    assert!(!e.load_document(&bytes));
    assert_eq!(e.project_history(), before);
}

#[test]
fn serialized_form_is_textual_tokens() {
    let e = Engine::new();
    let bytes = e.save_document();
    // version 1, empty undo stack, empty redo stack, then the blank snapshot:
    // four empty collections, zoom two thousand, zero offset
    assert_eq!(bytes, b"1 0 0 0 0 0 0 2000 0 0 ".to_vec());
}

#[test]
fn connections_survive_the_round_trip_exactly() {
    let mut e = Engine::new();
    e.cmd_create_note(Point { x: 0, y: 0 });
    e.cmd_create_note(Point { x: 400, y: 0 });
    e.toggle_connect();
    e.pointer_down(Point { x: 10, y: 10 });
    e.pointer_up();
    e.pointer_down(Point { x: 810, y: 10 });
    e.pointer_up();
    let bytes = e.save_document();
    let mut restored = Engine::new();
    assert!(restored.load_document(&bytes));
    let c = &restored.store.connections[0];
    assert_eq!(c.start_node_id, 1);
    assert_eq!(c.end_node_id, 2);
    assert_eq!(c.start_node_kind, NodeKind::Note);
    assert_eq!(c.end_node_kind, NodeKind::Note);
    assert_eq!(c.color, e.store.connections[0].color);
}

#[test]
fn documents_with_out_of_range_zoom_are_rejected() {
    let mut e = Engine::new();
    let before = e.project_history();
    // a decodable document whose zoom lies outside [0.4, 4.0]
    let bytes = b"1 0 0 0 0 0 0 9999 0 0 ".to_vec();
    assert!(!e.load_document(&bytes));
    assert_eq!(e.project_history(), before);
}

#[test]
fn documents_with_duplicate_identifiers_are_rejected() {
    let mut e = Engine::new();
    let before = e.project_history();
    let note = "5 0 0 200 40 0  0 0 ";
    let doc = format!("1 0 0 2 {note}{note}0 0 0 2000 0 0 ");
    assert!(!e.load_document(&doc.into_bytes()));
    assert_eq!(e.project_history(), before);
}

#[test]
fn a_valid_hand_written_document_loads() {
    let mut e = Engine::new();
    let doc = "1 0 0 1 5 10 -20 200 40 2 hi 0 1 0 0 0 2000 3 -4 ";
    assert!(e.load_document(&doc.as_bytes().to_vec()));
    assert_eq!(e.store.notes.len(), 1);
    assert_eq!(e.store.notes[0].id, 5);
    assert_eq!(e.store.notes[0].position, Point { x: 10, y: -20 });
    assert_eq!(e.store.notes[0].text, b"hi".to_vec());
    assert!(e.store.notes[0].locked);
    assert_eq!(e.view.offset, Point { x: 3, y: -4 });
    assert_eq!(e.store.next_id, 6);
}
