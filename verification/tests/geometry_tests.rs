use cnf_infinity::{Engine, Point, Side};

#[test]
fn screen_document_transform_round_trip_on_grid_points() {
    let mut e = Engine::new();
    e.on_scroll(0);
    let doc = Point { x: 123, y: -456 };
    let screen = e.view.to_screen(doc);
    assert_eq!(screen, Point { x: 246, y: -912 });
    assert_eq!(e.view.to_document(screen), doc);
}

#[test]
fn side_normals_are_unit_outward_vectors() {
    assert_eq!(cnf_infinity::side_normal(Side::Top), Point { x: 0, y: -1 });
    assert_eq!(cnf_infinity::side_normal(Side::Bottom), Point { x: 0, y: 1 });
    assert_eq!(cnf_infinity::side_normal(Side::Left), Point { x: -1, y: 0 });
    assert_eq!(cnf_infinity::side_normal(Side::Right), Point { x: 1, y: 0 });
}

#[test]
fn single_anchor_sits_at_the_side_midpoint() {
    let pos = Point { x: 0, y: 0 };
    let size = Point { x: 200, y: 100 };
    let a = cnf_infinity::anchor_point(pos, size, Side::Top, 0, 1);
    assert_eq!(a, Point { x: 100, y: 0 });
    let b = cnf_infinity::anchor_point(pos, size, Side::Right, 0, 1);
    assert_eq!(b, Point { x: 200, y: 50 });
}

#[test]
fn two_anchors_are_increasing_and_balanced() {
    let pos = Point { x: 0, y: 0 };
    let size = Point { x: 300, y: 60 };
    let first = cnf_infinity::anchor_point(pos, size, Side::Bottom, 0, 2);
    let second = cnf_infinity::anchor_point(pos, size, Side::Bottom, 1, 2);
    assert_eq!(first, Point { x: 100, y: 60 });
    assert_eq!(second, Point { x: 200, y: 60 });
    assert!(first.x < second.x);
    // the two anchors mirror each other about the midpoint at 150
    assert_eq!(first.x - 0, 300 - second.x);
}

#[test]
fn closest_side_picks_the_nearest_edge() {
    let pos = Point { x: 0, y: 0 };
    let size = Point { x: 100, y: 100 };
    assert_eq!(
        cnf_infinity::closest_side(pos, size, Point { x: 50, y: 3 }),
        Side::Top
    );
    assert_eq!(
        cnf_infinity::closest_side(pos, size, Point { x: 50, y: 97 }),
        Side::Bottom
    );
    assert_eq!(
        cnf_infinity::closest_side(pos, size, Point { x: 2, y: 50 }),
        Side::Left
    );
    assert_eq!(
        cnf_infinity::closest_side(pos, size, Point { x: 98, y: 50 }),
        Side::Right
    );
}

#[test]
fn bezier_endpoints_match_the_control_endpoints() {
    let p0 = Point { x: 0, y: 0 };
    let p1 = Point { x: 10, y: 30 };
    let p2 = Point { x: 20, y: 30 };
    let p3 = Point { x: 30, y: 0 };
    let pts = cnf_infinity::compute_cubic_bezier_points(p0, p1, p2, p3, 30);
    assert_eq!(pts.len(), 31);
    assert_eq!(pts[0], p0);
    assert_eq!(pts[30], p3);
    // the midpoint of a symmetric curve sits midway horizontally
    assert_eq!(pts[15].x, 15);
}

#[test]
fn routed_connection_bows_away_and_carries_an_arrowhead() {
    let mut e = Engine::new();
    e.cmd_create_note(Point { x: 0, y: 0 });
    e.cmd_create_note(Point { x: 400, y: 0 });
    e.toggle_connect();
    e.pointer_down(Point { x: 399, y: 40 });
    e.pointer_up();
    e.pointer_down(Point { x: 801, y: 40 });
    e.pointer_up();
    let routed = e.route_connection(0);
    // the start side holds the single outgoing arrow, so its anchor sits at
    // the side midpoint; the end side ranks arrows by their start anchors,
    // as the reference behavior does, so its anchor falls at the far corner
    assert_eq!(routed.start_anchor, Point { x: 400, y: 40 });
    assert_eq!(routed.end_anchor, Point { x: 800, y: 80 });
    assert_eq!(routed.polyline.len(), 31);
    assert_eq!(routed.polyline[0], routed.start_anchor);
    assert_eq!(routed.polyline[30], routed.end_anchor);
    // control points bow 50 units along the outward normals
    assert_eq!(routed.control1, Point { x: 570, y: 52 });
    assert_eq!(routed.control2, Point { x: 630, y: 68 });
    // the arrowhead flanks sit behind the tip, spread to both sides
    assert_eq!(routed.head_scale, 170);
    assert_eq!(routed.head_left, Point { x: 789, y: 85 });
    assert_eq!(routed.head_right, Point { x: 791, y: 75 });
}

#[test]
fn dangling_connection_routes_against_the_origin_placeholder() {
    let mut e = Engine::new();
    e.cmd_create_note(Point { x: 0, y: 0 });
    e.cmd_create_note(Point { x: 400, y: 0 });
    e.toggle_connect();
    e.pointer_down(Point { x: 399, y: 40 });
    e.pointer_up();
    e.pointer_down(Point { x: 801, y: 40 });
    e.pointer_up();
    e.toggle_connect();
    e.cmd_delete_node(cnf_infinity::NodeKind::Note, 1);
    // the connection still routes; its end collapses to the zero-size
    // placeholder at the document origin
    let routed = e.route_connection(0);
    assert_eq!(routed.polyline.len(), 31);
    assert_eq!(routed.start_anchor, Point { x: 400, y: 40 });
    assert_eq!(routed.end_anchor, Point { x: 0, y: 0 });
}

#[test]
fn preview_curve_follows_the_pointer() {
    let mut e = Engine::new();
    e.cmd_create_note(Point { x: 0, y: 0 });
    e.toggle_connect();
    e.pointer_down(Point { x: 399, y: 40 });
    e.pointer_up();
    let routed = e.route_preview(Point { x: 700, y: 300 });
    assert_eq!(routed.start_anchor, Point { x: 400, y: 40 });
    assert_eq!(routed.end_anchor, Point { x: 700, y: 300 });
    assert_eq!(routed.polyline[30], Point { x: 700, y: 300 });
}
