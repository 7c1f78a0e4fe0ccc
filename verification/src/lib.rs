//! Core engine of an infinite-canvas visual workspace.
//!
//! The library owns the document model (notes, code snippets, connections,
//! freehand ink), the screen/document coordinate transform, connection
//! routing, undo/redo history, and the textual document codec.  All geometry
//! lives on an integer grid of document units; the zoom factor is kept in
//! thousandths so that every transform is exact integer arithmetic.
mod codec;
mod engine;
mod geom;
mod history;
mod ink;
mod model;
mod router;
mod snippet;
mod store;
mod transform;

pub use codec::{deserialize_history, serialize_history, DocumentHistory};
pub use engine::{DragTarget, Engine, PendingConnection, Tool};
pub use geom::{anchor_point, closest_side, compute_cubic_bezier_points, side_normal, Point, Side};
pub use model::{CodeNode, Color, Connection, NodeKind, NoteNode, Snapshot, Stroke};
pub use router::RoutedArrow;
pub use snippet::find_snippet_line;
pub use store::{Direction, Store};
pub use transform::ViewTransform;
