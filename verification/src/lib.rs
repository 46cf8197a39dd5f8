//! A half-edge graph for polygonal meshes.
//!
//! A mesh is kept as vertices, arcs, edges and faces. An arc runs from one
//! vertex to another; its opposite arc runs back, and the two make an edge.
//! Each arc has a next and a previous arc, and the walk along next arcs is a
//! ring: the ring of a face where the arcs have one, a boundary where they
//! have none.
//!
//! `MeshGraph` owns the elements and is consistent whenever it can be
//! observed. Views read and traverse it; views over an exclusive reference
//! also edit it. Every edit checks what can fail before it changes anything.

pub mod binder;
pub mod buffer;
pub mod graph;
pub mod interop;
pub mod key;
pub mod mutation;
pub mod orbit;
pub mod payload;
pub mod selector;
pub mod storage;
pub mod topology;
pub mod view;

pub use buffer::{Arity, IndexedFace, KeyedFace, RawBuffers};
pub use graph::MeshGraph;
pub use key::{ArcKey, EdgeKey, FaceKey, OpaqueKey, PairKey, SlotKey, VertexKey};
pub use mutation::edge::{EdgeRemoval, Extrusion};
pub use payload::{ArcPayload, Bare, EdgePayload, FacePayload, GraphGeometry, VertexPayload};
pub use selector::Selector::{ByIndex, ByKey};
pub use selector::{GraphError, Selector};
pub use view::edge::{ArcOrphan, ArcView, EdgeOrphan, EdgeView, Edgoid};
pub use view::face::{FaceOrphan, FaceView, RingView};
pub use view::path::PathView;
pub use view::vertex::{OrphanVertexView, VertexOrphan, VertexView};
