//! What the storage keeps for each element: its geometry and the keys it
//! refers to.

use crate::key::{ArcKey, EdgeKey, FaceKey};
use crate::topology::ArcLinks;
use vstd::prelude::*;

verus! {

/// The geometry that a graph carries on its vertices, arcs, edges and faces.
///
/// Arcs, edges and faces that an edit creates start with the default value of
/// their geometry; the faces that take the place of a face get clones of its
/// geometry.
pub trait GraphGeometry {
    type Vertex;

    type Arc: Default;

    type Edge: Default;

    type Face: Default + Clone;
}

/// The geometry is a value that `Default::default` gives for its type.
pub open spec fn is_default<T: Default>(geometry: T) -> bool {
    call_ensures(T::default, (), geometry)
}

/// No geometry: the geometry of a graph of connectivity alone.
#[derive(Clone, Copy, Debug, PartialEq, Eq)]
pub struct Bare;

impl Default for Bare {
    fn default() -> (bare: Self)
        ensures
            bare == Bare,
    {
        Bare
    }
}

impl GraphGeometry for Bare {
    type Vertex = Bare;

    type Arc = Bare;

    type Edge = Bare;

    type Face = Bare;
}

/// A vertex: its geometry and its leading arc, an arc that leaves it. A
/// vertex without arcs has no leading arc.
pub struct VertexPayload<G: GraphGeometry> {
    pub geometry: G::Vertex,
    pub arc: Option<ArcKey>,
}

/// An arc: its geometry, its neighbours in its ring, its edge and its face.
/// A boundary arc has no face.
pub struct ArcPayload<G: GraphGeometry> {
    pub geometry: G::Arc,
    pub next: Option<ArcKey>,
    pub previous: Option<ArcKey>,
    pub edge: Option<EdgeKey>,
    pub face: Option<FaceKey>,
}

/// An edge: its geometry and one of its two arcs.
pub struct EdgePayload<G: GraphGeometry> {
    pub geometry: G::Edge,
    pub arc: ArcKey,
}

/// A face: its geometry and its leading arc, an arc of its ring.
pub struct FacePayload<G: GraphGeometry> {
    pub geometry: G::Face,
    pub arc: ArcKey,
}

impl<G: GraphGeometry> VertexPayload<G> {
    /// A vertex without arcs.
    pub fn new(geometry: G::Vertex) -> (payload: Self)
        ensures
            payload.geometry == geometry,
            payload.arc is None,
    {
        VertexPayload { geometry, arc: None }
    }
}

impl<G: GraphGeometry> ArcPayload<G> {
    /// The keys that the arc refers to.
    pub open spec fn links(self) -> ArcLinks {
        ArcLinks { next: self.next, previous: self.previous, edge: self.edge, face: self.face }
    }

    /// An arc that refers to nothing yet.
    pub fn new(geometry: G::Arc) -> (payload: Self)
        ensures
            payload.geometry == geometry,
            payload.links() == (ArcLinks { next: None, previous: None, edge: None, face: None }),
    {
        ArcPayload { geometry, next: None, previous: None, edge: None, face: None }
    }

    /// Whether the arc has no face.
    pub fn is_boundary_arc(&self) -> (boundary: bool)
        ensures
            boundary == (self.face is None),
    {
        self.face.is_none()
    }
}

impl<G: GraphGeometry> EdgePayload<G> {
    pub fn new(geometry: G::Edge, arc: ArcKey) -> (payload: Self)
        ensures
            payload.geometry == geometry,
            payload.arc == arc,
    {
        EdgePayload { geometry, arc }
    }
}

impl<G: GraphGeometry> FacePayload<G> {
    pub fn new(geometry: G::Face, arc: ArcKey) -> (payload: Self)
        ensures
            payload.geometry == geometry,
            payload.arc == arc,
    {
        FacePayload { geometry, arc }
    }
}

} // verus!
