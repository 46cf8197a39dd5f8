//! Views of arcs and edges.

use crate::graph::MeshGraph;
use crate::interop::{held_keys, keys_as_slice, no_keys, pair_of_keys, push_key, some_if};
use crate::key::{ArcKey, EdgeKey, FaceKey, PairKey, VertexKey};
use crate::payload::{ArcPayload, EdgePayload, GraphGeometry};
use crate::selector::{GraphError, Selector};
use crate::storage::in_pair_order;
use crate::topology::Topology;
use crate::view::face::{FaceOrphan, FaceView, RingView};
use crate::view::path::PathView;
use crate::view::vertex::{VertexOrphan, VertexView};
use crate::view::Reborrow;
use arrayvec::ArrayVec;
use std::marker::PhantomData;
use vstd::prelude::*;

verus! {

/// View of an arc in a graph.
///
/// Arcs are the connectivity of a graph: each has an opposite arc, a next and
/// a previous arc in its ring, an edge, and a face unless it is a boundary
/// arc. Most operations on edges are offered by arcs, because an arc has a
/// direction and an edge has none.
pub struct ArcView<M: Reborrow<G>, G: GraphGeometry> {
    storage: M,
    key: ArcKey,
    phantom: PhantomData<G>,
}

impl<M: Reborrow<G>, G: GraphGeometry> ArcView<M, G> {
    #[verifier::type_invariant]
    spec fn bound(self) -> bool {
        self.storage.graph()@.arcs.contains_key(self.key)
    }

    /// The reference to the graph that the view holds.
    pub closed spec fn storage(&self) -> M {
        self.storage
    }

    pub closed spec fn spec_key(&self) -> ArcKey {
        self.key
    }

    /// The graph of the view.
    pub open spec fn graph(&self) -> MeshGraph<G> {
        self.storage().graph()
    }

    /// Binds a view to an arc of a graph.
    pub(crate) fn bind(storage: M, key: ArcKey) -> (view: Self)
        requires
            storage.graph()@.arcs.contains_key(key),
        ensures
            view.storage() == storage,
            view.key() == key,
    {
        ArcView { storage, key, phantom: PhantomData }
    }

    /// Gets the key of the arc.
    #[verifier::when_used_as_spec(spec_key)]
    pub fn key(&self) -> (key: ArcKey)
        ensures
            key == self.spec_key(),
            self.graph()@.arcs.contains_key(key),
    {
        proof {
            use_type_invariant(self);
        }
        self.key
    }

    /// Takes the view apart.
    fn into_inner(self) -> (parts: (M, ArcKey))
        ensures
            parts.0 == self.storage(),
            parts.1 == self.key(),
            parts.0.graph()@.arcs.contains_key(parts.1),
    {
        proof {
            use_type_invariant(&self);
        }
        let ArcView { storage, key, phantom: _ } = self;
        (storage, key)
    }

    /// A view of the same arc that borrows the graph from this view.
    fn interior_reborrow(&self) -> (view: ArcView<&MeshGraph<G>, G>)
        ensures
            *view.storage() == self.graph(),
            view.key() == self.key(),
    {
        proof {
            use_type_invariant(self);
        }
        ArcView::bind(self.storage.reborrow(), self.key)
    }

    /// The payload of the arc.
    pub fn payload(&self) -> (payload: &ArcPayload<G>)
        ensures
            *payload == self.graph().storage().arcs@[self.key()],
    {
        proof {
            use_type_invariant(self);
        }
        self.storage.reborrow().binder().arcs.get(self.key).unwrap()
    }

    /// Returns `true` if this is a boundary arc.
    ///
    /// A boundary arc has no associated face.
    pub fn is_boundary_arc(&self) -> (boundary: bool)
        ensures
            boundary == self.graph()@.is_boundary(self.key()),
    {
        proof {
            use_type_invariant(self);
        }
        self.payload().is_boundary_arc()
    }

    /// Converts the arc into its opposite arc.
    pub fn into_opposite_arc(self) -> (opposite: Self)
        ensures
            opposite.storage() == self.storage(),
            opposite.key() == self.key().opposite(),
    {
        let (storage, key) = self.into_inner();
        storage.reborrow().consistency();
        proof {
            storage.graph()@.lemma_opposite(key);
        }
        ArcView::bind(storage, key.into_opposite())
    }

    /// Converts the arc into its next arc.
    pub fn into_next_arc(self) -> (next: Self)
        ensures
            next.storage() == self.storage(),
            next.key() == self.graph()@.next(self.key()),
    {
        let (storage, key) = self.into_inner();
        let next = storage.reborrow().binder().next_of(key);
        ArcView::bind(storage, next)
    }

    /// Converts the arc into its previous arc.
    pub fn into_previous_arc(self) -> (previous: Self)
        ensures
            previous.storage() == self.storage(),
            previous.key() == self.graph()@.previous(self.key()),
    {
        let (storage, key) = self.into_inner();
        let previous = storage.reborrow().binder().previous_of(key);
        ArcView::bind(storage, previous)
    }

    /// Gets the opposite arc.
    pub fn opposite_arc(&self) -> (opposite: ArcView<&MeshGraph<G>, G>)
        ensures
            *opposite.storage() == self.graph(),
            opposite.key() == self.key().opposite(),
    {
        self.interior_reborrow().into_opposite_arc()
    }

    /// Gets the next arc.
    pub fn next_arc(&self) -> (next: ArcView<&MeshGraph<G>, G>)
        ensures
            *next.storage() == self.graph(),
            next.key() == self.graph()@.next(self.key()),
    {
        self.interior_reborrow().into_next_arc()
    }

    /// Gets the previous arc.
    pub fn previous_arc(&self) -> (previous: ArcView<&MeshGraph<G>, G>)
        ensures
            *previous.storage() == self.graph(),
            previous.key() == self.graph()@.previous(self.key()),
    {
        self.interior_reborrow().into_previous_arc()
    }

    /// Gets the geometry of the arc.
    pub fn geometry(&self) -> (geometry: &G::Arc)
        ensures
            *geometry == self.graph().arc_geometry(self.key()),
    {
        &self.payload().geometry
    }

    /// The arc if it is a boundary arc, else its opposite if that is a
    /// boundary arc, else nothing.
    pub open spec fn boundary_key(&self) -> Option<ArcKey> {
        if self.graph()@.is_boundary(self.spec_key()) {
            Some(self.spec_key())
        } else if self.graph()@.is_boundary(self.spec_key().opposite()) {
            Some(self.spec_key().opposite())
        } else {
            None
        }
    }

    /// Returns the arc if it is a boundary arc, else its opposite if that is
    /// a boundary arc, else `None`.
    pub fn into_boundary_arc(self) -> (boundary: Option<Self>)
        ensures
            match boundary {
                Some(boundary) => boundary.storage() == self.storage() && Some(boundary.key())
                    == self.boundary_key(),
                None => self.boundary_key() is None && has_resolved(self.storage()),
            },
    {
        if self.is_boundary_arc() {
            Some(self)
        } else {
            let opposite = self.into_opposite_arc();
            if opposite.is_boundary_arc() {
                Some(opposite)
            } else {
                None
            }
        }
    }

    /// Returns the arc if it is a boundary arc, else its opposite if that is
    /// a boundary arc, else `None`.
    pub fn boundary_arc(&self) -> (boundary: Option<ArcView<&MeshGraph<G>, G>>)
        ensures
            match boundary {
                Some(boundary) => *boundary.storage() == self.graph() && Some(boundary.key())
                    == self.boundary_key(),
                None => self.boundary_key() is None,
            },
    {
        let arc = self.interior_reborrow();
        if arc.is_boundary_arc() {
            Some(arc)
        } else {
            let opposite = arc.into_opposite_arc();
            some_if(opposite.is_boundary_arc(), opposite)
        }
    }

    /// Converts the arc into its ring.
    pub fn into_ring(self) -> (ring: RingView<M, G>)
        ensures
            ring.storage() == self.storage(),
            ring.spec_arc() == self.key(),
    {
        let (storage, key) = self.into_inner();
        RingView::bind(storage, key)
    }

    /// Gets the ring of the arc.
    pub fn ring(&self) -> (ring: RingView<&MeshGraph<G>, G>)
        ensures
            *ring.storage() == self.graph(),
            ring.spec_arc() == self.key(),
    {
        self.interior_reborrow().into_ring()
    }

    /// Converts the arc into its source vertex.
    pub fn into_source_vertex(self) -> (vertex: VertexView<M, G>)
        ensures
            vertex.storage() == self.storage(),
            vertex.key() == self.key().0,
    {
        let (storage, key) = self.into_inner();
        storage.reborrow().consistency();
        proof {
            storage.graph()@.lemma_arc_ends(key);
        }
        VertexView::bind(storage, key.source())
    }

    /// Converts the arc into its destination vertex.
    pub fn into_destination_vertex(self) -> (vertex: VertexView<M, G>)
        ensures
            vertex.storage() == self.storage(),
            vertex.key() == self.key().1,
    {
        let (storage, key) = self.into_inner();
        storage.reborrow().consistency();
        proof {
            storage.graph()@.lemma_arc_ends(key);
        }
        VertexView::bind(storage, key.destination())
    }

    /// Gets the source vertex of the arc.
    pub fn source_vertex(&self) -> (vertex: VertexView<&MeshGraph<G>, G>)
        ensures
            *vertex.storage() == self.graph(),
            vertex.key() == self.key().0,
    {
        self.interior_reborrow().into_source_vertex()
    }

    /// Gets the destination vertex of the arc.
    pub fn destination_vertex(&self) -> (vertex: VertexView<&MeshGraph<G>, G>)
        ensures
            *vertex.storage() == self.graph(),
            vertex.key() == self.key().1,
    {
        self.interior_reborrow().into_destination_vertex()
    }

    /// Converts the arc into its edge.
    pub fn into_edge(self) -> (edge: EdgeView<M, G>)
        ensures
            edge.storage() == self.storage(),
            edge.key() == self.key().spec_edge(),
    {
        let (storage, key) = self.into_inner();
        storage.reborrow().consistency();
        proof {
            assert(storage.graph()@.arc_consistent(key));
        }
        EdgeView::bind(storage, key.edge())
    }

    /// Gets the edge of the arc.
    pub fn edge(&self) -> (edge: EdgeView<&MeshGraph<G>, G>)
        ensures
            *edge.storage() == self.graph(),
            edge.key() == self.key().spec_edge(),
    {
        self.interior_reborrow().into_edge()
    }

    /// Converts the arc into its face.
    ///
    /// If this is a boundary arc, then `None` is returned.
    pub fn into_face(self) -> (face: Option<FaceView<M, G>>)
        ensures
            match face {
                Some(face) => face.storage() == self.storage() && Some(face.key())
                    == self.graph()@.arcs[self.key()].face,
                None => self.graph()@.is_boundary(self.key()) && has_resolved(self.storage()),
            },
    {
        let (storage, key) = self.into_inner();
        let graph = storage.reborrow();
        graph.consistency();
        let face = graph.binder().face_of(key);
        proof {
            assert(graph@.arc_consistent(key));
        }
        match face {
            Some(face) => Some(FaceView::bind(storage, face)),
            None => None,
        }
    }

    /// Gets the face of this arc.
    ///
    /// If this is a boundary arc, then `None` is returned.
    pub fn face(&self) -> (face: Option<FaceView<&MeshGraph<G>, G>>)
        ensures
            match face {
                Some(face) => *face.storage() == self.graph() && Some(face.key())
                    == self.graph()@.arcs[self.key()].face,
                None => self.graph()@.is_boundary(self.key()),
            },
    {
        self.interior_reborrow().into_face()
    }

    /// Gets the views of the two vertices connected by the arc, one at a
    /// time: its source, then its destination.
    pub fn vertices(&self) -> (vertices: VertexCirculator<&MeshGraph<G>, G>)
        ensures
            *vertices.storage() == self.graph(),
            vertices.remaining() == seq![self.key().0, self.key().1],
    {
        VertexCirculator::from(self.interior_reborrow())
    }

    /// Gets the views of the faces connected to the arc, one at a time: its
    /// own face, if it has one, then the face of its opposite, if that has
    /// one.
    pub fn faces(&self) -> (faces: FaceCirculator<&MeshGraph<G>, G>)
        ensures
            *faces.storage() == self.graph(),
            faces.remaining() == faces_of(self.graph()@, self.key()),
    {
        FaceCirculator::from(self.interior_reborrow())
    }

    /// Converts the arc into the path from its source to its destination.
    pub fn into_path(self) -> (path: PathView<M, G>)
        ensures
            path.storage() == self.storage(),
            path.spec_keys() == seq![self.key().0, self.key().1],
    {
        let (storage, key) = self.into_inner();
        PathView::from_arc(storage, key)
    }

    /// Gets the path from the source of the arc to its destination.
    pub fn path(&self) -> (path: PathView<&MeshGraph<G>, G>)
        ensures
            *path.storage() == self.graph(),
            path.spec_keys() == seq![self.key().0, self.key().1],
    {
        self.interior_reborrow().into_path()
    }
}

impl<'a, G: GraphGeometry> ArcView<&'a mut MeshGraph<G>, G> {
    /// Converts a mutable view into an immutable view.
    ///
    /// This is useful when mutations are not (or no longer) needed and mutual
    /// access is desired.
    pub fn into_ref(self) -> (view: ArcView<&'a MeshGraph<G>, G>)
        ensures
            *view.storage() == *old(self.storage()),
            *final(self.storage()) == *old(self.storage()),
            view.key() == self.key(),
    {
        let (storage, key) = self.into_inner();
        ArcView::bind(&*storage, key)
    }

    /// Converts the view into an orphan view of the arc.
    pub fn into_orphan(self) -> (orphan: ArcOrphan<'a, G>)
        ensures
            *orphan.storage() == *old(self.storage()),
            *final(orphan.storage()) == *final(self.storage()),
            orphan.key() == self.key(),
    {
        let (storage, key) = self.into_inner();
        ArcOrphan { storage, key }
    }

    /// Converts the arc into the orphan views of the two vertices connected
    /// by it, one at a time: its source, then its destination.
    pub fn vertex_orphans(self) -> (vertices: VertexCirculator<&'a mut MeshGraph<G>, G>)
        ensures
            *vertices.storage() == *old(self.storage()),
            *final(vertices.storage()) == *final(self.storage()),
            vertices.remaining() == seq![self.key().0, self.key().1],
    {
        VertexCirculator::from(self)
    }

    /// Converts the arc into the orphan views of the faces connected to it,
    /// one at a time: its own face, if it has one, then the face of its
    /// opposite, if that has one.
    pub fn face_orphans(self) -> (faces: FaceCirculator<&'a mut MeshGraph<G>, G>)
        ensures
            *faces.storage() == *old(self.storage()),
            *final(faces.storage()) == *final(self.storage()),
            faces.remaining() == faces_of(old(self.storage())@, self.key()),
    {
        FaceCirculator::from(self)
    }

    /// Splits a composite edge into two neighboring edges that share a vertex.
    ///
    /// Splitting inserts a new vertex with the geometry provided by the given
    /// function. Splitting an arc from A to B returns a vertex M that
    /// subdivides the composite edge. The leading arc of M is the arc from M
    /// to B and is a part of the same ring as the initiating arc.
    ///
    /// Returns the inserted vertex.
    pub fn split_with<F: FnOnce() -> G::Vertex>(self, f: F) -> (vertex: VertexView<
        &'a mut MeshGraph<G>,
        G,
    >)
        requires
            f.requires(()),
        ensures
            !old(self.storage())@.vertices.contains_key(vertex.key()),
            vertex.storage()@ == old(self.storage())@.split(self.key(), vertex.key()),
            f.ensures((), vertex.storage().vertex_geometry(vertex.key())),
            vertex.storage()@.vertices.dom().len() == old(self.storage())@.vertices.dom().len()
                + 1,
            vertex.storage()@.arcs.dom().len() == old(self.storage())@.arcs.dom().len() + 2,
            vertex.storage()@.edges.dom().len() == old(self.storage())@.edges.dom().len() + 1,
            vertex.storage()@.faces.dom() == old(self.storage())@.faces.dom(),
            vertex.storage().storage().keeps_geometry_of(&old(self.storage()).storage()),
            vertex.storage().storage().halves(
                &old(self.storage()).storage(),
                self.key(),
                vertex.key(),
            ),
            *final(vertex.storage()) == *final(self.storage()),
    {
        let (storage, key) = self.into_inner();
        let middle = storage.split_arc(key, f()).unwrap();
        VertexView::bind(storage, middle)
    }

    /// Connects a boundary arc to another boundary arc with a face.
    ///
    /// Bridging arcs inserts a new face and, as needed, new arcs and edges.
    /// The inserted face is always a quadrilateral. The bridged arcs must be
    /// boundary arcs with an orientation that allows them to form a ring.
    ///
    /// Bridging two compatible arcs from A to B and from C to D results in a
    /// ring over A, B, C and D.
    ///
    /// Arcs can be bridged within a ring. The destination arc can be chosen
    /// by key or index, where an index selects the nth arc from the source
    /// arc within the ring.
    ///
    /// Returns the inserted face if successful.
    ///
    /// # Errors
    ///
    /// Returns an error, and leaves the graph as it is, if the destination
    /// arc cannot be found, either arc is not a boundary arc, or no face can
    /// be inserted over the ends of the two arcs.
    pub fn bridge(self, destination: Selector<ArcKey>) -> (face: Result<
        FaceView<&'a mut MeshGraph<G>, G>,
        GraphError,
    >)
        ensures
            match face {
                Ok(face) => {
                    &&& old(self.storage()).bridging(self.key(), destination) matches Ok(found)
                    &&& crate::mutation::edge::bridge_refusal(
                        old(self.storage())@,
                        self.key(),
                        found,
                    ) is None
                    &&& !old(self.storage())@.faces.contains_key(face.key())
                    &&& face.storage()@ == old(self.storage())@.with_face_around(
                        face.key(),
                        crate::mutation::edge::bridge_perimeter(self.key(), found),
                    )
                    &&& face.storage()@.is_face_ring(
                        face.key(),
                        crate::mutation::face::perimeter_arcs(
                            crate::mutation::edge::bridge_perimeter(self.key(), found),
                        ),
                    )
                    &&& face.storage()@.faces.dom() == old(self.storage())@.faces.dom().insert(
                        face.key(),
                    )
                    &&& face.storage()@.vertices.dom() == old(self.storage())@.vertices.dom()
                    &&& face.storage()@.arcs.dom().len() == old(self.storage())@.arcs.dom().len()
                        + 2 * crate::mutation::edge::bridge_growth(
                        old(self.storage())@,
                        self.key(),
                        found,
                    )
                    &&& face.storage()@.edges.dom().len() == old(
                        self.storage(),
                    )@.edges.dom().len() + crate::mutation::edge::bridge_growth(
                        old(self.storage())@,
                        self.key(),
                        found,
                    )
                    &&& crate::payload::is_default(face.storage().face_geometry(face.key()))
                    &&& face.storage().storage().extends(&old(self.storage()).storage())
                    &&& face.storage().storage().furnishes(&old(self.storage()).storage())
                    &&& *final(face.storage()) == *final(self.storage())
                },
                Err(error) => {
                    &&& *final(self.storage()) == *old(self.storage())
                    &&& match old(self.storage()).bridging(self.key(), destination) {
                        Ok(found) => crate::mutation::edge::bridge_refusal(
                            old(self.storage())@,
                            self.key(),
                            found,
                        ) == Some(error),
                        Err(missing) => error == missing,
                    }
                },
            },
    {
        let (storage, key) = self.into_inner();
        match storage.bridge(key, destination) {
            Ok(face) => Ok(FaceView::bind(storage, face)),
            Err(error) => Err(error),
        }
    }

    /// Extrudes a boundary arc into a composite edge.
    ///
    /// Extrusion inserts a new composite edge between two new vertices, one
    /// for each end of the arc and with the geometry given for it, and then
    /// bridges the arc with the arc of the new edge that runs the other way.
    /// This inserts a quadrilateral face. See `bridge`.
    ///
    /// Returns the opposing arc. This is the arc in the new edge that is
    /// within the same ring as the initiating arc.
    ///
    /// # Errors
    ///
    /// Returns an error, and leaves the graph as it is, if the arc is not a
    /// boundary arc.
    pub fn extrude(self, over_source: G::Vertex, over_destination: G::Vertex) -> (arc: Result<
        ArcView<&'a mut MeshGraph<G>, G>,
        GraphError,
    >)
        ensures
            match arc {
                Ok(arc) => {
                    &&& old(self.storage())@.is_boundary(self.key())
                    &&& !old(self.storage())@.vertices.contains_key(arc.key().0)
                    &&& !old(self.storage())@.vertices.contains_key(arc.key().1)
                    &&& exists|face: FaceKey|
                        !old(self.storage())@.faces.contains_key(face) && #[trigger] arc.storage()@
                            == old(self.storage())@.with_vertex(arc.key().0).with_vertex(
                            arc.key().1,
                        ).with_face_around(
                            face,
                            crate::mutation::edge::extrude_perimeter(
                                self.key(),
                                arc.key().0,
                                arc.key().1,
                            ),
                        )
                    &&& exists|face: FaceKey|
                        !old(self.storage())@.faces.contains_key(face)
                            && #[trigger] arc.storage()@.is_face_ring(
                            face,
                            crate::mutation::face::perimeter_arcs(
                                crate::mutation::edge::extrude_perimeter(
                                    self.key(),
                                    arc.key().0,
                                    arc.key().1,
                                ),
                            ),
                        ) && arc.storage()@.faces.dom() == old(self.storage())@.faces.dom().insert(
                            face,
                        ) && crate::payload::is_default(arc.storage().face_geometry(face))
                    &&& arc.storage()@.vertices.dom() == old(
                        self.storage(),
                    )@.vertices.dom().insert(arc.key().0).insert(arc.key().1)
                    &&& arc.storage()@.arcs.dom().len() == old(self.storage())@.arcs.dom().len()
                        + 6
                    &&& arc.storage()@.edges.dom().len() == old(self.storage())@.edges.dom().len()
                        + 3
                    &&& arc.storage().vertex_geometry(arc.key().0)
                        == over_destination
                    &&& arc.storage().vertex_geometry(arc.key().1) == over_source
                    &&& arc.storage().storage().extends(&old(self.storage()).storage())
                    &&& arc.storage().storage().furnishes(&old(self.storage()).storage())
                    &&& *final(arc.storage()) == *final(self.storage())
                },
                Err(error) => {
                    &&& !old(self.storage())@.is_boundary(self.key())
                    &&& error == GraphError::TopologyConflict
                    &&& *final(self.storage()) == *old(self.storage())
                },
            },
    {
        let (storage, key) = self.into_inner();
        match storage.extrude_arc(key, over_source, over_destination) {
            Ok(extrusion) => {
                proof {
                    let around = crate::mutation::edge::extrude_perimeter(
                        key,
                        extrusion.over_destination,
                        extrusion.over_source,
                    );
                    assert(storage@.ring_step(crate::mutation::face::perimeter_arcs(around), 2));
                    assert(storage@.is_face_ring(
                        extrusion.face,
                        crate::mutation::face::perimeter_arcs(around),
                    ));
                }
                Ok(ArcView::bind(storage, extrusion.arc))
            },
            Err(error) => Err(error),
        }
    }

    /// Removes the arc and its composite edge.
    ///
    /// Any and all dependent topology is also removed: the faces on the two
    /// sides of the edge, and each end of the edge that has no other arc.
    ///
    /// Returns the source vertex of the initiating arc if it is still in the
    /// graph, else its destination vertex if that is, else `None`.
    pub fn remove(self) -> (vertex: Option<VertexView<&'a mut MeshGraph<G>, G>>)
        ensures
            ({
                let after = match vertex {
                    Some(vertex) => *vertex.storage(),
                    None => *final(self.storage()),
                };
                &&& exists|removal: crate::mutation::edge::EdgeRemoval|
                    {
                        &&& old(self.storage())@.leads_without(
                            self.key().0,
                            self.key(),
                            removal.source_leader,
                        )
                        &&& old(self.storage())@.leads_without(
                            self.key().1,
                            self.key().opposite(),
                            removal.destination_leader,
                        )
                        &&& #[trigger] old(self.storage())@.without_edge_around(
                            self.key(),
                            removal.source_leader,
                            removal.destination_leader,
                        ) == after@
                        &&& old(self.storage())@.leaves(
                            after@,
                            self.key(),
                            removal.source_leader,
                            removal.destination_leader,
                        )
                        &&& match vertex {
                            Some(vertex) => Some(vertex.key()) == removal.survivor(self.key()),
                            None => removal.survivor(self.key()) is None,
                        }
                    }
                &&& after.storage().keeps_geometry_of(&old(self.storage()).storage())
            }),
            vertex matches Some(vertex) ==> *final(vertex.storage()) == *final(self.storage()),
    {
        let (storage, key) = self.into_inner();
        storage.consistency();
        let removal = storage.remove_edge(key).unwrap();
        match removal.survivor(key) {
            Some(vertex) => Some(VertexView::bind(storage, vertex)),
            None => None,
        }
    }
}

impl<'a, G: GraphGeometry> Clone for ArcView<&'a MeshGraph<G>, G> {
    fn clone(&self) -> (view: Self)
        ensures
            view == *self,
    {
        *self
    }
}

impl<'a, G: GraphGeometry> Copy for ArcView<&'a MeshGraph<G>, G> {

}

/// View of an edge in a graph.
///
/// An edge joins two vertices and has no direction. It is made of two arcs,
/// one the opposite of the other, and is mostly described by one of them.
pub struct EdgeView<M: Reborrow<G>, G: GraphGeometry> {
    storage: M,
    key: EdgeKey,
    phantom: PhantomData<G>,
}

impl<M: Reborrow<G>, G: GraphGeometry> EdgeView<M, G> {
    #[verifier::type_invariant]
    spec fn bound(self) -> bool {
        self.storage.graph()@.edges.contains_key(self.key)
    }

    /// The reference to the graph that the view holds.
    pub closed spec fn storage(&self) -> M {
        self.storage
    }

    pub closed spec fn spec_key(&self) -> EdgeKey {
        self.key
    }

    /// The graph of the view.
    pub open spec fn graph(&self) -> MeshGraph<G> {
        self.storage().graph()
    }

    /// Binds a view to an edge of a graph.
    pub(crate) fn bind(storage: M, key: EdgeKey) -> (view: Self)
        requires
            storage.graph()@.edges.contains_key(key),
        ensures
            view.storage() == storage,
            view.key() == key,
    {
        EdgeView { storage, key, phantom: PhantomData }
    }

    /// Gets the key of the edge.
    #[verifier::when_used_as_spec(spec_key)]
    pub fn key(&self) -> (key: EdgeKey)
        ensures
            key == self.spec_key(),
            self.graph()@.edges.contains_key(key),
    {
        proof {
            use_type_invariant(self);
        }
        self.key
    }

    /// Takes the view apart.
    fn into_inner(self) -> (parts: (M, EdgeKey))
        ensures
            parts.0 == self.storage(),
            parts.1 == self.key(),
            parts.0.graph()@.edges.contains_key(parts.1),
    {
        proof {
            use_type_invariant(&self);
        }
        let EdgeView { storage, key, phantom: _ } = self;
        (storage, key)
    }

    /// A view of the same edge that borrows the graph from this view.
    fn interior_reborrow(&self) -> (view: EdgeView<&MeshGraph<G>, G>)
        ensures
            *view.storage() == self.graph(),
            view.key() == self.key(),
    {
        proof {
            use_type_invariant(self);
        }
        EdgeView::bind(self.storage.reborrow(), self.key)
    }

    /// The payload of the edge.
    pub fn payload(&self) -> (payload: &EdgePayload<G>)
        ensures
            *payload == self.graph().storage().edges@[self.key()],
    {
        proof {
            use_type_invariant(self);
        }
        self.storage.reborrow().binder().edges.get(self.key).unwrap()
    }

    /// Gets the geometry of the edge.
    pub fn geometry(&self) -> (geometry: &G::Edge)
        ensures
            *geometry == self.graph().edge_geometry(self.key()),
    {
        &self.payload().geometry
    }

    /// Converts the edge into the arc that stands for it: one of its two
    /// arcs.
    pub fn into_arc(self) -> (arc: ArcView<M, G>)
        ensures
            arc.storage() == self.storage(),
            arc.key() == self.graph()@.edges[self.key()],
            arc.key().spec_edge() == self.key(),
    {
        let (storage, key) = self.into_inner();
        let graph = storage.reborrow();
        graph.consistency();
        let arc = graph.binder().edges.get(key).unwrap().arc;
        proof {
            graph@.lemma_edge(key);
        }
        ArcView::bind(storage, arc)
    }

    /// Gets the arc that stands for the edge: one of its two arcs.
    pub fn arc(&self) -> (arc: ArcView<&MeshGraph<G>, G>)
        ensures
            *arc.storage() == self.graph(),
            arc.key() == self.graph()@.edges[self.key()],
            arc.key().spec_edge() == self.key(),
    {
        self.interior_reborrow().into_arc()
    }

    /// Returns `true` if one of the two arcs of the edge is a boundary arc.
    pub fn is_boundary_edge(&self) -> (boundary: bool)
        ensures
            boundary == (self.graph()@.is_boundary(self.graph()@.edges[self.key()])
                || self.graph()@.is_boundary(self.graph()@.edges[self.key()].opposite())),
    {
        let arc = self.arc();
        arc.is_boundary_arc() || arc.opposite_arc().is_boundary_arc()
    }
}

impl<'a, G: GraphGeometry> EdgeView<&'a mut MeshGraph<G>, G> {
    /// Converts a mutable view into an immutable view.
    ///
    /// This is useful when mutations are not (or no longer) needed and mutual
    /// access is desired.
    pub fn into_ref(self) -> (view: EdgeView<&'a MeshGraph<G>, G>)
        ensures
            *view.storage() == *old(self.storage()),
            *final(self.storage()) == *old(self.storage()),
            view.key() == self.key(),
    {
        let (storage, key) = self.into_inner();
        EdgeView::bind(&*storage, key)
    }

    /// Converts the view into an orphan view of the edge.
    pub fn into_orphan(self) -> (orphan: EdgeOrphan<'a, G>)
        ensures
            *orphan.storage() == *old(self.storage()),
            *final(orphan.storage()) == *final(self.storage()),
            orphan.key() == self.key(),
    {
        let (storage, key) = self.into_inner();
        EdgeOrphan { storage, key }
    }
}

impl<'a, G: GraphGeometry> Clone for EdgeView<&'a MeshGraph<G>, G> {
    fn clone(&self) -> (view: Self)
        ensures
            view == *self,
    {
        *self
    }
}

impl<'a, G: GraphGeometry> Copy for EdgeView<&'a MeshGraph<G>, G> {

}

/// Edge-like structure. Abstracts arcs and edges.
///
/// A view of an arc or of an edge is part of a composite edge and can be
/// converted into the arc or into the edge of that composite edge.
pub trait Edgoid<M: Reborrow<G>, G: GraphGeometry>: Sized {
    /// The reference to the graph that the view holds.
    spec fn held(&self) -> M;

    /// The arc that the view converts into.
    spec fn arc_key(&self) -> ArcKey;

    fn into_arc(self) -> (arc: ArcView<M, G>)
        ensures
            arc.storage() == self.held(),
            arc.key() == self.arc_key(),
    ;

    fn into_edge(self) -> (edge: EdgeView<M, G>)
        ensures
            edge.storage() == self.held(),
            edge.key() == self.arc_key().spec_edge(),
    ;
}

impl<M: Reborrow<G>, G: GraphGeometry> Edgoid<M, G> for ArcView<M, G> {
    open spec fn held(&self) -> M {
        self.storage()
    }

    open spec fn arc_key(&self) -> ArcKey {
        self.spec_key()
    }

    fn into_arc(self) -> (arc: ArcView<M, G>) {
        self
    }

    fn into_edge(self) -> (edge: EdgeView<M, G>) {
        ArcView::into_edge(self)
    }
}

impl<M: Reborrow<G>, G: GraphGeometry> Edgoid<M, G> for EdgeView<M, G> {
    open spec fn held(&self) -> M {
        self.storage()
    }

    open spec fn arc_key(&self) -> ArcKey {
        self.graph()@.edges[self.spec_key()]
    }

    fn into_arc(self) -> (arc: ArcView<M, G>) {
        EdgeView::into_arc(self)
    }

    fn into_edge(self) -> (edge: EdgeView<M, G>) {
        let _ = self.arc();
        self
    }
}

/// Orphan view of an arc: the key of the arc and its geometry, to read and
/// to replace, and no way to traverse the graph.
pub struct ArcOrphan<'a, G: GraphGeometry> {
    storage: &'a mut MeshGraph<G>,
    key: ArcKey,
}

impl<'a, G: GraphGeometry> ArcOrphan<'a, G> {
    #[verifier::type_invariant]
    spec fn bound(self) -> bool {
        self.storage@.arcs.contains_key(self.key)
    }

    /// The reference to the graph that the view holds.
    pub closed spec fn storage(&self) -> &'a mut MeshGraph<G> {
        self.storage
    }

    pub closed spec fn spec_key(&self) -> ArcKey {
        self.key
    }

    /// Binds an orphan view to an arc of a graph.
    pub(crate) fn bind(storage: &'a mut MeshGraph<G>, key: ArcKey) -> (orphan: Self)
        requires
            old(storage)@.arcs.contains_key(key),
        ensures
            *orphan.storage() == *old(storage),
            *final(orphan.storage()) == *final(storage),
            orphan.key() == key,
    {
        ArcOrphan { storage, key }
    }

    /// Gets the key of the arc.
    #[verifier::when_used_as_spec(spec_key)]
    pub fn key(&self) -> (key: ArcKey)
        ensures
            key == self.spec_key(),
            self.storage()@.arcs.contains_key(key),
    {
        proof {
            use_type_invariant(self);
        }
        self.key
    }

    /// Gets the geometry of the arc.
    pub fn geometry(&self) -> (geometry: &G::Arc)
        ensures
            *geometry == self.storage().arc_geometry(self.key()),
    {
        proof {
            use_type_invariant(self);
        }
        &self.storage.binder().arcs.get(self.key).unwrap().geometry
    }

    /// Lets go of the arc and leaves the graph as it is.
    pub fn release(self)
        ensures
            *final(self.storage()) == *old(self.storage()),
    {
    }

    /// Replaces the geometry of the arc and hands back the geometry it had.
    /// Nothing else in the graph changes.
    pub fn replace(self, geometry: G::Arc) -> (previous: G::Arc)
        ensures
            previous == old(self.storage()).arc_geometry(self.key()),
            final(self.storage())@ == old(self.storage())@,
            final(self.storage()).storage().arcs@ == old(self.storage()).storage().arcs@.insert(
                self.key(),
                ArcPayload { geometry, ..old(self.storage()).storage().arcs@[self.key()] },
            ),
            final(self.storage()).storage().vertices == old(self.storage()).storage().vertices,
            final(self.storage()).storage().edges == old(self.storage()).storage().edges,
            final(self.storage()).storage().faces == old(self.storage()).storage().faces,
    {
        proof {
            use_type_invariant(&self);
        }
        let ArcOrphan { storage, key } = self;
        storage.replace_arc_geometry(key, geometry).unwrap()
    }
}

/// Orphan view of an edge: the key of the edge and its geometry, to read and
/// to replace, and no way to traverse the graph.
pub struct EdgeOrphan<'a, G: GraphGeometry> {
    storage: &'a mut MeshGraph<G>,
    key: EdgeKey,
}

impl<'a, G: GraphGeometry> EdgeOrphan<'a, G> {
    #[verifier::type_invariant]
    spec fn bound(self) -> bool {
        self.storage@.edges.contains_key(self.key)
    }

    /// The reference to the graph that the view holds.
    pub closed spec fn storage(&self) -> &'a mut MeshGraph<G> {
        self.storage
    }

    pub closed spec fn spec_key(&self) -> EdgeKey {
        self.key
    }

    /// Binds an orphan view to an edge of a graph.
    pub(crate) fn bind(storage: &'a mut MeshGraph<G>, key: EdgeKey) -> (orphan: Self)
        requires
            old(storage)@.edges.contains_key(key),
        ensures
            *orphan.storage() == *old(storage),
            *final(orphan.storage()) == *final(storage),
            orphan.key() == key,
    {
        EdgeOrphan { storage, key }
    }

    /// Gets the key of the edge.
    #[verifier::when_used_as_spec(spec_key)]
    pub fn key(&self) -> (key: EdgeKey)
        ensures
            key == self.spec_key(),
            self.storage()@.edges.contains_key(key),
    {
        proof {
            use_type_invariant(self);
        }
        self.key
    }

    /// Gets the geometry of the edge.
    pub fn geometry(&self) -> (geometry: &G::Edge)
        ensures
            *geometry == self.storage().edge_geometry(self.key()),
    {
        proof {
            use_type_invariant(self);
        }
        &self.storage.binder().edges.get(self.key).unwrap().geometry
    }

    /// Lets go of the edge and leaves the graph as it is.
    pub fn release(self)
        ensures
            *final(self.storage()) == *old(self.storage()),
    {
    }

    /// Replaces the geometry of the edge and hands back the geometry it had.
    /// Nothing else in the graph changes.
    pub fn replace(self, geometry: G::Edge) -> (previous: G::Edge)
        ensures
            previous == old(self.storage()).edge_geometry(self.key()),
            final(self.storage())@ == old(self.storage())@,
            final(self.storage()).storage().edges@ == old(self.storage()).storage().edges@.insert(
                self.key(),
                EdgePayload { geometry, ..old(self.storage()).storage().edges@[self.key()] },
            ),
            final(self.storage()).storage().vertices == old(self.storage()).storage().vertices,
            final(self.storage()).storage().arcs == old(self.storage()).storage().arcs,
            final(self.storage()).storage().faces == old(self.storage()).storage().faces,
    {
        proof {
            use_type_invariant(&self);
        }
        let EdgeOrphan { storage, key } = self;
        storage.replace_edge_geometry(key, geometry).unwrap()
    }
}

/// The faces connected to an arc: its own face, if it has one, then the
/// face of its opposite, if that has one.
pub open spec fn faces_of(topology: Topology, arc: ArcKey) -> Seq<FaceKey> {
    let own = match topology.arcs[arc].face {
        Some(face) => seq![face],
        None => Seq::<FaceKey>::empty(),
    };
    let other = match topology.arcs[arc.opposite()].face {
        Some(face) => seq![face],
        None => Seq::<FaceKey>::empty(),
    };
    own + other
}

/// The two vertices connected by an arc, one at a time. Over a shared
/// reference to the graph it gives views of the vertices, over an exclusive
/// reference it gives orphan views.
pub struct VertexCirculator<M: Reborrow<G>, G: GraphGeometry> {
    storage: M,
    inner: ArrayVec<u64, 2>,
    position: usize,
    phantom: PhantomData<G>,
}

impl<M: Reborrow<G>, G: GraphGeometry> VertexCirculator<M, G> {
    /// The reference to the graph that the views are bound to.
    pub closed spec fn storage(&self) -> M {
        self.storage
    }

    /// The keys of the vertices that are still to come.
    pub closed spec fn remaining(&self) -> Seq<VertexKey> {
        let held = held_keys(self.inner);
        if self.position <= held.len() {
            Seq::new((held.len() - self.position) as nat, |i: int| VertexKey(held[self.position + i]))
        } else {
            Seq::empty()
        }
    }

    /// The circulator of the two vertices connected by an arc: its source,
    /// then its destination.
    pub fn from(arc: ArcView<M, G>) -> (vertices: Self)
        ensures
            vertices.storage() == arc.storage(),
            vertices.remaining() == seq![arc.key().0, arc.key().1],
    {
        let (storage, key) = arc.into_inner();
        let inner = pair_of_keys(key.source().0, key.destination().0);
        let vertices = VertexCirculator { storage, inner, position: 0, phantom: PhantomData };
        vertices
    }

    /// Gets the key of the next vertex.
    fn advance(&mut self) -> (key: Option<VertexKey>)
        ensures
            final(self).storage() == old(self).storage(),
            match key {
                Some(key) => old(self).remaining().len() > 0 && key == old(self).remaining()[0]
                    && final(self).remaining() == old(self).remaining().drop_first(),
                None => old(self).remaining().len() == 0 && final(self).remaining() == old(
                    self,
                ).remaining(),
            },
    {
        let keys = keys_as_slice(&self.inner);
        if self.position < keys.len() {
            let key = VertexKey(keys[self.position]);
            self.position = self.position + 1;
            Some(key)
        } else {
            None
        }
    }

    /// Gets the number of vertices that are still to come.
    pub fn len(&self) -> (len: usize)
        ensures
            len == self.remaining().len(),
    {
        let keys = keys_as_slice(&self.inner);
        if self.position < keys.len() {
            keys.len() - self.position
        } else {
            0
        }
    }
}

impl<'a, G: GraphGeometry> VertexCirculator<&'a MeshGraph<G>, G> {
    /// Gets the view of the next vertex, or nothing once no vertex is left
    /// or where the next key is not in the graph.
    pub fn next(&mut self) -> (vertex: Option<VertexView<&'a MeshGraph<G>, G>>)
        ensures
            final(self).storage() == old(self).storage(),
            match vertex {
                Some(vertex) => {
                    &&& old(self).remaining().len() > 0
                    &&& vertex.key() == old(self).remaining()[0]
                    &&& vertex.storage() == old(self).storage()
                    &&& final(self).remaining() == old(self).remaining().drop_first()
                },
                None => old(self).remaining().len() == 0 || !old(
                    self,
                ).storage()@.vertices.contains_key(old(self).remaining()[0]),
            },
    {
        match self.advance() {
            Some(key) => self.storage.vertex(key),
            None => None,
        }
    }
}

impl<'a, G: GraphGeometry> VertexCirculator<&'a mut MeshGraph<G>, G> {
    /// Gets the orphan view of the next vertex, or nothing once no vertex is
    /// left or where the next key is not in the graph.
    pub fn next(&mut self) -> (vertex: Option<VertexOrphan<'_, G>>)
        ensures
            *final(final(self).storage()) == *final(old(self).storage()),
            match vertex {
                Some(vertex) => {
                    &&& old(self).remaining().len() > 0
                    &&& vertex.key() == old(self).remaining()[0]
                    &&& *vertex.storage() == *old(self).storage()
                    &&& final(self).remaining() == old(self).remaining().drop_first()
                    &&& *final(vertex.storage()) == *final(self).storage()
                },
                None => {
                    &&& old(self).remaining().len() == 0 || !old(
                        self,
                    ).storage()@.vertices.contains_key(old(self).remaining()[0])
                    &&& *final(self).storage() == *old(self).storage()
                },
            },
    {
        match self.advance() {
            Some(key) => {
                if self.storage.binder().vertices.contains_key(key) {
                    Some(VertexOrphan::bind(&mut *self.storage, key))
                } else {
                    None
                }
            },
            None => None,
        }
    }

    /// Ends the walk and gives the graph back as the views have left it.
    pub fn finish(self)
        ensures
            *final(self.storage()) == *old(self.storage()),
    {
    }
}

/// The faces connected to an arc, one at a time. Over a shared reference to
/// the graph it gives views of the faces, over an exclusive reference it
/// gives orphan views.
pub struct FaceCirculator<M: Reborrow<G>, G: GraphGeometry> {
    storage: M,
    inner: ArrayVec<u64, 2>,
    position: usize,
    phantom: PhantomData<G>,
}

impl<M: Reborrow<G>, G: GraphGeometry> FaceCirculator<M, G> {
    /// The reference to the graph that the views are bound to.
    pub closed spec fn storage(&self) -> M {
        self.storage
    }

    /// The keys of the faces that are still to come.
    pub closed spec fn remaining(&self) -> Seq<FaceKey> {
        let held = held_keys(self.inner);
        if self.position <= held.len() {
            Seq::new((held.len() - self.position) as nat, |i: int| FaceKey(held[self.position + i]))
        } else {
            Seq::empty()
        }
    }

    /// The circulator of the faces connected to an arc: its own face, if it
    /// has one, then the face of its opposite, if that has one.
    pub fn from(arc: ArcView<M, G>) -> (faces: Self)
        ensures
            faces.storage() == arc.storage(),
            faces.remaining() == faces_of(arc.graph()@, arc.key()),
    {
        let (storage, key) = arc.into_inner();
        let graph = storage.reborrow();
        graph.consistency();
        proof {
            graph@.lemma_opposite(key);
        }
        let mut inner = no_keys();
        if let Some(face) = graph.binder().face_of(key) {
            push_key(&mut inner, face.0);
        }
        if let Some(face) = graph.binder().face_of(key.into_opposite()) {
            push_key(&mut inner, face.0);
        }
        let faces = FaceCirculator { storage, inner, position: 0, phantom: PhantomData };
        faces
    }

    /// Gets the key of the next face.
    fn advance(&mut self) -> (key: Option<FaceKey>)
        ensures
            final(self).storage() == old(self).storage(),
            match key {
                Some(key) => old(self).remaining().len() > 0 && key == old(self).remaining()[0]
                    && final(self).remaining() == old(self).remaining().drop_first(),
                None => old(self).remaining().len() == 0 && final(self).remaining() == old(
                    self,
                ).remaining(),
            },
    {
        let keys = keys_as_slice(&self.inner);
        if self.position < keys.len() {
            let key = FaceKey(keys[self.position]);
            self.position = self.position + 1;
            Some(key)
        } else {
            None
        }
    }

    /// Gets the number of faces that are still to come.
    pub fn len(&self) -> (len: usize)
        ensures
            len == self.remaining().len(),
    {
        let keys = keys_as_slice(&self.inner);
        if self.position < keys.len() {
            keys.len() - self.position
        } else {
            0
        }
    }
}

impl<'a, G: GraphGeometry> FaceCirculator<&'a MeshGraph<G>, G> {
    /// Gets the view of the next face, or nothing once no face is left or
    /// where the next key is not in the graph.
    pub fn next(&mut self) -> (face: Option<FaceView<&'a MeshGraph<G>, G>>)
        ensures
            final(self).storage() == old(self).storage(),
            match face {
                Some(face) => {
                    &&& old(self).remaining().len() > 0
                    &&& face.key() == old(self).remaining()[0]
                    &&& face.storage() == old(self).storage()
                    &&& final(self).remaining() == old(self).remaining().drop_first()
                },
                None => old(self).remaining().len() == 0 || !old(
                    self,
                ).storage()@.faces.contains_key(old(self).remaining()[0]),
            },
    {
        match self.advance() {
            Some(key) => self.storage.face(key),
            None => None,
        }
    }
}

impl<'a, G: GraphGeometry> FaceCirculator<&'a mut MeshGraph<G>, G> {
    /// Gets the orphan view of the next face, or nothing once no face is
    /// left or where the next key is not in the graph.
    pub fn next(&mut self) -> (face: Option<FaceOrphan<'_, G>>)
        ensures
            *final(final(self).storage()) == *final(old(self).storage()),
            match face {
                Some(face) => {
                    &&& old(self).remaining().len() > 0
                    &&& face.key() == old(self).remaining()[0]
                    &&& *face.storage() == *old(self).storage()
                    &&& final(self).remaining() == old(self).remaining().drop_first()
                    &&& *final(face.storage()) == *final(self).storage()
                },
                None => {
                    &&& old(self).remaining().len() == 0 || !old(
                        self,
                    ).storage()@.faces.contains_key(old(self).remaining()[0])
                    &&& *final(self).storage() == *old(self).storage()
                },
            },
    {
        match self.advance() {
            Some(key) => {
                if self.storage.binder().faces.contains_key(key) {
                    Some(FaceOrphan::bind(&mut *self.storage, key))
                } else {
                    None
                }
            },
            None => None,
        }
    }

    /// Ends the walk and gives the graph back as the views have left it.
    pub fn finish(self)
        ensures
            *final(self.storage()) == *old(self.storage()),
    {
    }
}

/// The orphan views of some arcs of a graph, one at a time. Each view
/// borrows the graph until it is dropped, so no two of them live at once.
pub struct ArcOrphans<'a, G: GraphGeometry> {
    storage: &'a mut MeshGraph<G>,
    keys: Vec<ArcKey>,
    position: usize,
}

impl<'a, G: GraphGeometry> ArcOrphans<'a, G> {
    /// The reference to the graph that the views are bound to.
    pub closed spec fn storage(&self) -> &'a mut MeshGraph<G> {
        self.storage
    }

    /// The keys of the arcs that are still to come.
    pub closed spec fn remaining(&self) -> Seq<ArcKey> {
        if self.position <= self.keys@.len() {
            self.keys@.subrange(self.position as int, self.keys@.len() as int)
        } else {
            Seq::empty()
        }
    }

    /// Binds the orphan views of the given arcs of a graph.
    pub(crate) fn bind(storage: &'a mut MeshGraph<G>, keys: Vec<ArcKey>) -> (orphans: Self)
        ensures
            *orphans.storage() == *old(storage),
            *final(orphans.storage()) == *final(storage),
            orphans.remaining() == keys@,
    {
        let orphans = ArcOrphans { storage, keys, position: 0 };
        orphans
    }

    /// Gets the orphan view of the next arc, or nothing once no arc is
    /// left or where the next key is not in the graph.
    pub fn next(&mut self) -> (orphan: Option<ArcOrphan<'_, G>>)
        ensures
            *final(final(self).storage()) == *final(old(self).storage()),
            match orphan {
                Some(orphan) => {
                    &&& old(self).remaining().len() > 0
                    &&& orphan.key() == old(self).remaining()[0]
                    &&& *orphan.storage() == *old(self).storage()
                    &&& final(self).remaining() == old(self).remaining().drop_first()
                    &&& *final(orphan.storage()) == *final(self).storage()
                },
                None => {
                    &&& old(self).remaining().len() == 0 || !old(
                        self,
                    ).storage()@.arcs.contains_key(old(self).remaining()[0])
                    &&& *final(self).storage() == *old(self).storage()
                },
            },
    {
        if self.position < self.keys.len() {
            let key = self.keys[self.position];
            self.position = self.position + 1;
            if self.storage.binder().arcs.contains_key(key) {
                Some(ArcOrphan::bind(&mut *self.storage, key))
            } else {
                None
            }
        } else {
            None
        }
    }

    /// Ends the walk and gives the graph back as the views have left it.
    pub fn finish(self)
        ensures
            *final(self.storage()) == *old(self.storage()),
    {
    }
}

/// The orphan views of some edges of a graph, one at a time. Each view
/// borrows the graph until it is dropped, so no two of them live at once.
pub struct EdgeOrphans<'a, G: GraphGeometry> {
    storage: &'a mut MeshGraph<G>,
    keys: Vec<EdgeKey>,
    position: usize,
}

impl<'a, G: GraphGeometry> EdgeOrphans<'a, G> {
    /// The reference to the graph that the views are bound to.
    pub closed spec fn storage(&self) -> &'a mut MeshGraph<G> {
        self.storage
    }

    /// The keys of the edges that are still to come.
    pub closed spec fn remaining(&self) -> Seq<EdgeKey> {
        if self.position <= self.keys@.len() {
            self.keys@.subrange(self.position as int, self.keys@.len() as int)
        } else {
            Seq::empty()
        }
    }

    /// Binds the orphan views of the given edges of a graph.
    pub(crate) fn bind(storage: &'a mut MeshGraph<G>, keys: Vec<EdgeKey>) -> (orphans: Self)
        ensures
            *orphans.storage() == *old(storage),
            *final(orphans.storage()) == *final(storage),
            orphans.remaining() == keys@,
    {
        let orphans = EdgeOrphans { storage, keys, position: 0 };
        orphans
    }

    /// Gets the orphan view of the next edge, or nothing once no edge is
    /// left or where the next key is not in the graph.
    pub fn next(&mut self) -> (orphan: Option<EdgeOrphan<'_, G>>)
        ensures
            *final(final(self).storage()) == *final(old(self).storage()),
            match orphan {
                Some(orphan) => {
                    &&& old(self).remaining().len() > 0
                    &&& orphan.key() == old(self).remaining()[0]
                    &&& *orphan.storage() == *old(self).storage()
                    &&& final(self).remaining() == old(self).remaining().drop_first()
                    &&& *final(orphan.storage()) == *final(self).storage()
                },
                None => {
                    &&& old(self).remaining().len() == 0 || !old(
                        self,
                    ).storage()@.edges.contains_key(old(self).remaining()[0])
                    &&& *final(self).storage() == *old(self).storage()
                },
            },
    {
        if self.position < self.keys.len() {
            let key = self.keys[self.position];
            self.position = self.position + 1;
            if self.storage.binder().edges.contains_key(key) {
                Some(EdgeOrphan::bind(&mut *self.storage, key))
            } else {
                None
            }
        } else {
            None
        }
    }

    /// Ends the walk and gives the graph back as the views have left it.
    pub fn finish(self)
        ensures
            *final(self.storage()) == *old(self.storage()),
    {
    }
}

impl<G: GraphGeometry> MeshGraph<G> {
    /// Gets an immutable view of the arc with the given key.
    pub fn arc(&self, key: ArcKey) -> (view: Option<ArcView<&Self, G>>)
        ensures
            match view {
                Some(view) => self@.arcs.contains_key(key) && view.key() == key
                    && *view.storage() == *self,
                None => !self@.arcs.contains_key(key),
            },
    {
        if self.binder().arcs.contains_key(key) {
            Some(ArcView::bind(self, key))
        } else {
            None
        }
    }

    /// Gets a mutable view of the arc with the given key.
    pub fn arc_mut(&mut self, key: ArcKey) -> (view: Option<ArcView<&mut Self, G>>)
        ensures
            match view {
                Some(view) => {
                    &&& old(self)@.arcs.contains_key(key)
                    &&& view.key() == key
                    &&& *view.storage() == *old(self)
                    &&& *final(view.storage()) == *final(self)
                },
                None => !old(self)@.arcs.contains_key(key) && *final(self) == *old(self),
            },
    {
        if self.binder().arcs.contains_key(key) {
            Some(ArcView::bind(self, key))
        } else {
            None
        }
    }

    /// Gets immutable views over the arcs in the graph, in the order of their keys.
    pub fn arcs(&self) -> (views: Vec<ArcView<&Self, G>>)
        ensures
            views@.len() == self@.arcs.dom().len(),
            forall|i: int| 0 <= i < views@.len() ==> *(#[trigger] views@[i]).storage() == *self,
            forall|i: int|
                0 <= i < views@.len() ==> self@.arcs.contains_key((#[trigger] views@[i]).key()),
            forall|i: int, j: int|
                0 <= i < j < views@.len() ==> (#[trigger] views@[i]).key().packed() < (
                #[trigger] views@[j]).key().packed(),
            forall|key: ArcKey|
                self@.arcs.contains_key(key) ==> exists|i: int|
                    0 <= i < views@.len() && (#[trigger] views@[i]).key() == key,
    {
        let keys = self.arc_keys();
        proof {
            keys@.unique_seq_to_set();
        }
        let mut views: Vec<ArcView<&Self, G>> = Vec::new();
        let mut i: usize = 0;
        while i < keys.len()
            invariant
                i <= keys@.len(),
                in_pair_order(keys@, self@.arcs.dom()),
                views@.len() == i,
                forall|j: int| 0 <= j < i ==> *(#[trigger] views@[j]).storage() == *self,
                forall|j: int| 0 <= j < i ==> (#[trigger] views@[j]).key() == keys@[j],
            decreases keys@.len() - i,
        {
            views.push(ArcView::bind(self, keys[i]));
            i = i + 1;
        }
        proof {
            assert forall|key: ArcKey| self@.arcs.contains_key(key) implies exists|i: int|
                0 <= i < views@.len() && (#[trigger] views@[i]).key() == key by {
                let i = choose|i: int| 0 <= i < keys@.len() && keys@[i] == key;
                assert(views@[i].key() == key);
            }
        }
        views
    }

    /// Gets the orphan views of the arcs in the graph, one at a time.
    ///
    /// Because these are orphan views, only geometry can be written. For
    /// edits of the connectivity, collect the keys and use `arc_mut`.
    pub fn orphan_arcs(&mut self) -> (orphans: ArcOrphans<'_, G>)
        ensures
            *orphans.storage() == *old(self),
            *final(orphans.storage()) == *final(self),
            orphans.remaining().no_duplicates(),
            orphans.remaining().to_set() == old(self)@.arcs.dom(),
    {
        let keys = self.arc_keys();
        ArcOrphans::bind(self, keys)
    }
}

impl<G: GraphGeometry> MeshGraph<G> {
    /// Gets an immutable view of the edge with the given key.
    pub fn edge(&self, key: EdgeKey) -> (view: Option<EdgeView<&Self, G>>)
        ensures
            match view {
                Some(view) => self@.edges.contains_key(key) && view.key() == key
                    && *view.storage() == *self,
                None => !self@.edges.contains_key(key),
            },
    {
        if self.binder().edges.contains_key(key) {
            Some(EdgeView::bind(self, key))
        } else {
            None
        }
    }

    /// Gets a mutable view of the edge with the given key.
    pub fn edge_mut(&mut self, key: EdgeKey) -> (view: Option<EdgeView<&mut Self, G>>)
        ensures
            match view {
                Some(view) => {
                    &&& old(self)@.edges.contains_key(key)
                    &&& view.key() == key
                    &&& *view.storage() == *old(self)
                    &&& *final(view.storage()) == *final(self)
                },
                None => !old(self)@.edges.contains_key(key) && *final(self) == *old(self),
            },
    {
        if self.binder().edges.contains_key(key) {
            Some(EdgeView::bind(self, key))
        } else {
            None
        }
    }

    /// Gets immutable views over the edges in the graph, in the order of their keys.
    pub fn edges(&self) -> (views: Vec<EdgeView<&Self, G>>)
        ensures
            views@.len() == self@.edges.dom().len(),
            forall|i: int| 0 <= i < views@.len() ==> *(#[trigger] views@[i]).storage() == *self,
            forall|i: int|
                0 <= i < views@.len() ==> self@.edges.contains_key((#[trigger] views@[i]).key()),
            forall|i: int, j: int|
                0 <= i < j < views@.len() ==> (#[trigger] views@[i]).key().packed() < (
                #[trigger] views@[j]).key().packed(),
            forall|key: EdgeKey|
                self@.edges.contains_key(key) ==> exists|i: int|
                    0 <= i < views@.len() && (#[trigger] views@[i]).key() == key,
    {
        let keys = self.edge_keys();
        proof {
            keys@.unique_seq_to_set();
        }
        let mut views: Vec<EdgeView<&Self, G>> = Vec::new();
        let mut i: usize = 0;
        while i < keys.len()
            invariant
                i <= keys@.len(),
                in_pair_order(keys@, self@.edges.dom()),
                views@.len() == i,
                forall|j: int| 0 <= j < i ==> *(#[trigger] views@[j]).storage() == *self,
                forall|j: int| 0 <= j < i ==> (#[trigger] views@[j]).key() == keys@[j],
            decreases keys@.len() - i,
        {
            views.push(EdgeView::bind(self, keys[i]));
            i = i + 1;
        }
        proof {
            assert forall|key: EdgeKey| self@.edges.contains_key(key) implies exists|i: int|
                0 <= i < views@.len() && (#[trigger] views@[i]).key() == key by {
                let i = choose|i: int| 0 <= i < keys@.len() && keys@[i] == key;
                assert(views@[i].key() == key);
            }
        }
        views
    }

    /// Gets the orphan views of the edges in the graph, one at a time.
    ///
    /// Because these are orphan views, only geometry can be written. For
    /// edits of the connectivity, collect the keys and use `edge_mut`.
    pub fn orphan_edges(&mut self) -> (orphans: EdgeOrphans<'_, G>)
        ensures
            *orphans.storage() == *old(self),
            *final(orphans.storage()) == *final(self),
            orphans.remaining().no_duplicates(),
            orphans.remaining().to_set() == old(self)@.edges.dom(),
    {
        let keys = self.edge_keys();
        EdgeOrphans::bind(self, keys)
    }
}

} // verus!
