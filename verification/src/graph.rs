//! The half-edge graph of a mesh.

use crate::binder::Core;
use crate::key::{ArcKey, EdgeKey, FaceKey, VertexKey};
use crate::mutation::edge::{
    bridge_growth, bridge_perimeter, bridge_refusal, bridge_with_cache, extrude_perimeter, extrude_refusal,
    extrude_with_cache, remove_with_cache, split_with_cache, ArcBridgeCache, ArcExtrudeCache,
    EdgeRemoval, EdgeRemoveCache, EdgeSplitCache, Extrusion,
};
use crate::mutation::face::{
    FaceInsertCache, FaceTriangulateCache, face_refusal, fan_growth, fan_refusal, fan_triangle, fans_growth, fresh_faces, insert_with_cache, perimeter_arcs, ring_vertices, triangulate_with_cache, triangulation,
};
use crate::payload::{
    is_default, ArcPayload, EdgePayload, FacePayload, GraphGeometry, VertexPayload,
};
use crate::selector::{GraphError, Selector};
use crate::storage::{in_issue_order, in_pair_order, PairStorage, SlotStorage};
use crate::topology::Topology;
use vstd::pervasive::cloned;
use vstd::prelude::*;

verus! {

/// Half-edge graph of a mesh: vertices, arcs, edges and faces with their
/// geometry. An arc runs from one vertex to another, and its opposite arc
/// runs back.
///
/// A graph is consistent whenever it can be observed: every edit either
/// takes it from one consistent state to another or refuses and leaves it
/// untouched.
pub struct MeshGraph<G: GraphGeometry> {
    core: Core<G>,
}

impl<G: GraphGeometry> MeshGraph<G> {
    #[verifier::type_invariant]
    spec fn consistent(self) -> bool {
        self.core.consistent()
    }

    /// The storages of the graph.
    pub closed spec fn storage(&self) -> Core<G> {
        self.core
    }

    /// The connectivity of the graph.
    pub open spec fn view(&self) -> Topology {
        self.storage().topology()
    }

    /// The geometry of a vertex of the graph.
    pub open spec fn vertex_geometry(&self, key: VertexKey) -> G::Vertex {
        self.storage().vertices@[key].geometry
    }

    /// The geometry of an arc of the graph.
    pub open spec fn arc_geometry(&self, key: ArcKey) -> G::Arc {
        self.storage().arcs@[key].geometry
    }

    /// The geometry of an edge of the graph.
    pub open spec fn edge_geometry(&self, key: EdgeKey) -> G::Edge {
        self.storage().edges@[key].geometry
    }

    /// The geometry of a face of the graph.
    pub open spec fn face_geometry(&self, key: FaceKey) -> G::Face {
        self.storage().faces@[key].geometry
    }

    /// Witnesses that the graph is consistent: every graph that can be
    /// observed satisfies the structural invariants.
    pub fn consistency(&self)
        ensures
            self.storage().consistent(),
            self@.consistent(),
    {
        proof {
            use_type_invariant(self);
        }
    }

    /// Creates an empty graph.
    pub fn new() -> (graph: Self)
        ensures
            graph@ == Topology::empty(),
            graph.storage().vertices.issued() == 0,
            graph.storage().faces.issued() == 0,
    {
        MeshGraph { core: Core::empty() }
    }

    /// Takes the core out of the graph and leaves an empty core in its place.
    fn take(&mut self) -> (core: Core<G>)
        ensures
            core == old(self).storage(),
            core.consistent(),
    {
        proof {
            use_type_invariant(&*self);
        }
        let mut core = Core::empty();
        core::mem::swap(&mut self.core, &mut core);
        core
    }

    /// Puts a consistent core into the graph.
    fn put(&mut self, core: Core<G>)
        requires
            core.consistent(),
        ensures
            final(self).storage() == core,
    {
        let mut core = core;
        core::mem::swap(&mut self.core, &mut core);
    }

    /// Gets the number of vertices in the graph.
    pub fn vertex_count(&self) -> (count: usize)
        ensures
            count == self@.vertices.dom().len(),
    {
        proof {
            use_type_invariant(self);
            assert(self@.vertices.dom() =~= self.core.vertices@.dom());
        }
        self.core.vertices.len()
    }

    /// Gets the number of arcs in the graph.
    pub fn arc_count(&self) -> (count: usize)
        ensures
            count == self@.arcs.dom().len(),
    {
        proof {
            assert(self@.arcs.dom() =~= self.core.arcs@.dom());
        }
        self.core.arcs.len()
    }

    /// Gets the number of edges in the graph.
    pub fn edge_count(&self) -> (count: usize)
        ensures
            count == self@.edges.dom().len(),
    {
        proof {
            assert(self@.edges.dom() =~= self.core.edges@.dom());
        }
        self.core.edges.len()
    }

    /// Gets the number of faces in the graph.
    pub fn face_count(&self) -> (count: usize)
        ensures
            count == self@.faces.dom().len(),
    {
        proof {
            use_type_invariant(self);
            assert(self@.faces.dom() =~= self.core.faces@.dom());
        }
        self.core.faces.len()
    }

    /// Inserts a vertex without arcs.
    pub fn insert_vertex(&mut self, geometry: G::Vertex) -> (key: VertexKey)
        ensures
            final(self)@.consistent(),
            !old(self)@.vertices.contains_key(key),
            key.0 == old(self).storage().vertices.issued(),
            final(self).storage().vertices.issued() == old(self).storage().vertices.issued() + 1,
            final(self)@ == old(self)@.with_vertex(key),
            final(self).storage().vertices@ == old(self).storage().vertices@.insert(
                key,
                VertexPayload { geometry, arc: None },
            ),
            final(self).storage().arcs == old(self).storage().arcs,
            final(self).storage().edges == old(self).storage().edges,
            final(self).storage().faces == old(self).storage().faces,
    {
        let mut core = self.take();
        let key = core.insert_vertex(geometry);
        self.put(core);
        key
    }

    /// Inserts a face over the given vertices, in order, with the edges
    /// between them that are missing.
    ///
    /// # Errors
    ///
    /// Refuses, and leaves the graph as it is, if there are fewer than three
    /// vertices, if a vertex occurs twice or is not in the graph, or if an
    /// arc from one of the vertices to the next has a face already: an edge
    /// has at most two faces.
    pub fn insert_face(&mut self, perimeter: &[VertexKey], geometry: G::Face) -> (key: Result<
        FaceKey,
        GraphError,
    >)
        ensures
            final(self)@.consistent(),
            match key {
                Ok(key) => {
                    &&& face_refusal(old(self)@, perimeter@) is None
                    &&& !old(self)@.faces.contains_key(key)
                    &&& key.0 == old(self).storage().faces.issued()
                    &&& final(self).storage().faces.issued() == old(self).storage().faces.issued()
                        + 1
                    &&& final(self).storage().vertices.issued() == old(
                        self,
                    ).storage().vertices.issued()
                    &&& final(self)@.vertices.dom() == old(self)@.vertices.dom()
                    &&& final(self)@.faces.dom() == old(self)@.faces.dom().insert(key)
                    &&& final(self)@.arcs.dom().len() == old(self)@.arcs.dom().len() + 2 * old(
                        self,
                    )@.missing_sides(perimeter@, perimeter@.len())
                    &&& final(self)@.edges.dom().len() == old(self)@.edges.dom().len() + old(
                        self,
                    )@.missing_sides(perimeter@, perimeter@.len())
                    &&& final(self)@ == old(self)@.with_face_around(key, perimeter@)
                    &&& final(self)@.is_face_ring(key, perimeter_arcs(perimeter@))
                    &&& final(self).face_geometry(key) == geometry
                    &&& final(self).storage().extends(&old(self).storage())
                    &&& final(self).storage().furnishes(&old(self).storage())
                },
                Err(error) => {
                    &&& face_refusal(old(self)@, perimeter@) == Some(error)
                    &&& *final(self) == *old(self)
                },
            },
    {
        let mut core = self.take();
        match FaceInsertCache::snapshot(&core, perimeter, geometry) {
            Ok(cache) => {
                let ghost before = core;
                let key = insert_with_cache(&mut core, cache);
                proof {
                    assert(before.arcs@.dom() =~= before.topology().arcs.dom());
                    assert(before.edges@.dom() =~= before.topology().edges.dom());
                    assert(core.arcs@.dom() =~= core.topology().arcs.dom());
                    assert(core.edges@.dom() =~= core.topology().edges.dom());
                }
                self.put(core);
                Ok(key)
            },
            Err(error) => {
                self.put(core);
                Err(error)
            },
        }
    }

    /// The storages of the graph, which are consistent.
    pub fn binder(&self) -> (core: &Core<G>)
        ensures
            *core == self.storage(),
            core.consistent(),
    {
        proof {
            use_type_invariant(self);
        }
        &self.core
    }

    /// The storage of the vertices of the graph.
    pub fn as_vertex_storage(&self) -> (storage: &SlotStorage<VertexKey, VertexPayload<G>>)
        ensures
            *storage == self.storage().vertices,
    {
        proof {
            use_type_invariant(self);
        }
        &self.core.vertices
    }

    /// The storage of the arcs of the graph.
    pub fn as_arc_storage(&self) -> (storage: &PairStorage<ArcKey, ArcPayload<G>>)
        ensures
            *storage == self.storage().arcs,
    {
        &self.core.arcs
    }

    /// The storage of the edges of the graph.
    pub fn as_edge_storage(&self) -> (storage: &PairStorage<EdgeKey, EdgePayload<G>>)
        ensures
            *storage == self.storage().edges,
    {
        &self.core.edges
    }

    /// The storage of the faces of the graph.
    pub fn as_face_storage(&self) -> (storage: &SlotStorage<FaceKey, FacePayload<G>>)
        ensures
            *storage == self.storage().faces,
    {
        proof {
            use_type_invariant(self);
        }
        &self.core.faces
    }

    /// Splits the edge of an arc in two at a new vertex with the given
    /// geometry, and hands back the key of that vertex.
    ///
    /// The arc from A to B gives way to the arcs from A to the new vertex M
    /// and from M to B, in the same ring and face, and its opposite gives way
    /// to the arcs from B to M and from M to A. The graph gains one vertex,
    /// two arcs and one edge, and keeps its faces.
    ///
    /// # Errors
    ///
    /// Refuses, and leaves the graph as it is, if the arc is not in the
    /// graph.
    pub fn split_arc(&mut self, arc: ArcKey, geometry: G::Vertex) -> (middle: Result<
        VertexKey,
        GraphError,
    >)
        ensures
            final(self)@.consistent(),
            match middle {
                Ok(middle) => {
                    &&& old(self)@.arcs.contains_key(arc)
                    &&& !old(self)@.vertices.contains_key(middle)
                    &&& final(self)@ == old(self)@.split(arc, middle)
                    &&& final(self)@.vertices.dom().len() == old(self)@.vertices.dom().len() + 1
                    &&& final(self)@.arcs.dom().len() == old(self)@.arcs.dom().len() + 2
                    &&& final(self)@.edges.dom().len() == old(self)@.edges.dom().len() + 1
                    &&& final(self)@.faces.dom() == old(self)@.faces.dom()
                    &&& final(self).vertex_geometry(middle) == geometry
                    &&& final(self).storage().keeps_geometry_of(&old(self).storage())
                    &&& final(self).storage().halves(&old(self).storage(), arc, middle)
                },
                Err(error) => {
                    &&& !old(self)@.arcs.contains_key(arc)
                    &&& error == GraphError::TopologyNotFound
                    &&& *final(self) == *old(self)
                },
            },
    {
        let mut core = self.take();
        match EdgeSplitCache::snapshot(&core, arc, geometry) {
            Ok(cache) => {
                let ghost before = core.topology();
                let middle = split_with_cache(&mut core, cache);
                proof {
                    before.lemma_split_counts(arc, middle);
                }
                self.put(core);
                Ok(middle)
            },
            Err(error) => {
                self.put(core);
                Err(error)
            },
        }
    }

    /// Connects a boundary arc to another boundary arc with a face. The ring
    /// of the face runs along the source arc, from its destination to the
    /// source of the destination arc, along the destination arc, and back.
    /// The edges between the two arcs are inserted where they are missing.
    ///
    /// # Errors
    ///
    /// Refuses, and leaves the graph as it is, if one of the arcs is not in
    /// the graph, if one of them has a face, or if no face can be inserted
    /// over their four ends.
    pub fn bridge_arcs(&mut self, source: ArcKey, destination: ArcKey) -> (face: Result<
        FaceKey,
        GraphError,
    >)
        ensures
            final(self)@.consistent(),
            match face {
                Ok(face) => {
                    &&& bridge_refusal(old(self)@, source, destination) is None
                    &&& !old(self)@.faces.contains_key(face)
                    &&& final(self)@ == old(self)@.with_face_around(
                        face,
                        bridge_perimeter(source, destination),
                    )
                    &&& final(self)@.is_face_ring(
                        face,
                        perimeter_arcs(bridge_perimeter(source, destination)),
                    )
                    &&& final(self)@.faces.dom() == old(self)@.faces.dom().insert(face)
                    &&& final(self)@.vertices.dom() == old(self)@.vertices.dom()
                    &&& final(self)@.arcs.dom().len() == old(self)@.arcs.dom().len() + 2
                        * bridge_growth(old(self)@, source, destination)
                    &&& final(self)@.edges.dom().len() == old(self)@.edges.dom().len()
                        + bridge_growth(old(self)@, source, destination)
                    &&& is_default(final(self).face_geometry(face))
                    &&& final(self).storage().extends(&old(self).storage())
                    &&& final(self).storage().furnishes(&old(self).storage())
                },
                Err(error) => {
                    &&& bridge_refusal(old(self)@, source, destination) == Some(error)
                    &&& *final(self) == *old(self)
                },
            },
    {
        let mut core = self.take();
        match ArcBridgeCache::snapshot(&core, source, destination, Default::default()) {
            Ok(cache) => {
                let ghost before = core;
                let face = bridge_with_cache(&mut core, cache);
                proof {
                    assert(before.arcs@.dom() =~= before.topology().arcs.dom());
                    assert(before.edges@.dom() =~= before.topology().edges.dom());
                    assert(core.arcs@.dom() =~= core.topology().arcs.dom());
                    assert(core.edges@.dom() =~= core.topology().edges.dom());
                }
                self.put(core);
                Ok(face)
            },
            Err(error) => {
                self.put(core);
                Err(error)
            },
        }
    }

    /// Extrudes a boundary arc into a face with four sides: inserts a vertex
    /// with the given geometry for each end of the arc, the edge between the
    /// two, and the face between that edge and the arc.
    ///
    /// # Errors
    ///
    /// Refuses, and leaves the graph as it is, if the arc is not in the graph
    /// or is not a boundary arc.
    pub fn extrude_arc(&mut self, arc: ArcKey, over_source: G::Vertex, over_destination: G::Vertex) -> (extrusion:
        Result<Extrusion, GraphError>)
        ensures
            final(self)@.consistent(),
            match extrusion {
                Ok(extrusion) => {
                    &&& extrude_refusal(old(self)@, arc) is None
                    &&& extrusion.arc == ArcKey(extrusion.over_destination, extrusion.over_source)
                    &&& !old(self)@.vertices.contains_key(extrusion.over_destination)
                    &&& !old(self)@.vertices.contains_key(extrusion.over_source)
                    &&& !old(self)@.faces.contains_key(extrusion.face)
                    &&& final(self)@ == old(self)@.with_vertex(
                        extrusion.over_destination,
                    ).with_vertex(extrusion.over_source).with_face_around(
                        extrusion.face,
                        extrude_perimeter(arc, extrusion.over_destination, extrusion.over_source),
                    )
                    &&& final(self)@.is_face_ring(
                        extrusion.face,
                        perimeter_arcs(
                            extrude_perimeter(
                                arc,
                                extrusion.over_destination,
                                extrusion.over_source,
                            ),
                        ),
                    )
                    &&& final(self)@.faces.dom() == old(self)@.faces.dom().insert(extrusion.face)
                    &&& final(self)@.arcs.dom().len() == old(self)@.arcs.dom().len() + 6
                    &&& final(self)@.edges.dom().len() == old(self)@.edges.dom().len() + 3
                    &&& final(self)@.vertices.dom() == old(self)@.vertices.dom().insert(
                        extrusion.over_destination,
                    ).insert(extrusion.over_source)
                    &&& final(self).vertex_geometry(extrusion.over_destination)
                        == over_destination
                    &&& final(self).vertex_geometry(extrusion.over_source)
                        == over_source
                    &&& is_default(final(self).face_geometry(extrusion.face))
                    &&& final(self).storage().extends(&old(self).storage())
                    &&& final(self).storage().furnishes(&old(self).storage())
                },
                Err(error) => {
                    &&& extrude_refusal(old(self)@, arc) == Some(error)
                    &&& *final(self) == *old(self)
                },
            },
    {
        let mut core = self.take();
        match ArcExtrudeCache::snapshot(&core, arc, over_source, over_destination) {
            Ok(cache) => {
                let ghost before = core;
                let extrusion = extrude_with_cache(&mut core, cache);
                proof {
                    assert(before.arcs@.dom() =~= before.topology().arcs.dom());
                    assert(before.edges@.dom() =~= before.topology().edges.dom());
                    assert(core.arcs@.dom() =~= core.topology().arcs.dom());
                    assert(core.edges@.dom() =~= core.topology().edges.dom());
                }
                self.put(core);
                Ok(extrusion)
            },
            Err(error) => {
                self.put(core);
                Err(error)
            },
        }
    }

    /// Removes the edge of an arc: the faces on its two sides, its two arcs,
    /// and each of its two ends that has no other arc. What preceded each of
    /// the two arcs in its ring is followed by what followed the other.
    ///
    /// Hands back what is left of the two ends.
    ///
    /// # Errors
    ///
    /// Refuses, and leaves the graph as it is, if the arc is not in the
    /// graph.
    pub fn remove_edge(&mut self, arc: ArcKey) -> (removal: Result<EdgeRemoval, GraphError>)
        ensures
            final(self)@.consistent(),
            match removal {
                Ok(removal) => {
                    &&& old(self)@.arcs.contains_key(arc)
                    &&& old(self)@.leads_without(arc.0, arc, removal.source_leader)
                    &&& old(self)@.leads_without(
                        arc.1,
                        arc.opposite(),
                        removal.destination_leader,
                    )
                    &&& final(self)@ == old(self)@.without_edge_around(
                        arc,
                        removal.source_leader,
                        removal.destination_leader,
                    )
                    &&& old(self)@.leaves(
                        final(self)@,
                        arc,
                        removal.source_leader,
                        removal.destination_leader,
                    )
                    &&& final(self).storage().keeps_geometry_of(&old(self).storage())
                },
                Err(error) => {
                    &&& !old(self)@.arcs.contains_key(arc)
                    &&& error == GraphError::TopologyNotFound
                    &&& *final(self) == *old(self)
                },
            },
    {
        let mut core = self.take();
        match EdgeRemoveCache::snapshot(&core, arc) {
            Ok(cache) => {
                let ghost before = core.topology();
                let removal = remove_with_cache(&mut core, cache);
                proof {
                    before.lemma_without_edge_around(
                        arc,
                        removal.source_leader,
                        removal.destination_leader,
                    );
                }
                self.put(core);
                Ok(removal)
            },
            Err(error) => {
                self.put(core);
                Err(error)
            },
        }
    }

    /// Removes a face and hands back its geometry. The arcs of its ring
    /// become boundary arcs.
    pub fn remove_face(&mut self, face: FaceKey) -> (geometry: Option<G::Face>)
        ensures
            final(self)@.consistent(),
            match geometry {
                Some(geometry) => {
                    &&& old(self)@.faces.contains_key(face)
                    &&& geometry == old(self).face_geometry(face)
                    &&& final(self)@ == old(self)@.without_face(face)
                    &&& final(self).storage().keeps_geometry_of(&old(self).storage())
                },
                None => !old(self)@.faces.contains_key(face) && *final(self) == *old(self),
            },
    {
        let mut core = self.take();
        if core.faces.contains_key(face) {
            let payload = core.remove_face(face);
            self.put(core);
            Some(payload.unwrap().geometry)
        } else {
            self.put(core);
            None
        }
    }
}

impl<G: GraphGeometry> MeshGraph<G> {
    /// Replaces the geometry of a vertex and hands back the geometry it had.
    /// Without such a vertex, nothing changes.
    pub fn replace_vertex_geometry(&mut self, key: VertexKey, geometry: G::Vertex) -> (previous:
        Option<G::Vertex>)
        ensures
            final(self)@ == old(self)@,
            final(self).storage().arcs == old(self).storage().arcs,
            final(self).storage().edges == old(self).storage().edges,
            final(self).storage().faces == old(self).storage().faces,
            match previous {
                Some(previous) => {
                    &&& old(self)@.vertices.contains_key(key)
                    &&& previous == old(self).vertex_geometry(key)
                    &&& final(self).storage().vertices@ == old(self).storage().vertices@.insert(
                        key,
                        VertexPayload { geometry, ..old(self).storage().vertices@[key] },
                    )
                },
                None => {
                    &&& !old(self)@.vertices.contains_key(key)
                    &&& final(self).storage().vertices@ == old(self).storage().vertices@
                },
            },
    {
        let mut core = self.take();
        let previous = core.replace_vertex_geometry(key, geometry);
        self.put(core);
        previous
    }

    /// Replaces the geometry of an arc and hands back the geometry it had.
    /// Without such an arc, nothing changes.
    pub fn replace_arc_geometry(&mut self, key: ArcKey, geometry: G::Arc) -> (previous: Option<
        G::Arc,
    >)
        ensures
            final(self)@ == old(self)@,
            final(self).storage().vertices == old(self).storage().vertices,
            final(self).storage().edges == old(self).storage().edges,
            final(self).storage().faces == old(self).storage().faces,
            match previous {
                Some(previous) => {
                    &&& old(self)@.arcs.contains_key(key)
                    &&& previous == old(self).arc_geometry(key)
                    &&& final(self).storage().arcs@ == old(self).storage().arcs@.insert(
                        key,
                        ArcPayload { geometry, ..old(self).storage().arcs@[key] },
                    )
                },
                None => !old(self)@.arcs.contains_key(key) && final(self).storage().arcs@ == old(
                    self,
                ).storage().arcs@,
            },
    {
        let mut core = self.take();
        let previous = core.replace_arc_geometry(key, geometry);
        self.put(core);
        previous
    }

    /// Replaces the geometry of an edge and hands back the geometry it had.
    /// Without such an edge, nothing changes.
    pub fn replace_edge_geometry(&mut self, key: EdgeKey, geometry: G::Edge) -> (previous: Option<
        G::Edge,
    >)
        ensures
            final(self)@ == old(self)@,
            final(self).storage().vertices == old(self).storage().vertices,
            final(self).storage().arcs == old(self).storage().arcs,
            final(self).storage().faces == old(self).storage().faces,
            match previous {
                Some(previous) => {
                    &&& old(self)@.edges.contains_key(key)
                    &&& previous == old(self).edge_geometry(key)
                    &&& final(self).storage().edges@ == old(self).storage().edges@.insert(
                        key,
                        EdgePayload { geometry, ..old(self).storage().edges@[key] },
                    )
                },
                None => !old(self)@.edges.contains_key(key) && final(self).storage().edges@
                    == old(self).storage().edges@,
            },
    {
        let mut core = self.take();
        let previous = core.replace_edge_geometry(key, geometry);
        self.put(core);
        previous
    }

    /// Replaces the geometry of a face and hands back the geometry it had.
    /// Without such a face, nothing changes.
    pub fn replace_face_geometry(&mut self, key: FaceKey, geometry: G::Face) -> (previous: Option<
        G::Face,
    >)
        ensures
            final(self)@ == old(self)@,
            final(self).storage().vertices == old(self).storage().vertices,
            final(self).storage().arcs == old(self).storage().arcs,
            final(self).storage().edges == old(self).storage().edges,
            match previous {
                Some(previous) => {
                    &&& old(self)@.faces.contains_key(key)
                    &&& previous == old(self).face_geometry(key)
                    &&& final(self).storage().faces@ == old(self).storage().faces@.insert(
                        key,
                        FacePayload { geometry, ..old(self).storage().faces@[key] },
                    )
                },
                None => !old(self)@.faces.contains_key(key) && final(self).storage().faces@
                    == old(self).storage().faces@,
            },
    {
        let mut core = self.take();
        let previous = core.replace_face_geometry(key, geometry);
        self.put(core);
        previous
    }

    /// Gets the keys of the vertices in the graph, in the order in which they
    /// were inserted.
    pub fn vertex_keys(&self) -> (keys: Vec<VertexKey>)
        ensures
            in_issue_order(keys@, self@.vertices.dom()),
    {
        let keys = self.core.vertices.keys();
        assert(self.core.vertices@.dom() =~= self@.vertices.dom());
        keys
    }

    /// Gets the keys of the arcs in the graph, in the order of the keys.
    pub fn arc_keys(&self) -> (keys: Vec<ArcKey>)
        ensures
            in_pair_order(keys@, self@.arcs.dom()),
    {
        let keys = self.core.arcs.keys();
        assert(self.core.arcs@.dom() =~= self@.arcs.dom());
        keys
    }

    /// Gets the keys of the edges in the graph, in the order of the keys.
    pub fn edge_keys(&self) -> (keys: Vec<EdgeKey>)
        ensures
            in_pair_order(keys@, self@.edges.dom()),
    {
        let keys = self.core.edges.keys();
        assert(self.core.edges@.dom() =~= self@.edges.dom());
        keys
    }

    /// Gets the keys of the faces in the graph, in the order in which they
    /// were inserted.
    pub fn face_keys(&self) -> (keys: Vec<FaceKey>)
        ensures
            in_issue_order(keys@, self@.faces.dom()),
    {
        let keys = self.core.faces.keys();
        assert(self.core.faces@.dom() =~= self@.faces.dom());
        keys
    }
}

impl<G: GraphGeometry> MeshGraph<G> {
    /// The arc that a selector picks in the ring of `source`: the arc of its
    /// key, or the arc that its index counts to from `source` along the
    /// ring. An index that counts past the end of the ring picks nothing.
    pub open spec fn bridging(&self, source: ArcKey, destination: Selector<ArcKey>) -> Result<
        ArcKey,
        GraphError,
    > {
        match destination {
            Selector::ByKey(key) => Ok(key),
            Selector::ByIndex(index) => if self@.arcs.contains_key(source) && exists|len: nat|
                index < len && crate::orbit::is_period(self@.follow(), source, len) {
                Ok(crate::orbit::iterate(self@.follow(), source, index as nat))
            } else {
                Err(GraphError::TopologyNotFound)
            },
        }
    }

    /// Gets the key of the arc at an index in the ring of an arc, counted
    /// from that arc, if the ring has that many arcs.
    pub fn nth_arc_in_ring(&self, source: ArcKey, index: usize) -> (found: Result<
        ArcKey,
        GraphError,
    >)
        ensures
            found == self.bridging(source, Selector::ByIndex(index)),
    {
        proof {
            use_type_invariant(self);
        }
        if !self.core.arcs.contains_key(source) {
            return Err(GraphError::TopologyNotFound);
        }
        let ring = self.core.ring_arcs(source);
        if index < ring.len() {
            Ok(ring[index])
        } else {
            Err(GraphError::TopologyNotFound)
        }
    }

    /// Connects a boundary arc to another boundary arc, selected by key or by
    /// its index in the ring of the first, with a face. See `bridge_arcs`.
    ///
    /// # Errors
    ///
    /// Refuses, and leaves the graph as it is, if the selector picks no arc,
    /// and where `bridge_arcs` refuses.
    pub fn bridge(&mut self, source: ArcKey, destination: Selector<ArcKey>) -> (face: Result<
        FaceKey,
        GraphError,
    >)
        ensures
            final(self)@.consistent(),
            match face {
                Ok(face) => {
                    &&& old(self).bridging(source, destination) matches Ok(found)
                    &&& bridge_refusal(old(self)@, source, found) is None
                    &&& !old(self)@.faces.contains_key(face)
                    &&& final(self)@ == old(self)@.with_face_around(
                        face,
                        bridge_perimeter(source, found),
                    )
                    &&& final(self)@.is_face_ring(
                        face,
                        perimeter_arcs(bridge_perimeter(source, found)),
                    )
                    &&& final(self)@.faces.dom() == old(self)@.faces.dom().insert(face)
                    &&& final(self)@.vertices.dom() == old(self)@.vertices.dom()
                    &&& final(self)@.arcs.dom().len() == old(self)@.arcs.dom().len() + 2
                        * bridge_growth(old(self)@, source, found)
                    &&& final(self)@.edges.dom().len() == old(self)@.edges.dom().len()
                        + bridge_growth(old(self)@, source, found)
                    &&& is_default(final(self).face_geometry(face))
                    &&& final(self).storage().extends(&old(self).storage())
                    &&& final(self).storage().furnishes(&old(self).storage())
                },
                Err(error) => {
                    &&& *final(self) == *old(self)
                    &&& match old(self).bridging(source, destination) {
                        Ok(found) => bridge_refusal(old(self)@, source, found) == Some(error),
                        Err(missing) => error == missing,
                    }
                },
            },
    {
        self.consistency();
        let found = match destination {
            Selector::ByKey(key) => Ok(key),
            Selector::ByIndex(index) => self.nth_arc_in_ring(source, index),
        };
        match found {
            Ok(found) => self.bridge_arcs(source, found),
            Err(error) => Err(error),
        }
    }
}

impl<G: GraphGeometry> MeshGraph<G> {
    /// Every vertex of `earlier` has the geometry it had.
    pub open spec fn keeps_vertex_geometry_of(&self, earlier: &MeshGraph<G>) -> bool {
        forall|vertex: VertexKey| #[trigger]
            earlier@.vertices.contains_key(vertex) ==> self.vertex_geometry(vertex)
                == earlier.vertex_geometry(vertex)
    }

    /// Every face of the graph is a triangle.
    pub open spec fn triangulated(&self) -> bool {
        forall|face: FaceKey| #[trigger]
            self@.faces.contains_key(face) ==> self@.ring_of(face).len() == 3
    }

    /// Triangulates a face: removes it and inserts the triangles of the fan
    /// over its ring from the source of its leading arc, each with a clone of
    /// its geometry. A triangle is left as it is.
    ///
    /// Hands back the keys of the faces that were inserted.
    ///
    /// # Errors
    ///
    /// Refuses, and leaves the graph as it is, if the face is not in the
    /// graph, if a vertex occurs twice in its ring, or if an edge joins the
    /// first vertex of the ring to a vertex that is not next to it in the
    /// ring.
    pub fn triangulate_face(&mut self, face: FaceKey) -> (faces: Result<Vec<FaceKey>, GraphError>)
        ensures
            final(self)@.consistent(),
            match faces {
                Ok(faces) => {
                    let perimeter = ring_vertices(old(self)@.ring_of(face));
                    &&& fan_refusal(old(self)@, face) is None
                    &&& perimeter.len() == 3 ==> faces@.len() == 0 && *final(self) == *old(self)
                    &&& perimeter.len() > 3 ==> {
                        &&& faces@.len() == perimeter.len() - 2
                        &&& final(self)@ == old(self)@.without_face(face).with_fan(
                            perimeter,
                            faces@,
                            faces@.len(),
                        )
                        &&& final(self)@.faces.dom() == old(self)@.faces.dom().remove(face).union(
                            faces@.to_set(),
                        )
                    }
                    &&& faces@.no_duplicates()
                    &&& faces@ == fresh_faces(
                        old(self).storage().faces.issued(),
                        old(self)@.fan_count(face),
                    )
                    &&& final(self).storage().faces.issued() == old(self).storage().faces.issued()
                        + faces@.len()
                    &&& forall|i: int|
                        0 <= i < faces@.len() ==> (#[trigger] faces@[i]).0 == old(
                            self,
                        ).storage().faces.issued() + i
                    &&& final(self)@ == old(self)@.fanned(face, old(self).storage().faces.issued())
                    &&& final(self)@.faces.dom().len() == old(self)@.faces.dom().len()
                        + fan_growth(old(self)@, face)
                    &&& final(self)@.arcs.dom().len() == old(self)@.arcs.dom().len() + 2
                        * fan_growth(old(self)@, face)
                    &&& forall|i: int|
                        0 <= i < faces@.len() ==> !old(self)@.faces.contains_key(
                            #[trigger] faces@[i],
                        )
                    &&& forall|i: int|
                        0 <= i < faces@.len() ==> final(self)@.is_face_ring(
                            #[trigger] faces@[i],
                            perimeter_arcs(fan_triangle(perimeter, i + 1)),
                        )
                    &&& forall|other: FaceKey, ring: Seq<ArcKey>|
                        other != face && #[trigger] old(self)@.is_face_ring(other, ring)
                            ==> final(self)@.is_face_ring(other, ring)
                    &&& final(self)@.vertices.dom() == old(self)@.vertices.dom()
                    &&& final(self).storage().keeps_geometry_of(&old(self).storage())
                    &&& final(self).storage().furnishes(&old(self).storage())
                    &&& final(self).storage().holds_edges_of(&old(self).storage())
                    &&& forall|i: int|
                        0 <= i < faces@.len() ==> cloned(
                            old(self).face_geometry(face),
                            final(self).face_geometry(#[trigger] faces@[i]),
                        )
                },
                Err(error) => {
                    &&& fan_refusal(old(self)@, face) == Some(error)
                    &&& *final(self) == *old(self)
                },
            },
    {
        let mut core = self.take();
        match FaceTriangulateCache::snapshot(&core, face) {
            Ok(cache) => {
                let ghost before = core;
                let faces = triangulate_with_cache(&mut core, cache);
                proof {
                    assert(before.faces@.dom() =~= before.topology().faces.dom());
                    assert(before.arcs@.dom() =~= before.topology().arcs.dom());
                    assert(core.faces@.dom() =~= core.topology().faces.dom());
                    assert(core.arcs@.dom() =~= core.topology().arcs.dom());
                }
                self.put(core);
                Ok(faces)
            },
            Err(error) => {
                self.put(core);
                Err(error)
            },
        }
    }

    /// Triangulates the mesh, tessellating all faces into triangles. The
    /// faces are taken in the order of their keys, and the faces that one
    /// triangulation inserts are not taken again.
    ///
    /// A graph of triangles is left as it is. Where every face is
    /// triangulated, a face of `n` sides has given way to `n - 2` triangles
    /// and `n - 3` new edges.
    ///
    /// # Errors
    ///
    /// Stops at the first face that cannot be triangulated, with the error
    /// of that face. The faces before it are triangulated, that face and
    /// those after it are as they were.
    pub fn triangulate(&mut self) -> (done: Result<(), GraphError>)
        ensures
            final(self)@.consistent(),
            final(self)@.vertices.dom() == old(self)@.vertices.dom(),
            final(self).keeps_vertex_geometry_of(old(self)),
            final(self).storage().keeps_geometry_of(&old(self).storage()),
            final(self).storage().furnishes(&old(self).storage()),
            final(self).storage().holds_edges_of(&old(self).storage()),
            forall|face: FaceKey| #[trigger]
                final(self)@.faces.contains_key(face) && !old(self)@.faces.contains_key(face)
                    ==> exists|origin: FaceKey|
                    old(self)@.faces.contains_key(origin) && cloned(
                        old(self).face_geometry(origin),
                        #[trigger] final(self).face_geometry(face),
                    ),
            exists|faces: Seq<FaceKey>|
                {
                    &&& in_issue_order(faces, old(self)@.faces.dom())
                    &&& #[trigger] triangulation(
                        old(self)@,
                        old(self).storage().faces.issued(),
                        faces,
                    ) == (
                        final(self)@,
                        final(self).storage().faces.issued(),
                        match done {
                            Ok(_) => None,
                            Err(error) => Some(error),
                        },
                    )
                    &&& done is Ok ==> final(self)@.faces.dom().len() == old(self)@.faces.dom().len()
                        + fans_growth(old(self)@, faces)
                    &&& done is Ok ==> final(self)@.arcs.dom().len() == old(self)@.arcs.dom().len()
                        + 2 * fans_growth(old(self)@, faces)
                },
            done is Ok ==> final(self).triangulated(),
            old(self).triangulated() ==> done is Ok && *final(self) == *old(self),
            done matches Err(error) ==> exists|face: FaceKey|
                old(self)@.faces.contains_key(face) && final(self)@.faces.contains_key(face)
                    && #[trigger] fan_refusal(final(self)@, face) == Some(error),
    {
        self.consistency();
        let keys = self.face_keys();
        let ghost start = *self;
        let ghost issued = start.storage().faces.issued();
        let mut i: usize = 0;
        assert(keys@.skip(0) =~= keys@);
        assert(keys@.take(0) =~= Seq::<FaceKey>::empty());
        while i < keys.len()
            invariant
                i <= keys@.len(),
                in_issue_order(keys@, start@.faces.dom()),
                start == *old(self),
                issued == start.storage().faces.issued(),
                start@.consistent(),
                self@.consistent(),
                self@.vertices.dom() == start@.vertices.dom(),
                self.keeps_vertex_geometry_of(&start),
                self.storage().keeps_geometry_of(&start.storage()),
                self.storage().furnishes(&start.storage()),
                self.storage().holds_edges_of(&start.storage()),
                self.storage().faces.issued() >= issued,
                forall|face: FaceKey| #[trigger]
                    self@.faces.contains_key(face) && !start@.faces.contains_key(face)
                        ==> exists|origin: FaceKey|
                        start@.faces.contains_key(origin) && cloned(
                            start.face_geometry(origin),
                            #[trigger] self.face_geometry(face),
                        ),
                start.triangulated() ==> *self == start,
                triangulation(start@, issued, keys@) == triangulation(
                    self@,
                    self.storage().faces.issued(),
                    keys@.skip(i as int),
                ),
                self@.faces.dom().len() == start@.faces.dom().len() + fans_growth(
                    start@,
                    keys@.take(i as int),
                ),
                self@.arcs.dom().len() == start@.arcs.dom().len() + 2 * fans_growth(
                    start@,
                    keys@.take(i as int),
                ),
                forall|j: int|
                    i <= j < keys@.len() ==> self@.faces.contains_key(#[trigger] keys@[j])
                        && self@.ring_of(keys@[j]) == start@.ring_of(keys@[j]),
                forall|face: FaceKey| #[trigger]
                    self@.faces.contains_key(face) ==> self@.ring_of(face).len() == 3 || exists|
                        j: int,
                    | i <= j < keys@.len() && keys@[j] == face,
            decreases keys@.len() - i,
        {
            let face = keys[i];
            let ghost before = *self;
            proof {
                assert(keys@.skip(i as int)[0] == face);
                assert(keys@.skip(i as int).drop_first() =~= keys@.skip(i + 1));
                assert(keys@.take(i + 1).drop_last() =~= keys@.take(i as int));
                assert(keys@.take(i + 1).last() == face);
                assert(start@.faces.contains_key(face)) by {
                    assert(keys@.to_set().contains(keys@[i as int]));
                }
            }
            proof {
                start.storage().faces.lemma_keys_issued();
                before.storage().faces.lemma_keys_issued();
            }
            match self.triangulate_face(face) {
                Ok(faces) => {
                    proof {
                        let perimeter = ring_vertices(before@.ring_of(face));
                        before@.lemma_face(face);
                        let now = self.storage();
                        let then = before.storage();
                        let first = start.storage();
                        now.lemma_furnishes(&then, &first);
                        assert(now.keeps_geometry_of(&first)) by {
                            assert forall|key: VertexKey|
                                first.vertices@.contains_key(key) && now.vertices@.contains_key(
                                    key,
                                ) implies (#[trigger] now.vertices@[key]).geometry
                                == first.vertices@[key].geometry by {
                                assert(before@.vertices.contains_key(key));
                                assert(then.vertices@.contains_key(key));
                            }
                            assert forall|key: ArcKey|
                                first.arcs@.contains_key(key) && now.arcs@.contains_key(
                                    key,
                                ) implies (#[trigger] now.arcs@[key]).geometry
                                == first.arcs@[key].geometry by {
                                assert(then.arcs@.contains_key(key));
                            }
                            assert forall|key: EdgeKey|
                                first.edges@.contains_key(key) && now.edges@.contains_key(
                                    key,
                                ) implies (#[trigger] now.edges@[key]).geometry
                                == first.edges@[key].geometry by {
                                assert(then.edges@.contains_key(key));
                            }
                            assert forall|key: FaceKey|
                                first.faces@.contains_key(key) && now.faces@.contains_key(
                                    key,
                                ) implies (#[trigger] now.faces@[key]).geometry
                                == first.faces@[key].geometry by {
                                assert(self@.faces.dom().contains(key));
                                if faces@.to_set().contains(key) {
                                    let i = choose|i: int|
                                        0 <= i < faces@.len() && faces@[i] == key;
                                    assert(faces@[i].0 >= then.faces.issued());
                                }
                                assert(before@.faces.dom().contains(key));
                                assert(then.faces@.contains_key(key));
                            }
                        }
                        assert(now.holds_edges_of(&first)) by {
                            assert forall|key: ArcKey| #[trigger]
                                first.arcs@.contains_key(key) implies now.arcs@.contains_key(
                                key,
                            ) by {
                                assert(then.arcs@.contains_key(key));
                            }
                            assert forall|key: EdgeKey| #[trigger]
                                first.edges@.contains_key(key) implies now.edges@.contains_key(
                                key,
                            ) by {
                                assert(then.edges@.contains_key(key));
                            }
                        }
                        assert forall|other: FaceKey| #[trigger]
                            self@.faces.contains_key(other) && !start@.faces.contains_key(
                                other,
                            ) implies exists|origin: FaceKey|
                            start@.faces.contains_key(origin) && cloned(
                                start.face_geometry(origin),
                                #[trigger] self.face_geometry(other),
                            ) by {
                            if before@.faces.contains_key(other) {
                                let origin = choose|origin: FaceKey|
                                    start@.faces.contains_key(origin) && cloned(
                                        start.face_geometry(origin),
                                        #[trigger] before.face_geometry(other),
                                    );
                                assert(then.faces@.contains_key(other));
                                assert(now.faces@[other].geometry == then.faces@[other].geometry);
                            } else {
                                assert(faces@.to_set().contains(other));
                                let i = choose|i: int|
                                    0 <= i < faces@.len() && faces@[i] == other;
                                assert(cloned(
                                    before.face_geometry(face),
                                    self.face_geometry(faces@[i]),
                                ));
                                assert(then.faces@.contains_key(face));
                                assert(first.faces@.contains_key(face));
                            }
                        }
                        assert forall|j: int| i + 1 <= j < keys@.len() implies self@.ring_of(
                            #[trigger] keys@[j],
                        ) == start@.ring_of(keys@[j]) by {
                            let other = keys@[j];
                            before@.lemma_face(other);
                            self@.lemma_ring_unique(other, before@.ring_of(other));
                        }
                        assert forall|other: FaceKey| #[trigger]
                            self@.faces.contains_key(other) implies self@.ring_of(other).len() == 3
                            || exists|j: int| i + 1 <= j < keys@.len() && keys@[j] == other by {
                            if perimeter.len() == 3 {
                                if other != face && before@.ring_of(other).len() != 3 {
                                    let j = choose|j: int|
                                        i <= j < keys@.len() && keys@[j] == other;
                                    assert(i + 1 <= j);
                                }
                            } else if faces@.to_set().contains(other) {
                                let k = choose|k: int| 0 <= k < faces@.len() && faces@[k] == other;
                                let ring = perimeter_arcs(fan_triangle(perimeter, k + 1));
                                self@.lemma_ring_unique(other, ring);
                            } else {
                                before@.lemma_face(other);
                                let ring = before@.ring_of(other);
                                self@.lemma_ring_unique(other, ring);
                                if ring.len() != 3 {
                                    let j = choose|j: int|
                                        i <= j < keys@.len() && keys@[j] == other;
                                    assert(i + 1 <= j);
                                }
                            }
                        }
                    }
                },
                Err(error) => {
                    proof {
                        if start.triangulated() {
                            lemma_triangle_fans(before@, face);
                        }
                    }
                    return Err(error);
                },
            }
            i = i + 1;
        }
        proof {
            assert(keys@.take(keys@.len() as int) =~= keys@);
        }
        Ok(())
    }
}

/// A triangle whose three vertices differ can be triangulated: there is
/// nothing to do.
pub proof fn lemma_triangle_fans(topology: Topology, face: FaceKey)
    requires
        topology.consistent(),
        topology.faces.contains_key(face),
        topology.ring_of(face).len() == 3,
    ensures
        fan_refusal(topology, face) is None,
{
    let ring = topology.ring_of(face);
    topology.lemma_face(face);
    assert(topology.ring_step(ring, 0));
    assert(topology.arc_consistent(ring[0]));
    assert(topology.arc_consistent(ring[1]));
}

impl<G: GraphGeometry> Default for MeshGraph<G> {
    fn default() -> (graph: Self)
        ensures
            graph@ == Topology::empty(),
    {
        MeshGraph::new()
    }
}

} // verus!
