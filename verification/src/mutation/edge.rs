//! Edits of edges: split, bridge, extrude and remove.

use crate::binder::Core;
use crate::key::{ArcKey, FaceKey, VertexKey};
use crate::mutation::face::{
    face_refusal, insert_with_cache, perimeter_arc, perimeter_arcs, FaceInsertCache,
};
use crate::payload::{is_default, GraphGeometry};
use crate::selector::GraphError;
use crate::topology::Topology;
use vstd::prelude::*;

verus! {

/// The plan of the split of an edge: the arc to split and the geometry of
/// the vertex to insert.
pub struct EdgeSplitCache<G: GraphGeometry> {
    pub arc: ArcKey,
    pub geometry: G::Vertex,
}

impl<G: GraphGeometry> EdgeSplitCache<G> {
    /// The arc of the plan is in the core.
    pub open spec fn fits(&self, core: &Core<G>) -> bool {
        core.arcs@.contains_key(self.arc)
    }

    /// Checks that the arc to split is there.
    pub fn snapshot(core: &Core<G>, arc: ArcKey, geometry: G::Vertex) -> (cache: Result<
        Self,
        GraphError,
    >)
        ensures
            match cache {
                Ok(cache) => {
                    &&& core.arcs@.contains_key(arc)
                    &&& cache.arc == arc
                    &&& cache.geometry == geometry
                    &&& cache.fits(core)
                },
                Err(error) => !core.arcs@.contains_key(arc) && error
                    == GraphError::TopologyNotFound,
            },
    {
        if core.arcs.contains_key(arc) {
            Ok(EdgeSplitCache { arc, geometry })
        } else {
            Err(GraphError::TopologyNotFound)
        }
    }
}

/// Splits the edge of a plan that fits the core and hands back the vertex
/// that was inserted.
pub fn split_with_cache<G: GraphGeometry>(core: &mut Core<G>, cache: EdgeSplitCache<G>) -> (middle:
    VertexKey)
    requires
        old(core).consistent(),
        cache.fits(old(core)),
    ensures
        final(core).consistent(),
        !old(core).vertices@.contains_key(middle),
        final(core).topology() == old(core).topology().split(cache.arc, middle),
        final(core).vertices@.dom() == old(core).vertices@.dom().insert(middle),
        final(core).vertices@[middle].geometry == cache.geometry,
        final(core).faces@.dom() == old(core).faces@.dom(),
        final(core).keeps_geometry_of(old(core)),
        final(core).halves(old(core), cache.arc, middle),
{
    let EdgeSplitCache { arc, geometry } = cache;
    core.split_edge(arc, geometry)
}

/// The perimeter of the face that bridges two arcs: the ends of the first
/// arc, then the ends of the second.
pub open spec fn bridge_perimeter(source: ArcKey, destination: ArcKey) -> Seq<VertexKey> {
    seq![source.0, source.1, destination.0, destination.1]
}

/// The number of edges that a bridge between two arcs brings: one for each
/// of the two sides between the arcs along which the graph has no arc.
pub open spec fn bridge_growth(topology: Topology, source: ArcKey, destination: ArcKey) -> nat {
    let forth: nat = if topology.arcs.contains_key(ArcKey(source.1, destination.0)) {
        0
    } else {
        1
    };
    let back: nat = if topology.arcs.contains_key(ArcKey(destination.1, source.0)) {
        0
    } else {
        1
    };
    forth + back
}

/// Why two arcs cannot be bridged, if they cannot: the first of the checks
/// that fails.
pub open spec fn bridge_refusal(topology: Topology, source: ArcKey, destination: ArcKey) -> Option<
    GraphError,
> {
    if !topology.arcs.contains_key(source) || !topology.arcs.contains_key(destination) {
        Some(GraphError::TopologyNotFound)
    } else if !topology.is_boundary(source) || !topology.is_boundary(destination) {
        Some(GraphError::TopologyConflict)
    } else {
        face_refusal(topology, bridge_perimeter(source, destination))
    }
}

/// Only boundary arcs are bridged: a bridge between two arcs of the graph of
/// which one has a face is refused as a conflict.
pub proof fn lemma_bridge_needs_boundary(topology: Topology, source: ArcKey, destination: ArcKey)
    requires
        topology.arcs.contains_key(source),
        topology.arcs.contains_key(destination),
        !topology.is_boundary(source) || !topology.is_boundary(destination),
    ensures
        bridge_refusal(topology, source, destination) == Some(GraphError::TopologyConflict),
{
}

/// The plan of a bridge between two boundary arcs: the face over the four
/// ends of the arcs.
pub struct ArcBridgeCache<G: GraphGeometry> {
    pub source: ArcKey,
    pub destination: ArcKey,
    pub face: FaceInsertCache<G>,
}

impl<G: GraphGeometry> ArcBridgeCache<G> {
    /// The plan is that of a face over the ends of two arcs of the core, and
    /// the core admits that face.
    pub open spec fn fits(&self, core: &Core<G>) -> bool {
        &&& core.topology().arcs.contains_key(self.source)
        &&& core.topology().arcs.contains_key(self.destination)
        &&& self.face.perimeter@ == bridge_perimeter(self.source, self.destination)
        &&& self.face.fits(core)
    }

    /// Checks that two arcs can be bridged: that both are there, that both
    /// are boundary arcs, and that a face can be inserted over their ends.
    pub fn snapshot(core: &Core<G>, source: ArcKey, destination: ArcKey, geometry: G::Face) -> (cache:
        Result<Self, GraphError>)
        ensures
            match cache {
                Ok(cache) => {
                    &&& bridge_refusal(core.topology(), source, destination) is None
                    &&& cache.source == source
                    &&& cache.destination == destination
                    &&& cache.face.geometry == geometry
                    &&& cache.fits(core)
                },
                Err(error) => bridge_refusal(core.topology(), source, destination) == Some(error),
            },
    {
        let from = match core.arcs.get(source) {
            Some(payload) => payload,
            None => {
                return Err(GraphError::TopologyNotFound);
            },
        };
        let to = match core.arcs.get(destination) {
            Some(payload) => payload,
            None => {
                return Err(GraphError::TopologyNotFound);
            },
        };
        if !from.is_boundary_arc() || !to.is_boundary_arc() {
            return Err(GraphError::TopologyConflict);
        }
        let mut perimeter: Vec<VertexKey> = Vec::new();
        perimeter.push(source.source());
        perimeter.push(source.destination());
        perimeter.push(destination.source());
        perimeter.push(destination.destination());
        assert(perimeter@ =~= bridge_perimeter(source, destination));
        match FaceInsertCache::snapshot(core, perimeter.as_slice(), geometry) {
            Ok(face) => Ok(ArcBridgeCache { source, destination, face }),
            Err(error) => Err(error),
        }
    }
}

/// Inserts the face of a bridge that fits the core. The ring of the face
/// runs from the source arc to the destination arc and back.
pub fn bridge_with_cache<G: GraphGeometry>(core: &mut Core<G>, cache: ArcBridgeCache<G>) -> (key:
    FaceKey)
    requires
        old(core).consistent(),
        cache.fits(old(core)),
    ensures
        final(core).consistent(),
        !old(core).faces@.contains_key(key),
        final(core).topology() == old(core).topology().with_face_around(
            key,
            bridge_perimeter(cache.source, cache.destination),
        ),
        final(core).topology().is_face_ring(
            key,
            perimeter_arcs(bridge_perimeter(cache.source, cache.destination)),
        ),
        final(core).faces@.dom() == old(core).faces@.dom().insert(key),
        final(core).faces@[key].geometry == cache.face.geometry,
        final(core).vertices@.dom() == old(core).vertices@.dom(),
        final(core).arcs@.dom().len() == old(core).arcs@.dom().len() + 2 * bridge_growth(
            old(core).topology(),
            cache.source,
            cache.destination,
        ),
        final(core).edges@.dom().len() == old(core).edges@.dom().len() + bridge_growth(
            old(core).topology(),
            cache.source,
            cache.destination,
        ),
        final(core).extends(old(core)),
        final(core).furnishes(old(core)),
{
    proof {
        let around = bridge_perimeter(cache.source, cache.destination);
        let topology = core.topology();
        assert(cache.face.perimeter@ == around);
        assert(perimeter_arc(around, 0) == cache.source);
        assert(perimeter_arc(around, 1) == ArcKey(cache.source.1, cache.destination.0));
        assert(perimeter_arc(around, 2) == cache.destination);
        assert(perimeter_arc(around, 3) == ArcKey(cache.destination.1, cache.source.0));
        assert(topology.missing_sides(around, 4) == bridge_growth(
            topology,
            cache.source,
            cache.destination,
        )) by {
            reveal_with_fuel(Topology::missing_sides, 5);
        }
    }
    let ArcBridgeCache { source: _, destination: _, face } = cache;
    insert_with_cache(core, face)
}

/// The perimeter of the face that an extrusion inserts: the ends of the arc,
/// then the new vertex over its destination and the new vertex over its
/// source.
pub open spec fn extrude_perimeter(arc: ArcKey, over_destination: VertexKey, over_source: VertexKey) -> Seq<
    VertexKey,
> {
    seq![arc.0, arc.1, over_destination, over_source]
}

/// Why an arc cannot be extruded, if it cannot.
pub open spec fn extrude_refusal(topology: Topology, arc: ArcKey) -> Option<GraphError> {
    if !topology.arcs.contains_key(arc) {
        Some(GraphError::TopologyNotFound)
    } else if !topology.is_boundary(arc) {
        Some(GraphError::TopologyConflict)
    } else {
        None
    }
}

/// Only boundary arcs are extruded: the extrusion of an arc of the graph
/// that has a face is refused as a conflict.
pub proof fn lemma_extrude_needs_boundary(topology: Topology, arc: ArcKey)
    requires
        topology.arcs.contains_key(arc),
        !topology.is_boundary(arc),
    ensures
        extrude_refusal(topology, arc) == Some(GraphError::TopologyConflict),
{
}

/// The plan of the extrusion of a boundary arc: the arc, and the geometry of
/// the two vertices of the edge that is put opposite to it.
pub struct ArcExtrudeCache<G: GraphGeometry> {
    pub arc: ArcKey,
    /// The geometry of the new vertex that is joined to the source.
    pub over_source: G::Vertex,
    /// The geometry of the new vertex that is joined to the destination.
    pub over_destination: G::Vertex,
}

impl<G: GraphGeometry> ArcExtrudeCache<G> {
    /// The arc of the plan is a boundary arc of the core.
    pub open spec fn fits(&self, core: &Core<G>) -> bool {
        core.arcs@.contains_key(self.arc) && core.topology().is_boundary(self.arc)
    }

    /// Checks that the arc to extrude is there and is a boundary arc.
    pub fn snapshot(
        core: &Core<G>,
        arc: ArcKey,
        over_source: G::Vertex,
        over_destination: G::Vertex,
    ) -> (cache: Result<Self, GraphError>)
        ensures
            match cache {
                Ok(cache) => {
                    &&& extrude_refusal(core.topology(), arc) is None
                    &&& cache.arc == arc
                    &&& cache.over_source == over_source
                    &&& cache.over_destination == over_destination
                    &&& cache.fits(core)
                },
                Err(error) => extrude_refusal(core.topology(), arc) == Some(error),
            },
    {
        match core.arcs.get(arc) {
            Some(payload) => {
                if payload.is_boundary_arc() {
                    Ok(ArcExtrudeCache { arc, over_source, over_destination })
                } else {
                    Err(GraphError::TopologyConflict)
                }
            },
            None => Err(GraphError::TopologyNotFound),
        }
    }
}

/// What an extrusion inserted: the two vertices, the face between the arc
/// and the new edge, and the arc of the new edge that lies in the ring of
/// that face.
pub struct Extrusion {
    pub over_destination: VertexKey,
    pub over_source: VertexKey,
    pub face: FaceKey,
    pub arc: ArcKey,
}

/// Extrudes the arc of a plan that fits the core: inserts a vertex for each
/// end of the arc and a face with four sides over the arc and the two new
/// vertices.
pub fn extrude_with_cache<G: GraphGeometry>(core: &mut Core<G>, cache: ArcExtrudeCache<G>) -> (extrusion:
    Extrusion)
    requires
        old(core).consistent(),
        cache.fits(old(core)),
    ensures
        final(core).consistent(),
        extrusion.arc == ArcKey(extrusion.over_destination, extrusion.over_source),
        extrusion.over_destination != extrusion.over_source,
        !old(core).vertices@.contains_key(extrusion.over_destination),
        !old(core).vertices@.contains_key(extrusion.over_source),
        !old(core).faces@.contains_key(extrusion.face),
        final(core).topology() == old(core).topology().with_vertex(
            extrusion.over_destination,
        ).with_vertex(extrusion.over_source).with_face_around(
            extrusion.face,
            extrude_perimeter(cache.arc, extrusion.over_destination, extrusion.over_source),
        ),
        final(core).topology().is_face_ring(
            extrusion.face,
            perimeter_arcs(
                extrude_perimeter(cache.arc, extrusion.over_destination, extrusion.over_source),
            ),
        ),
        final(core).vertices@.dom() == old(core).vertices@.dom().insert(
            extrusion.over_destination,
        ).insert(extrusion.over_source),
        final(core).vertices@[extrusion.over_destination].geometry == cache.over_destination,
        final(core).vertices@[extrusion.over_source].geometry == cache.over_source,
        final(core).faces@.dom() == old(core).faces@.dom().insert(extrusion.face),
        final(core).arcs@.dom().len() == old(core).arcs@.dom().len() + 6,
        final(core).edges@.dom().len() == old(core).edges@.dom().len() + 3,
        is_default(final(core).faces@[extrusion.face].geometry),
        final(core).extends(old(core)),
        final(core).furnishes(old(core)),
{
    let ghost start = *core;
    let ArcExtrudeCache { arc, over_source, over_destination } = cache;
    proof {
        assert(start.topology().arc_consistent(arc));
        start.topology().lemma_arc_ends(arc);
    }
    let c = core.insert_vertex(over_destination);
    let ghost lifted = *core;
    let d = core.insert_vertex(over_source);
    proof {
        core.lemma_extends(&lifted, &start);
    }
    let mut perimeter: Vec<VertexKey> = Vec::new();
    perimeter.push(arc.source());
    perimeter.push(arc.destination());
    perimeter.push(c);
    perimeter.push(d);
    proof {
        let current = core.topology();
        let around = extrude_perimeter(arc, c, d);
        assert(perimeter@ =~= around);
        assert forall|i: int|
            0 <= i < around.len() && current.arcs.contains_key(
                #[trigger] perimeter_arc(around, i),
            ) implies current.is_boundary(perimeter_arc(around, i)) by {
            if i != 0 {
                start.topology().lemma_arc_ends(perimeter_arc(around, i));
            }
        }
        assert(current.missing_sides(around, 4) == 3) by {
            reveal_with_fuel(Topology::missing_sides, 5);
            assert(perimeter_arc(around, 0) == arc);
            if current.arcs.contains_key(perimeter_arc(around, 1)) {
                start.topology().lemma_arc_ends(perimeter_arc(around, 1));
            }
            if current.arcs.contains_key(perimeter_arc(around, 2)) {
                start.topology().lemma_arc_ends(perimeter_arc(around, 2));
            }
            if current.arcs.contains_key(perimeter_arc(around, 3)) {
                start.topology().lemma_arc_ends(perimeter_arc(around, 3));
            }
        }
        assert(core.arcs@.dom() =~= start.arcs@.dom());
        assert(core.edges@.dom() =~= start.edges@.dom());
    }
    let ghost raised = *core;
    let face = insert_with_cache(core, FaceInsertCache { perimeter, geometry: Default::default() });
    proof {
        assert(raised.vertices@.contains_key(c));
        assert(raised.vertices@.contains_key(d));
        assert(raised.furnishes(&start));
        core.lemma_furnishes(&raised, &start);
        core.lemma_extends(&raised, &start);
    }
    Extrusion { over_destination: c, over_source: d, face, arc: ArcKey::new(c, d) }
}

impl Topology {
    /// The graph without the faces of an arc and of its opposite.
    pub open spec fn without_faces_of(self, arc: ArcKey) -> Topology {
        let first = match self.arcs[arc].face {
            Some(face) => self.without_face(face),
            None => self,
        };
        match first.arcs[arc.opposite()].face {
            Some(face) => first.without_face(face),
            None => first,
        }
    }

    /// The graph in which the two boundary arcs of an edge follow each other:
    /// what preceded each of them is followed by what followed the other.
    pub open spec fn unhooked(self, arc: ArcKey) -> Topology {
        let opposite = arc.opposite();
        let first = if self.previous(arc) != opposite {
            self.spliced(opposite, self.previous(arc))
        } else {
            self
        };
        if first.previous(opposite) != arc {
            first.spliced(arc, first.previous(opposite))
        } else {
            first
        }
    }

    /// The graph without the edge of an arc and without the faces on its two
    /// sides. Each end of the edge leads with the arc given for it, or is
    /// removed where none is given.
    pub open spec fn without_edge_around(
        self,
        arc: ArcKey,
        source_leader: Option<ArcKey>,
        destination_leader: Option<ArcKey>,
    ) -> Topology {
        self.without_faces_of(arc).unhooked(arc).without_edge(
            arc,
            source_leader,
            destination_leader,
        )
    }

    /// `left` holds what the removal of the edge of `arc` leaves of this
    /// graph: every arc but the two of the edge, every edge but that one,
    /// every face but those of the two arcs, and every vertex but the ends
    /// of the edge that have no leading arc left.
    pub open spec fn leaves(
        self,
        left: Topology,
        arc: ArcKey,
        source_leader: Option<ArcKey>,
        destination_leader: Option<ArcKey>,
    ) -> bool {
        &&& left.arcs.dom() == self.arcs.dom().remove(arc).remove(arc.opposite())
        &&& left.edges.dom() == self.edges.dom().remove(arc.spec_edge())
        &&& forall|face: FaceKey| #[trigger]
            left.faces.contains_key(face) <==> self.faces.contains_key(face)
                && self.arcs[arc].face != Some(face) && self.arcs[arc.opposite()].face != Some(
                face,
            )
        &&& forall|vertex: VertexKey| #[trigger]
            left.vertices.contains_key(vertex) <==> self.vertices.contains_key(vertex) && !(
            vertex == arc.0 && source_leader is None) && !(vertex == arc.1
                && destination_leader is None)
        &&& left.arcs.dom().len() == self.arcs.dom().len() - 2
        &&& left.edges.dom().len() == self.edges.dom().len() - 1
    }

    /// The removal of an edge takes the two arcs of the edge, the edge, the
    /// faces of the two arcs, and the ends of the edge for which no leading
    /// arc is given, and nothing else.
    pub proof fn lemma_without_edge_around(
        self,
        arc: ArcKey,
        source_leader: Option<ArcKey>,
        destination_leader: Option<ArcKey>,
    )
        requires
            self.consistent(),
            self.arcs.contains_key(arc),
        ensures
            self.leaves(
                self.without_edge_around(arc, source_leader, destination_leader),
                arc,
                source_leader,
                destination_leader,
            ),
    {
        let opposite = arc.opposite();
        let left = self.without_edge_around(arc, source_leader, destination_leader);
        assert(self.arc_consistent(arc));
        assert(self.arc_consistent(opposite));
        self.lemma_arc_ends(arc);
        self.lemma_edge_of_arc(arc);
        let first = match self.arcs[arc].face {
            Some(face) => self.without_face(face),
            None => self,
        };
        if self.arcs[arc].face is Some {
            self.lemma_without_face(self.arcs[arc].face->0);
        }
        let bare = self.without_faces_of(arc);
        if first.arcs[opposite].face is Some {
            first.lemma_without_face(first.arcs[opposite].face->0);
        }
        assert(bare.arcs.dom() =~= self.arcs.dom());
        assert(bare.arc_consistent(arc));
        assert(bare.arc_consistent(opposite));
        assert(bare.arc_consistent(bare.previous(arc)));
        let hooked = if bare.previous(arc) != opposite {
            bare.spliced(opposite, bare.previous(arc))
        } else {
            bare
        };
        assert(hooked.arcs.dom() =~= self.arcs.dom());
        let loose = bare.unhooked(arc);
        assert(loose.arcs.dom() =~= self.arcs.dom()) by {
            if hooked.previous(opposite) != arc {
                if bare.previous(arc) != opposite {
                    bare.lemma_spliced(opposite, bare.previous(arc));
                }
                assert(hooked.arc_consistent(opposite));
                assert(hooked.arc_consistent(arc));
                assert(hooked.arc_consistent(hooked.previous(opposite)));
            }
        }
        assert(left.arcs.dom() =~= self.arcs.dom().remove(arc).remove(opposite));
        assert(left.edges.dom() =~= self.edges.dom().remove(arc.spec_edge()));
    }
}

/// The plan of the removal of an edge: one of its arcs.
pub struct EdgeRemoveCache {
    pub arc: ArcKey,
}

impl EdgeRemoveCache {
    /// The arc of the plan is in the core.
    pub open spec fn fits<G: GraphGeometry>(&self, core: &Core<G>) -> bool {
        core.arcs@.contains_key(self.arc)
    }

    /// Checks that the arc whose edge is to be removed is there.
    pub fn snapshot<G: GraphGeometry>(core: &Core<G>, arc: ArcKey) -> (cache: Result<
        Self,
        GraphError,
    >)
        ensures
            match cache {
                Ok(cache) => core.arcs@.contains_key(arc) && cache.arc == arc && cache.fits(core),
                Err(error) => !core.arcs@.contains_key(arc) && error
                    == GraphError::TopologyNotFound,
            },
    {
        if core.arcs.contains_key(arc) {
            Ok(EdgeRemoveCache { arc })
        } else {
            Err(GraphError::TopologyNotFound)
        }
    }
}

/// What is left of the two ends of an edge that was removed: the leading arc
/// of each end, or nothing where the end had no other arc and was removed
/// with the edge.
pub struct EdgeRemoval {
    pub source_leader: Option<ArcKey>,
    pub destination_leader: Option<ArcKey>,
}

impl EdgeRemoval {
    pub open spec fn spec_survivor(&self, arc: ArcKey) -> Option<VertexKey> {
        if self.source_leader is Some {
            Some(arc.0)
        } else if self.destination_leader is Some {
            Some(arc.1)
        } else {
            None
        }
    }

    /// An end of the removed edge that is still in the graph: the source of
    /// `arc` if it is, else its destination if that is, else nothing.
    #[verifier::when_used_as_spec(spec_survivor)]
    pub fn survivor(&self, arc: ArcKey) -> (vertex: Option<VertexKey>)
        ensures
            vertex == self.spec_survivor(arc),
    {
        if self.source_leader.is_some() {
            Some(arc.source())
        } else if self.destination_leader.is_some() {
            Some(arc.destination())
        } else {
            None
        }
    }
}

/// An arc to lead the source of `arc` once `arc` is gone: the leading arc of
/// the vertex if that is another arc, else the opposite of the arc that
/// preceded `arc` if that leaves the vertex by another way, else any other arc
/// that leaves the vertex.
fn leader_without<G: GraphGeometry>(core: &Core<G>, arc: ArcKey, preceding: ArcKey) -> (leader:
    Option<ArcKey>)
    requires
        core.consistent(),
        core.arcs@.contains_key(arc),
        core.arcs@.contains_key(preceding),
        preceding.1 == arc.0,
    ensures
        core.topology().leads_without(arc.0, arc, leader),
{
    proof {
        assert(core.topology().arc_consistent(arc));
        assert(core.topology().arc_consistent(preceding));
        core.topology().lemma_vertex(arc.0);
    }
    match core.leader_of(arc.source()) {
        Some(current) => {
            if current != arc {
                return Some(current);
            }
        },
        None => {},
    }
    if preceding != arc.into_opposite() {
        Some(preceding.into_opposite())
    } else {
        core.find_leaving(arc.source(), arc)
    }
}

/// Removes the edge of a plan that fits the core: the faces on its two sides,
/// its two arcs, and each end that has no other arc.
pub fn remove_with_cache<G: GraphGeometry>(core: &mut Core<G>, cache: EdgeRemoveCache) -> (removal:
    EdgeRemoval)
    requires
        old(core).consistent(),
        cache.fits(old(core)),
    ensures
        final(core).consistent(),
        old(core).topology().leads_without(cache.arc.0, cache.arc, removal.source_leader),
        old(core).topology().leads_without(
            cache.arc.1,
            cache.arc.opposite(),
            removal.destination_leader,
        ),
        final(core).topology() == old(core).topology().without_edge_around(
            cache.arc,
            removal.source_leader,
            removal.destination_leader,
        ),
        final(core).keeps_geometry_of(old(core)),
{
    let ghost start = *core;
    let ghost initial = start.topology();
    let arc = cache.arc;
    let opposite = arc.into_opposite();
    proof {
        assert(initial.arc_consistent(arc));
    }
    if let Some(face) = core.face_of(arc) {
        core.remove_face(face);
    }
    let ghost first = *core;
    proof {
        assert(first.topology().arc_consistent(opposite));
    }
    if let Some(face) = core.face_of(opposite) {
        core.remove_face(face);
    }
    let ghost bare = *core;
    let before_arc = core.previous_of(arc);
    proof {
        assert(bare.topology().arc_consistent(before_arc));
    }
    if before_arc != opposite {
        core.splice(opposite, before_arc);
    }
    let before_opposite = core.previous_of(opposite);
    proof {
        assert(core.topology().arc_consistent(before_opposite));
    }
    if before_opposite != arc {
        core.splice(arc, before_opposite);
    }
    let source_leader = leader_without(core, arc, before_arc);
    let destination_leader = leader_without(core, opposite, before_opposite);
    core.remove_edge_alone(arc, source_leader, destination_leader);
    EdgeRemoval { source_leader, destination_leader }
}

} // verus!
