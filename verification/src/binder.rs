//! The core of a graph: the four storages bound into one value, and the
//! elementary edits on them. Each edit takes a consistent core to a
//! consistent core.

use crate::key::{ArcKey, EdgeKey, FaceKey, PairKey, VertexKey};
use crate::orbit::{is_period, iterate, lemma_iterate_stays, lemma_orbit_closes};
use crate::payload::{
    is_default, ArcPayload, EdgePayload, FacePayload, GraphGeometry, VertexPayload,
};
use crate::storage::{in_pair_order, PairStorage, SlotStorage};
use crate::topology::Topology;
use vstd::prelude::*;

verus! {

/// The storages of the vertices, arcs, edges and faces of a graph.
pub struct Core<G: GraphGeometry> {
    pub vertices: SlotStorage<VertexKey, VertexPayload<G>>,
    pub arcs: PairStorage<ArcKey, ArcPayload<G>>,
    pub edges: PairStorage<EdgeKey, EdgePayload<G>>,
    pub faces: SlotStorage<FaceKey, FacePayload<G>>,
}

impl<G: GraphGeometry> Core<G> {
    /// The connectivity that the payloads describe.
    pub open spec fn topology(&self) -> Topology {
        Topology {
            vertices: Map::new(
                |key: VertexKey| self.vertices@.contains_key(key),
                |key: VertexKey| self.vertices@[key].arc,
            ),
            arcs: Map::new(
                |key: ArcKey| self.arcs@.contains_key(key),
                |key: ArcKey| self.arcs@[key].links(),
            ),
            edges: Map::new(
                |key: EdgeKey| self.edges@.contains_key(key),
                |key: EdgeKey| self.edges@[key].arc,
            ),
            faces: Map::new(
                |key: FaceKey| self.faces@.contains_key(key),
                |key: FaceKey| self.faces@[key].arc,
            ),
        }
    }

    /// The storages are well formed and the connectivity is consistent.
    pub open spec fn consistent(&self) -> bool {
        &&& self.topology().consistent()
    }

    /// Every element that `earlier` holds and this core still holds has the
    /// geometry it had.
    pub open spec fn keeps_geometry_of(&self, earlier: &Core<G>) -> bool {
        &&& forall|key: VertexKey|
            earlier.vertices@.contains_key(key) && self.vertices@.contains_key(key) ==> (
            #[trigger] self.vertices@[key]).geometry == earlier.vertices@[key].geometry
        &&& forall|key: ArcKey|
            earlier.arcs@.contains_key(key) && self.arcs@.contains_key(key) ==> (
            #[trigger] self.arcs@[key]).geometry == earlier.arcs@[key].geometry
        &&& forall|key: EdgeKey|
            earlier.edges@.contains_key(key) && self.edges@.contains_key(key) ==> (
            #[trigger] self.edges@[key]).geometry == earlier.edges@[key].geometry
        &&& forall|key: FaceKey|
            earlier.faces@.contains_key(key) && self.faces@.contains_key(key) ==> (
            #[trigger] self.faces@[key]).geometry == earlier.faces@[key].geometry
    }

    /// Every element of `earlier` is in this core with the geometry it had.
    pub open spec fn extends(&self, earlier: &Core<G>) -> bool {
        &&& forall|key: VertexKey| #[trigger]
            earlier.vertices@.contains_key(key) ==> self.vertices@.contains_key(key)
                && self.vertices@[key].geometry == earlier.vertices@[key].geometry
        &&& forall|key: ArcKey| #[trigger]
            earlier.arcs@.contains_key(key) ==> self.arcs@.contains_key(key)
                && self.arcs@[key].geometry == earlier.arcs@[key].geometry
        &&& forall|key: EdgeKey| #[trigger]
            earlier.edges@.contains_key(key) ==> self.edges@.contains_key(key)
                && self.edges@[key].geometry == earlier.edges@[key].geometry
        &&& forall|key: FaceKey| #[trigger]
            earlier.faces@.contains_key(key) ==> self.faces@.contains_key(key)
                && self.faces@[key].geometry == earlier.faces@[key].geometry
    }

    /// Every arc and every edge that `earlier` did not hold has the default
    /// geometry here.
    pub open spec fn furnishes(&self, earlier: &Core<G>) -> bool {
        &&& forall|key: ArcKey|
            self.arcs@.contains_key(key) && !earlier.arcs@.contains_key(key) ==> is_default(
                (#[trigger] self.arcs@[key]).geometry,
            )
        &&& forall|key: EdgeKey|
            self.edges@.contains_key(key) && !earlier.edges@.contains_key(key) ==> is_default(
                (#[trigger] self.edges@[key]).geometry,
            )
    }

    /// Every arc and every edge of `earlier` is in this core.
    pub open spec fn holds_edges_of(&self, earlier: &Core<G>) -> bool {
        &&& forall|key: ArcKey| #[trigger]
            earlier.arcs@.contains_key(key) ==> self.arcs@.contains_key(key)
        &&& forall|key: EdgeKey| #[trigger]
            earlier.edges@.contains_key(key) ==> self.edges@.contains_key(key)
    }

    /// What extends step by step extends.
    pub proof fn lemma_extends(&self, between: &Core<G>, earlier: &Core<G>)
        requires
            self.extends(between),
            between.extends(earlier),
        ensures
            self.extends(earlier),
    {
        assert forall|key: VertexKey| #[trigger]
            earlier.vertices@.contains_key(key) implies self.vertices@.contains_key(key)
            && self.vertices@[key].geometry == earlier.vertices@[key].geometry by {
            assert(between.vertices@.contains_key(key));
        }
        assert forall|key: ArcKey| #[trigger]
            earlier.arcs@.contains_key(key) implies self.arcs@.contains_key(key)
            && self.arcs@[key].geometry == earlier.arcs@[key].geometry by {
            assert(between.arcs@.contains_key(key));
        }
        assert forall|key: EdgeKey| #[trigger]
            earlier.edges@.contains_key(key) implies self.edges@.contains_key(key)
            && self.edges@[key].geometry == earlier.edges@[key].geometry by {
            assert(between.edges@.contains_key(key));
        }
        assert forall|key: FaceKey| #[trigger]
            earlier.faces@.contains_key(key) implies self.faces@.contains_key(key)
            && self.faces@[key].geometry == earlier.faces@[key].geometry by {
            assert(between.faces@.contains_key(key));
        }
    }

    /// What is furnished step by step is furnished.
    pub proof fn lemma_furnishes(&self, between: &Core<G>, earlier: &Core<G>)
        requires
            self.furnishes(between),
            self.keeps_geometry_of(between),
            between.furnishes(earlier),
        ensures
            self.furnishes(earlier),
    {
        assert forall|key: ArcKey|
            self.arcs@.contains_key(key) && !earlier.arcs@.contains_key(key) implies is_default(
            (#[trigger] self.arcs@[key]).geometry,
        ) by {
            if between.arcs@.contains_key(key) {
                assert(is_default(between.arcs@[key].geometry));
            }
        }
        assert forall|key: EdgeKey|
            self.edges@.contains_key(key) && !earlier.edges@.contains_key(key) implies is_default(
            (#[trigger] self.edges@[key]).geometry,
        ) by {
            if between.edges@.contains_key(key) {
                assert(is_default(between.edges@[key].geometry));
            }
        }
    }

    /// A core without elements.
    pub fn empty() -> (core: Self)
        ensures
            core.consistent(),
            core.topology() == Topology::empty(),
            core.vertices.issued() == 0,
            core.faces.issued() == 0,
    {
        let core = Core {
            vertices: SlotStorage::new(),
            arcs: PairStorage::new(),
            edges: PairStorage::new(),
            faces: SlotStorage::new(),
        };
        proof {
            Topology::lemma_empty_consistent();
            assert(core.topology().vertices =~= Topology::empty().vertices);
            assert(core.topology().arcs =~= Topology::empty().arcs);
            assert(core.topology().edges =~= Topology::empty().edges);
            assert(core.topology().faces =~= Topology::empty().faces);
        }
        core
    }

    /// Inserts a vertex without arcs.
    pub fn insert_vertex(&mut self, geometry: G::Vertex) -> (key: VertexKey)
        requires
            old(self).consistent(),
        ensures
            final(self).consistent(),
            !old(self).vertices@.contains_key(key),
            key.0 == old(self).vertices.issued(),
            final(self).vertices.issued() == old(self).vertices.issued() + 1,
            final(self).topology() == old(self).topology().with_vertex(key),
            final(self).vertices@ == old(self).vertices@.insert(
                key,
                VertexPayload { geometry, arc: None },
            ),
            final(self).arcs == old(self).arcs,
            final(self).edges == old(self).edges,
            final(self).faces == old(self).faces,
    {
        let key = self.vertices.insert(VertexPayload::new(geometry));
        proof {
            let before = old(self).topology();
            let after = final(self).topology();
            assert(after.vertices =~= before.with_vertex(key).vertices);
            before.lemma_with_vertex(key);
        }
        key
    }

    /// Makes `arc` the leading arc of its source vertex if the vertex has none.
    fn lead_if_none(&mut self, arc: ArcKey)
        requires
            old(self).vertices@.contains_key(arc.0),
        ensures
            final(self).vertices.issued() == old(self).vertices.issued(),
            final(self).vertices@ == old(self).vertices@.insert(
                arc.0,
                VertexPayload {
                    arc: if old(self).vertices@[arc.0].arc is Some {
                        old(self).vertices@[arc.0].arc
                    } else {
                        Some(arc)
                    },
                    ..old(self).vertices@[arc.0]
                },
            ),
            final(self).arcs == old(self).arcs,
            final(self).edges == old(self).edges,
            final(self).faces == old(self).faces,
    {
        let vertex = arc.source();
        proof {
            old(self).vertices.lemma_keys_issued();
        }
        match self.vertices.remove(vertex) {
            Some(mut payload) => {
                if payload.arc.is_none() {
                    payload.arc = Some(arc);
                }
                self.vertices.put(vertex, payload);
            },
            None => {},
        }
    }

    /// Inserts an edge between two vertices that no edge joins yet. Its two
    /// arcs are boundary arcs that follow each other.
    pub fn insert_edge(&mut self, arc: ArcKey)
        requires
            old(self).consistent(),
            arc.0 != arc.1,
            old(self).vertices@.contains_key(arc.0),
            old(self).vertices@.contains_key(arc.1),
            !old(self).arcs@.contains_key(arc),
        ensures
            final(self).consistent(),
            final(self).topology() == old(self).topology().with_edge(arc),
            final(self).keeps_geometry_of(old(self)),
            final(self).extends(old(self)),
            final(self).furnishes(old(self)),
            final(self).vertices@.dom() == old(self).vertices@.dom(),
            final(self).vertices.issued() == old(self).vertices.issued(),
            final(self).faces == old(self).faces,
    {
        let opposite = arc.into_opposite();
        let edge = arc.edge();
        let forward = ArcPayload {
            geometry: Default::default(),
            next: Some(opposite),
            previous: Some(opposite),
            edge: Some(edge),
            face: None,
        };
        let backward = ArcPayload {
            geometry: Default::default(),
            next: Some(arc),
            previous: Some(arc),
            edge: Some(edge),
            face: None,
        };
        self.arcs.insert(arc, forward);
        self.arcs.insert(opposite, backward);
        self.edges.insert(edge, EdgePayload::new(Default::default(), arc));
        self.lead_if_none(arc);
        self.lead_if_none(opposite);
        proof {
            let before = old(self).topology();
            let after = final(self).topology();
            let edited = before.with_edge(arc);
            assert(after.vertices =~= edited.vertices);
            assert(after.arcs =~= edited.arcs);
            assert(after.edges =~= edited.edges);
            before.lemma_with_edge(arc);
            before.lemma_opposite(arc);
            before.lemma_edge_of_arc(arc);
        }
    }

    /// The arc that follows an arc of a consistent core.
    pub fn next_of(&self, arc: ArcKey) -> (next: ArcKey)
        requires
            self.topology().arcs_consistent(),
            self.arcs@.contains_key(arc),
        ensures
            next == self.topology().next(arc),
            self.arcs@.contains_key(next),
    {
        proof {
            assert(self.topology().arc_consistent(arc));
        }
        let payload = self.arcs.get(arc).unwrap();
        payload.next.unwrap()
    }

    /// The arc that precedes an arc of a consistent core.
    pub fn previous_of(&self, arc: ArcKey) -> (previous: ArcKey)
        requires
            self.topology().arcs_consistent(),
            self.arcs@.contains_key(arc),
        ensures
            previous == self.topology().previous(arc),
            self.arcs@.contains_key(previous),
    {
        proof {
            assert(self.topology().arc_consistent(arc));
        }
        let payload = self.arcs.get(arc).unwrap();
        payload.previous.unwrap()
    }

    /// The face of an arc, if it has one.
    pub fn face_of(&self, arc: ArcKey) -> (face: Option<FaceKey>)
        requires
            self.arcs@.contains_key(arc),
        ensures
            face == self.topology().arcs[arc].face,
    {
        self.arcs.get(arc).unwrap().face
    }

    fn set_next(&mut self, arc: ArcKey, next: ArcKey)
        requires
            old(self).arcs@.contains_key(arc),
        ensures
            final(self).arcs@ == old(self).arcs@.insert(
                arc,
                ArcPayload { next: Some(next), ..old(self).arcs@[arc] },
            ),
            final(self).vertices == old(self).vertices,
            final(self).edges == old(self).edges,
            final(self).faces == old(self).faces,
    {
        match self.arcs.remove(arc) {
            Some(mut payload) => {
                payload.next = Some(next);
                self.arcs.insert(arc, payload);
            },
            None => {},
        }
    }

    fn set_previous(&mut self, arc: ArcKey, previous: ArcKey)
        requires
            old(self).arcs@.contains_key(arc),
        ensures
            final(self).arcs@ == old(self).arcs@.insert(
                arc,
                ArcPayload { previous: Some(previous), ..old(self).arcs@[arc] },
            ),
            final(self).vertices == old(self).vertices,
            final(self).edges == old(self).edges,
            final(self).faces == old(self).faces,
    {
        match self.arcs.remove(arc) {
            Some(mut payload) => {
                payload.previous = Some(previous);
                self.arcs.insert(arc, payload);
            },
            None => {},
        }
    }

    fn set_face(&mut self, arc: ArcKey, face: Option<FaceKey>)
        requires
            old(self).arcs@.contains_key(arc),
        ensures
            final(self).arcs@ == old(self).arcs@.insert(
                arc,
                ArcPayload { face, ..old(self).arcs@[arc] },
            ),
            final(self).vertices == old(self).vertices,
            final(self).edges == old(self).edges,
            final(self).faces == old(self).faces,
    {
        match self.arcs.remove(arc) {
            Some(mut payload) => {
                payload.face = face;
                self.arcs.insert(arc, payload);
            },
            None => {},
        }
    }

    /// Exchanges the arcs that follow two boundary arcs that enter the same
    /// vertex.
    pub fn splice(&mut self, first: ArcKey, second: ArcKey)
        requires
            old(self).consistent(),
            old(self).arcs@.contains_key(first),
            old(self).arcs@.contains_key(second),
            first != second,
            first.1 == second.1,
            old(self).topology().is_boundary(first),
            old(self).topology().is_boundary(second),
        ensures
            final(self).consistent(),
            final(self).topology() == old(self).topology().spliced(first, second),
            final(self).keeps_geometry_of(old(self)),
            final(self).extends(old(self)),
            final(self).arcs@.dom() == old(self).arcs@.dom(),
            final(self).vertices == old(self).vertices,
            final(self).edges == old(self).edges,
            final(self).faces == old(self).faces,
    {
        let after_first = self.next_of(first);
        let after_second = self.next_of(second);
        proof {
            let before = old(self).topology();
            assert(before.arc_consistent(first));
            assert(before.arc_consistent(second));
        }
        self.set_next(first, after_second);
        self.set_next(second, after_first);
        self.set_previous(after_first, second);
        self.set_previous(after_second, first);
        proof {
            let before = old(self).topology();
            let after = final(self).topology();
            let edited = before.spliced(first, second);
            assert(after.arcs =~= edited.arcs);
            before.lemma_spliced(first, second);
        }
    }

    /// Inserts a face over a ring of at least three boundary arcs, none of
    /// them the opposite of another. The face leads with the first arc.
    pub fn insert_face_over(&mut self, ring: &Vec<ArcKey>, geometry: G::Face) -> (key: FaceKey)
        requires
            old(self).consistent(),
            old(self).topology().is_ring(ring@),
            ring@.len() >= 3,
            forall|i: int|
                0 <= i < ring@.len() ==> old(self).topology().is_boundary(#[trigger] ring@[i]),
            forall|i: int| 0 <= i < ring@.len() ==> !ring@.contains((#[trigger] ring@[i]).opposite()),
        ensures
            final(self).consistent(),
            !old(self).faces@.contains_key(key),
            key.0 == old(self).faces.issued(),
            final(self).faces.issued() == old(self).faces.issued() + 1,
            final(self).topology() == old(self).topology().with_face(key, ring@),
            final(self).topology().is_face_ring(key, ring@),
            final(self).faces@ == old(self).faces@.insert(
                key,
                FacePayload { geometry, arc: ring@[0] },
            ),
            final(self).keeps_geometry_of(old(self)),
            final(self).extends(old(self)),
            final(self).arcs@.dom() == old(self).arcs@.dom(),
            final(self).vertices == old(self).vertices,
            final(self).edges == old(self).edges,
    {
        let ghost before = *self;
        let key = self.faces.insert(FacePayload::new(geometry, ring[0]));
        let mut i: usize = 0;
        while i < ring.len()
            invariant
                i <= ring@.len(),
                before.topology().is_ring(ring@),
                self.vertices == before.vertices,
                self.edges == before.edges,
                self.faces@ == before.faces@.insert(key, FacePayload { geometry, arc: ring@[0] }),
                self.faces.issued() == before.faces.issued() + 1,
                self.arcs@.dom() == before.arcs@.dom(),
                forall|arc: ArcKey| #[trigger]
                    self.arcs@.contains_key(arc) ==> self.arcs@[arc] == if ring@.take(
                        i as int,
                    ).contains(arc) {
                        ArcPayload { face: Some(key), ..before.arcs@[arc] }
                    } else {
                        before.arcs@[arc]
                    },
            decreases ring@.len() - i,
        {
            let arc = ring[i];
            assert(before.topology().ring_step(ring@, i as int));
            self.set_face(arc, Some(key));
            proof {
                let done = ring@.take(i as int);
                let more = ring@.take(i as int + 1);
                assert forall|other: ArcKey| more.contains(other) <==> (done.contains(other)
                    || other == arc) by {
                    if done.contains(other) {
                        let j = choose|j: int| 0 <= j < done.len() && done[j] == other;
                        assert(more[j] == other);
                    }
                    if other == arc {
                        assert(more[i as int] == arc);
                    }
                }
            }
            i = i + 1;
        }
        proof {
            let old_topology = before.topology();
            let after = self.topology();
            let edited = old_topology.with_face(key, ring@);
            assert(ring@.take(ring@.len() as int) =~= ring@);
            assert(after.arcs =~= edited.arcs);
            assert(after.faces =~= edited.faces);
            old_topology.lemma_with_face(key, ring@);
        }
        key
    }

    /// The arc that an arc names as its next, if the arc is there and names
    /// one. This asks nothing of the core, which may be in the middle of an
    /// edit.
    pub fn next_link(&self, arc: ArcKey) -> (next: Option<ArcKey>)
        ensures
            self.arcs@.contains_key(arc) ==> next == self.arcs@[arc].next,
            !self.arcs@.contains_key(arc) ==> next is None,
    {
        match self.arcs.get(arc) {
            Some(payload) => payload.next,
            None => None,
        }
    }

    /// The arc that an arc names as its previous, if the arc is there and
    /// names one. This asks nothing of the core, which may be in the middle
    /// of an edit.
    pub fn previous_link(&self, arc: ArcKey) -> (previous: Option<ArcKey>)
        ensures
            self.arcs@.contains_key(arc) ==> previous == self.arcs@[arc].previous,
            !self.arcs@.contains_key(arc) ==> previous is None,
    {
        match self.arcs.get(arc) {
            Some(payload) => payload.previous,
            None => None,
        }
    }

    /// Removes a face. The arcs of its ring become boundary arcs. Hands back
    /// the payload of the face, or nothing if there is no such face.
    pub fn remove_face(&mut self, face: FaceKey) -> (payload: Option<FacePayload<G>>)
        requires
            old(self).consistent(),
        ensures
            final(self).consistent(),
            final(self).keeps_geometry_of(old(self)),
            final(self).arcs@.dom() == old(self).arcs@.dom(),
            final(self).vertices == old(self).vertices,
            final(self).edges == old(self).edges,
            final(self).faces@ == old(self).faces@.remove(face),
            final(self).faces.issued() == old(self).faces.issued(),
            match payload {
                Some(payload) => {
                    &&& old(self).faces@.contains_key(face)
                    &&& payload == old(self).faces@[face]
                    &&& final(self).topology() == old(self).topology().without_face(face)
                },
                None => !old(self).faces@.contains_key(face) && final(self).topology() == old(
                    self,
                ).topology(),
            },
    {
        let ghost before = *self;
        let ghost old_topology = before.topology();
        match self.faces.remove(face) {
            None => {
                proof {
                    assert(self.faces@ =~= before.faces@);
                }
                None
            },
            Some(payload) => {
                let ghost ring = old_topology.ring_of(face);
                proof {
                    old_topology.lemma_face(face);
                }
                let leading = payload.arc;
                let mut arc = leading;
                let ghost mut i: int = 0;
                loop
                    invariant_except_break
                        0 <= i < ring.len(),
                        arc == ring[i],
                    invariant
                        0 <= i <= ring.len(),
                        old_topology == before.topology(),
                        old_topology.is_face_ring(face, ring),
                        leading == ring[0],
                        self.vertices == before.vertices,
                        self.edges == before.edges,
                        self.faces@ == before.faces@.remove(face),
                        self.faces.issued() == before.faces.issued(),
                        self.arcs@.dom() == before.arcs@.dom(),
                        forall|other: ArcKey| #[trigger]
                            self.arcs@.contains_key(other) ==> self.arcs@[other]
                                == if ring.take(i).contains(other) {
                                ArcPayload { face: None, ..before.arcs@[other] }
                            } else {
                                before.arcs@[other]
                            },
                    ensures
                        i == ring.len(),
                    decreases ring.len() - i,
                {
                    assert(old_topology.ring_step(ring, i));
                    self.set_face(arc, None);
                    let next = self.next_link(arc);
                    proof {
                        let done = ring.take(i);
                        let more = ring.take(i + 1);
                        assert forall|other: ArcKey| more.contains(other) <==> (done.contains(
                            other,
                        ) || other == arc) by {
                            if done.contains(other) {
                                let j = choose|j: int| 0 <= j < done.len() && done[j] == other;
                        assert(more[j] == other);
                            }
                            if other == arc {
                                assert(more[i] == arc);
                            }
                        }
                    }
                    proof {
                        i = i + 1;
                    }
                    match next {
                        Some(next) => {
                            if next == leading {
                                break ;
                            }
                            arc = next;
                        },
                        None => {
                            break ;
                        },
                    }
                }
                proof {
                    let after = self.topology();
                    let edited = old_topology.without_face(face);
                    assert(ring.take(ring.len() as int) =~= ring);
                    assert(after.arcs =~= edited.arcs);
                    assert(after.faces =~= edited.faces);
                    old_topology.lemma_without_face(face);
                }
                Some(payload)
            },
        }
    }

    fn set_leader(&mut self, vertex: VertexKey, arc: ArcKey)
        requires
            old(self).vertices@.contains_key(vertex),
        ensures
            final(self).vertices@ == old(self).vertices@.insert(
                vertex,
                VertexPayload { arc: Some(arc), ..old(self).vertices@[vertex] },
            ),
            final(self).arcs == old(self).arcs,
            final(self).edges == old(self).edges,
            final(self).faces == old(self).faces,
    {
        proof {
            old(self).vertices.lemma_keys_issued();
        }
        match self.vertices.remove(vertex) {
            Some(mut payload) => {
                payload.arc = Some(arc);
                self.vertices.put(vertex, payload);
            },
            None => {},
        }
    }

    fn set_face_leader(&mut self, face: FaceKey, arc: ArcKey)
        requires
            old(self).faces@.contains_key(face),
        ensures
            final(self).faces@ == old(self).faces@.insert(
                face,
                FacePayload { arc, ..old(self).faces@[face] },
            ),
            final(self).arcs == old(self).arcs,
            final(self).edges == old(self).edges,
            final(self).vertices == old(self).vertices,
    {
        proof {
            old(self).faces.lemma_keys_issued();
        }
        match self.faces.remove(face) {
            Some(mut payload) => {
                payload.arc = arc;
                self.faces.put(face, payload);
            },
            None => {},
        }
    }

    /// Gives a vertex that lost an arc its new leading arc, or removes the
    /// vertex if there is none to give.
    fn lead_or_remove(&mut self, vertex: VertexKey, leader: Option<ArcKey>)
        requires
            old(self).vertices@.contains_key(vertex),
        ensures
            final(self).vertices@ == (match leader {
                Some(arc) => old(self).vertices@.insert(
                    vertex,
                    VertexPayload { arc: Some(arc), ..old(self).vertices@[vertex] },
                ),
                None => old(self).vertices@.remove(vertex),
            }),
            final(self).arcs == old(self).arcs,
            final(self).edges == old(self).edges,
            final(self).faces == old(self).faces,
    {
        match leader {
            Some(arc) => {
                self.set_leader(vertex, arc);
            },
            None => {
                self.vertices.remove(vertex);
            },
        }
    }

    /// The first arc other than `except` that leaves `vertex`, in the order
    /// of the keys, if there is one.
    pub fn find_leaving(&self, vertex: VertexKey, except: ArcKey) -> (found: Option<ArcKey>)
        ensures
            self.topology().leads_without(vertex, except, found),
            found matches Some(first) ==> forall|other: ArcKey| #[trigger]
                self.arcs@.contains_key(other) && other.0 == vertex && other != except
                    ==> first.packed() <= other.packed(),
    {
        let keys = self.arcs.keys();
        let mut i: usize = 0;
        while i < keys.len()
            invariant
                i <= keys@.len(),
                in_pair_order(keys@, self.arcs@.dom()),
                forall|j: int|
                    0 <= j < i ==> !((#[trigger] keys@[j]).0 == vertex && keys@[j] != except),
            decreases keys@.len() - i,
        {
            let arc = keys[i];
            if arc.source() == vertex && arc != except {
                proof {
                    assert(keys@.to_set().contains(keys@[i as int]));
                    assert forall|other: ArcKey| #[trigger]
                        self.arcs@.contains_key(other) && other.0 == vertex && other
                            != except implies arc.packed() <= other.packed() by {
                        assert(keys@.to_set().contains(other));
                        let j = choose|j: int| 0 <= j < keys@.len() && keys@[j] == other;
                        if j < i {
                            assert(!(keys@[j].0 == vertex && keys@[j] != except));
                        }
                    }
                }
                return Some(arc);
            }
            i = i + 1;
        }
        None
    }

    /// Removes an edge whose two arcs are boundary arcs that follow each
    /// other. Each end of the edge gets the leading arc given for it, or is
    /// removed with the edge where none is given.
    pub fn remove_edge_alone(
        &mut self,
        arc: ArcKey,
        source_leader: Option<ArcKey>,
        destination_leader: Option<ArcKey>,
    )
        requires
            old(self).consistent(),
            old(self).arcs@.contains_key(arc),
            old(self).topology().next(arc) == arc.opposite(),
            old(self).topology().next(arc.opposite()) == arc,
            old(self).topology().is_boundary(arc),
            old(self).topology().is_boundary(arc.opposite()),
            old(self).topology().leads_without(arc.0, arc, source_leader),
            old(self).topology().leads_without(arc.1, arc.opposite(), destination_leader),
        ensures
            final(self).consistent(),
            final(self).topology() == old(self).topology().without_edge(
                arc,
                source_leader,
                destination_leader,
            ),
            final(self).keeps_geometry_of(old(self)),
            final(self).arcs@.dom() == old(self).arcs@.dom().remove(arc).remove(arc.opposite()),
            final(self).edges@.dom() == old(self).edges@.dom().remove(arc.spec_edge()),
            forall|vertex: VertexKey|
                final(self).vertices@.contains_key(vertex) <==> #[trigger] old(
                    self,
                ).vertices@.contains_key(vertex) && !(vertex == arc.0 && source_leader is None)
                    && !(vertex == arc.1 && destination_leader is None),
            final(self).faces == old(self).faces,
    {
        let opposite = arc.into_opposite();
        let edge = arc.edge();
        proof {
            let before = old(self).topology();
            assert(before.arc_consistent(arc));
            assert(before.arc_consistent(opposite));
        }
        self.arcs.remove(arc);
        self.arcs.remove(opposite);
        self.edges.remove(edge);
        self.lead_or_remove(arc.source(), source_leader);
        self.lead_or_remove(arc.destination(), destination_leader);
        proof {
            let before = old(self).topology();
            let after = final(self).topology();
            let edited = before.without_edge(arc, source_leader, destination_leader);
            assert(after.vertices =~= edited.vertices);
            assert(after.arcs =~= edited.arcs);
            assert(after.edges =~= edited.edges);
            before.lemma_without_edge(arc, source_leader, destination_leader);
        }
    }

    /// The leading arc of a vertex, if the vertex is there and has one.
    pub fn leader_of(&self, vertex: VertexKey) -> (leader: Option<ArcKey>)
        ensures
            self.vertices@.contains_key(vertex) ==> leader == self.vertices@[vertex].arc,
            !self.vertices@.contains_key(vertex) ==> leader is None,
    {
        match self.vertices.get(vertex) {
            Some(payload) => payload.arc,
            None => None,
        }
    }

    /// The leading arc of a face, if the face is there.
    pub fn face_leader_of(&self, face: FaceKey) -> (leader: Option<ArcKey>)
        ensures
            self.faces@.contains_key(face) ==> leader == Some(self.faces@[face].arc),
            !self.faces@.contains_key(face) ==> leader is None,
    {
        match self.faces.get(face) {
            Some(payload) => Some(payload.arc),
            None => None,
        }
    }

    /// Makes `half` lead the face of a split arc if `whole` led it.
    fn lead_face_with_half(&mut self, face: Option<FaceKey>, whole: ArcKey, half: ArcKey)
        requires
            face matches Some(face) ==> old(self).faces@.contains_key(face),
        ensures
            final(self).faces@ == (match face {
                Some(face) => if old(self).faces@[face].arc == whole {
                    old(self).faces@.insert(
                        face,
                        FacePayload { arc: half, ..old(self).faces@[face] },
                    )
                } else {
                    old(self).faces@
                },
                None => old(self).faces@,
            }),
            final(self).arcs == old(self).arcs,
            final(self).edges == old(self).edges,
            final(self).vertices == old(self).vertices,
    {
        if let Some(face) = face {
            if self.face_leader_of(face) == Some(whole) {
                self.set_face_leader(face, half);
            }
        }
    }

    /// The geometry of the halves of an edge of `earlier` that was split at
    /// `middle`: of each arc of the edge, the half that leaves where the arc
    /// left has the geometry of the arc, and the other half the default
    /// geometry; the half of the edge at the source of `arc` has the
    /// geometry of the edge, the other half the default geometry.
    pub open spec fn halves(&self, earlier: &Core<G>, arc: ArcKey, middle: VertexKey) -> bool {
        &&& self.arcs@[ArcKey(arc.0, middle)].geometry == earlier.arcs@[arc].geometry
        &&& is_default(self.arcs@[ArcKey(middle, arc.1)].geometry)
        &&& self.arcs@[ArcKey(arc.1, middle)].geometry == earlier.arcs@[arc.opposite()].geometry
        &&& is_default(self.arcs@[ArcKey(middle, arc.0)].geometry)
        &&& self.edges@[ArcKey(arc.0, middle).spec_edge()].geometry
            == earlier.edges@[arc.spec_edge()].geometry
        &&& is_default(self.edges@[ArcKey(middle, arc.1).spec_edge()].geometry)
    }

    /// Splits the edge of an arc in two at a new vertex with the given
    /// geometry. The arc from A to B gives way to the arcs from A to the new
    /// vertex M and from M to B, in the same ring and face; so does its
    /// opposite. M leads with the arc from M to B.
    pub fn split_edge(&mut self, arc: ArcKey, geometry: G::Vertex) -> (middle: VertexKey)
        requires
            old(self).consistent(),
            old(self).arcs@.contains_key(arc),
        ensures
            final(self).consistent(),
            !old(self).vertices@.contains_key(middle),
            final(self).topology() == old(self).topology().split(arc, middle),
            final(self).vertices@.dom() == old(self).vertices@.dom().insert(middle),
            final(self).vertices@[middle].geometry == geometry,
            final(self).faces@.dom() == old(self).faces@.dom(),
            final(self).keeps_geometry_of(old(self)),
            final(self).halves(old(self), arc, middle),
    {
        let ghost before = old(self).topology();
        let opposite = arc.into_opposite();
        let a = arc.source();
        let b = arc.destination();
        proof {
            assert(before.arc_consistent(arc));
            assert(before.arc_consistent(opposite));
        }
        let forward = self.arcs.remove(arc).unwrap();
        let backward = self.arcs.remove(opposite).unwrap();
        let whole = self.edges.remove(arc.edge()).unwrap();
        let middle = self.vertices.insert(VertexPayload::new(geometry));
        let am = ArcKey::new(a, middle);
        let mb = ArcKey::new(middle, b);
        let bm = ArcKey::new(b, middle);
        let ma = ArcKey::new(middle, a);
        self.set_leader(middle, mb);
        let before_forward = forward.previous.unwrap();
        let after_forward = forward.next.unwrap();
        let before_backward = backward.previous.unwrap();
        let after_backward = backward.next.unwrap();
        self.arcs.insert(
            am,
            ArcPayload {
                geometry: forward.geometry,
                next: Some(mb),
                previous: Some(if before_forward == opposite { ma } else { before_forward }),
                edge: Some(am.edge()),
                face: forward.face,
            },
        );
        self.arcs.insert(
            mb,
            ArcPayload {
                geometry: Default::default(),
                next: Some(if after_forward == opposite { bm } else { after_forward }),
                previous: Some(am),
                edge: Some(mb.edge()),
                face: forward.face,
            },
        );
        self.arcs.insert(
            bm,
            ArcPayload {
                geometry: backward.geometry,
                next: Some(ma),
                previous: Some(if before_backward == arc { mb } else { before_backward }),
                edge: Some(bm.edge()),
                face: backward.face,
            },
        );
        self.arcs.insert(
            ma,
            ArcPayload {
                geometry: Default::default(),
                next: Some(if after_backward == arc { am } else { after_backward }),
                previous: Some(bm),
                edge: Some(ma.edge()),
                face: backward.face,
            },
        );
        self.edges.insert(am.edge(), EdgePayload { geometry: whole.geometry, arc: am });
        self.edges.insert(mb.edge(), EdgePayload::new(Default::default(), mb));
        proof {
            before.lemma_arc_ends(after_forward);
            before.lemma_arc_ends(after_backward);
        }
        if before_forward != opposite {
            self.set_next(before_forward, am);
        }
        if after_forward != opposite {
            self.set_previous(after_forward, mb);
        }
        if before_backward != arc {
            self.set_next(before_backward, bm);
        }
        if after_backward != arc {
            self.set_previous(after_backward, ma);
        }
        if self.leader_of(a) == Some(arc) {
            self.set_leader(a, am);
        }
        if self.leader_of(b) == Some(opposite) {
            self.set_leader(b, bm);
        }
        self.lead_face_with_half(forward.face, arc, am);
        self.lead_face_with_half(backward.face, opposite, bm);
        proof {
            let after = final(self).topology();
            let edited = before.split(arc, middle);
            assert forall|other: ArcKey| after.arcs.contains_key(other) == edited.arcs.contains_key(
                other,
            ) by {
            }
            assert forall|other: ArcKey| after.arcs.contains_key(other) implies after.arcs[other]
                == edited.arcs[other] by {
                if before.arcs.contains_key(other) {
                    assert(before.arc_consistent(other));
                }
            }
            assert(after.arcs =~= edited.arcs);
            assert forall|vertex: VertexKey| after.vertices.contains_key(vertex) implies after.vertices[vertex]
                == edited.vertices[vertex] by {
                if vertex != middle {
                    before.lemma_vertex(vertex);
                }
            }
            assert(after.vertices =~= edited.vertices);
            assert(after.edges =~= edited.edges);
            assert forall|face: FaceKey| after.faces.contains_key(face) implies after.faces[face]
                == edited.faces[face] by {
                before.lemma_face(face);
                let ring = before.ring_of(face);
            }
            assert(after.faces =~= edited.faces);
            before.lemma_split(arc, middle);
            assert forall|key: ArcKey|
                old(self).arcs@.contains_key(key) && final(self).arcs@.contains_key(
                    key,
                ) implies (#[trigger] final(self).arcs@[key]).geometry == old(
                self,
            ).arcs@[key].geometry by {
                before.lemma_arc_ends(key);
            }
            assert forall|key: EdgeKey|
                old(self).edges@.contains_key(key) && final(self).edges@.contains_key(
                    key,
                ) implies (#[trigger] final(self).edges@[key]).geometry == old(
                self,
            ).edges@[key].geometry by {
                before.lemma_edge(key);
                before.lemma_arc_ends(before.edges[key]);
            }
        }
        middle
    }

    /// The arcs of the ring of an arc, from that arc on.
    pub fn ring_arcs(&self, arc: ArcKey) -> (ring: Vec<ArcKey>)
        requires
            self.consistent(),
            self.arcs@.contains_key(arc),
        ensures
            is_period(self.topology().follow(), arc, ring@.len()),
            ring@ == self.topology().ring_from(arc, ring@.len()),
            self.topology().is_ring(ring@),
            ring@[0] == arc,
    {
        let ghost topology = self.topology();
        let ghost step = topology.follow();
        proof {
            topology.lemma_follow_permutes();
            lemma_orbit_closes(step, topology.arcs.dom(), arc);
        }
        let ghost bound = choose|steps: nat|
            1 <= steps <= topology.arcs.dom().len() && #[trigger] iterate(step, arc, steps) == arc;
        let mut ring: Vec<ArcKey> = Vec::new();
        let mut current = arc;
        loop
            invariant_except_break
                ring@.len() < bound,
                current == iterate(step, arc, ring@.len()),
                forall|fewer: nat|
                    1 <= fewer <= ring@.len() ==> #[trigger] iterate(step, arc, fewer) != arc,
            invariant
                self.consistent(),
                topology == self.topology(),
                step == topology.follow(),
                topology.arcs.contains_key(arc),
                crate::orbit::permutes(step, topology.arcs.dom()),
                iterate(step, arc, bound) == arc,
                ring@ == topology.ring_from(arc, ring@.len()),
            ensures
                is_period(step, arc, ring@.len()),
            decreases bound - ring@.len(),
        {
            proof {
                lemma_iterate_stays(step, topology.arcs.dom(), arc, ring@.len());
            }
            ring.push(current);
            current = self.next_of(current);
            if current == arc {
                break ;
            }
        }
        proof {
            topology.lemma_walk_is_ring(arc, ring@.len());
        }
        ring
    }

    /// The arcs that leave the source of an arc, in the order in which
    /// turning around the vertex meets them, from that arc on.
    pub fn fan_arcs(&self, arc: ArcKey) -> (fan: Vec<ArcKey>)
        requires
            self.consistent(),
            self.arcs@.contains_key(arc),
        ensures
            is_period(self.topology().turn(), arc, fan@.len()),
            fan@ == self.topology().fan_from(arc, fan@.len()),
            forall|i: int| 0 <= i < fan@.len() ==> self.arcs@.contains_key(#[trigger] fan@[i])
                && fan@[i].0 == arc.0,
            fan@[0] == arc,
    {
        let ghost topology = self.topology();
        let ghost step = topology.turn();
        proof {
            topology.lemma_turn_permutes();
            lemma_orbit_closes(step, topology.arcs.dom(), arc);
        }
        let ghost bound = choose|steps: nat|
            1 <= steps <= topology.arcs.dom().len() && #[trigger] iterate(step, arc, steps) == arc;
        let mut fan: Vec<ArcKey> = Vec::new();
        let mut current = arc;
        loop
            invariant_except_break
                fan@.len() < bound,
                current == iterate(step, arc, fan@.len()),
                forall|fewer: nat|
                    1 <= fewer <= fan@.len() ==> #[trigger] iterate(step, arc, fewer) != arc,
            invariant
                self.consistent(),
                topology == self.topology(),
                step == topology.turn(),
                topology.arcs.contains_key(arc),
                crate::orbit::permutes(step, topology.arcs.dom()),
                forall|a: ArcKey|
                    topology.arcs.dom().contains(a) ==> (#[trigger] step(a)).0 == a.0,
                iterate(step, arc, bound) == arc,
                fan@ == topology.fan_from(arc, fan@.len()),
                forall|i: int|
                    0 <= i < fan@.len() ==> self.arcs@.contains_key(#[trigger] fan@[i])
                        && fan@[i].0 == arc.0,
                fan@.len() == 0 || current.0 == arc.0,
            ensures
                is_period(step, arc, fan@.len()),
            decreases bound - fan@.len(),
        {
            proof {
                lemma_iterate_stays(step, topology.arcs.dom(), arc, fan@.len());
                assert(topology.arc_consistent(current));
            }
            fan.push(current);
            current = self.next_of(current.into_opposite());
            if current == arc {
                break ;
            }
        }
        fan
    }

    /// Replaces the geometry of a vertex and hands back the geometry it had.
    /// Without such a vertex, nothing changes.
    pub fn replace_vertex_geometry(&mut self, key: VertexKey, geometry: G::Vertex) -> (previous:
        Option<G::Vertex>)
        requires
            old(self).consistent(),
        ensures
            final(self).consistent(),
            final(self).topology() == old(self).topology(),
            final(self).arcs == old(self).arcs,
            final(self).edges == old(self).edges,
            final(self).faces == old(self).faces,
            match previous {
                Some(previous) => {
                    &&& old(self).vertices@.contains_key(key)
                    &&& previous == old(self).vertices@[key].geometry
                    &&& final(self).vertices@ == old(self).vertices@.insert(
                        key,
                        VertexPayload { geometry, ..old(self).vertices@[key] },
                    )
                },
                None => !old(self).vertices@.contains_key(key) && final(self).vertices@ == old(
                    self,
                ).vertices@,
            },
    {
        proof {
            old(self).vertices.lemma_keys_issued();
        }
        match self.vertices.remove(key) {
            Some(payload) => {
                let VertexPayload { geometry: previous, arc } = payload;
                self.vertices.put(key, VertexPayload { geometry, arc });
                proof {
                    assert(final(self).topology().vertices =~= old(self).topology().vertices);
                }
                Some(previous)
            },
            None => {
                proof {
                    assert(final(self).vertices@ =~= old(self).vertices@);
                }
                None
            },
        }
    }

    /// Replaces the geometry of a face and hands back the geometry it had.
    /// Without such a face, nothing changes.
    pub fn replace_face_geometry(&mut self, key: FaceKey, geometry: G::Face) -> (previous: Option<
        G::Face,
    >)
        requires
            old(self).consistent(),
        ensures
            final(self).consistent(),
            final(self).topology() == old(self).topology(),
            final(self).arcs == old(self).arcs,
            final(self).edges == old(self).edges,
            final(self).vertices == old(self).vertices,
            match previous {
                Some(previous) => {
                    &&& old(self).faces@.contains_key(key)
                    &&& previous == old(self).faces@[key].geometry
                    &&& final(self).faces@ == old(self).faces@.insert(
                        key,
                        FacePayload { geometry, ..old(self).faces@[key] },
                    )
                },
                None => !old(self).faces@.contains_key(key) && final(self).faces@ == old(
                    self,
                ).faces@,
            },
    {
        proof {
            old(self).faces.lemma_keys_issued();
        }
        match self.faces.remove(key) {
            Some(payload) => {
                let FacePayload { geometry: previous, arc } = payload;
                self.faces.put(key, FacePayload { geometry, arc });
                proof {
                    assert(final(self).topology().faces =~= old(self).topology().faces);
                }
                Some(previous)
            },
            None => {
                proof {
                    assert(final(self).faces@ =~= old(self).faces@);
                }
                None
            },
        }
    }

    /// Replaces the geometry of an arc and hands back the geometry it had.
    /// Without such an arc, nothing changes.
    pub fn replace_arc_geometry(&mut self, key: ArcKey, geometry: G::Arc) -> (previous: Option<
        G::Arc,
    >)
        requires
            old(self).consistent(),
        ensures
            final(self).consistent(),
            final(self).topology() == old(self).topology(),
            final(self).vertices == old(self).vertices,
            final(self).edges == old(self).edges,
            final(self).faces == old(self).faces,
            match previous {
                Some(previous) => {
                    &&& old(self).arcs@.contains_key(key)
                    &&& previous == old(self).arcs@[key].geometry
                    &&& final(self).arcs@ == old(self).arcs@.insert(
                        key,
                        ArcPayload { geometry, ..old(self).arcs@[key] },
                    )
                },
                None => !old(self).arcs@.contains_key(key) && final(self).arcs@ == old(
                    self,
                ).arcs@,
            },
    {
        match self.arcs.remove(key) {
            Some(payload) => {
                let ArcPayload { geometry: previous, next, previous: before, edge, face } = payload;
                self.arcs.insert(key, ArcPayload { geometry, next, previous: before, edge, face });
                proof {
                    assert(final(self).topology().arcs =~= old(self).topology().arcs);
                }
                Some(previous)
            },
            None => {
                proof {
                    assert(final(self).arcs@ =~= old(self).arcs@);
                }
                None
            },
        }
    }

    /// Replaces the geometry of an edge and hands back the geometry it had.
    /// Without such an edge, nothing changes.
    pub fn replace_edge_geometry(&mut self, key: EdgeKey, geometry: G::Edge) -> (previous: Option<
        G::Edge,
    >)
        requires
            old(self).consistent(),
        ensures
            final(self).consistent(),
            final(self).topology() == old(self).topology(),
            final(self).vertices == old(self).vertices,
            final(self).arcs == old(self).arcs,
            final(self).faces == old(self).faces,
            match previous {
                Some(previous) => {
                    &&& old(self).edges@.contains_key(key)
                    &&& previous == old(self).edges@[key].geometry
                    &&& final(self).edges@ == old(self).edges@.insert(
                        key,
                        EdgePayload { geometry, ..old(self).edges@[key] },
                    )
                },
                None => !old(self).edges@.contains_key(key) && final(self).edges@ == old(
                    self,
                ).edges@,
            },
    {
        match self.edges.remove(key) {
            Some(payload) => {
                let EdgePayload { geometry: previous, arc } = payload;
                self.edges.insert(key, EdgePayload { geometry, arc });
                proof {
                    assert(final(self).topology().edges =~= old(self).topology().edges);
                }
                Some(previous)
            },
            None => {
                proof {
                    assert(final(self).edges@ =~= old(self).edges@);
                }
                None
            },
        }
    }
}

} // verus!
