//! The connectivity of a graph as a mathematical value, the invariants that
//! make it consistent, and the elementary edits that keep it so.

use crate::key::{ArcKey, EdgeKey, FaceKey, VertexKey};
use crate::orbit::{is_period, iterate, lemma_iterate_stays, permutes};
use vstd::prelude::*;

verus! {

/// What an arc refers to.
pub struct ArcLinks {
    pub next: Option<ArcKey>,
    pub previous: Option<ArcKey>,
    pub edge: Option<EdgeKey>,
    pub face: Option<FaceKey>,
}

/// The connectivity of a graph: for each element, the keys it refers to.
pub struct Topology {
    /// The leading arc of each vertex.
    pub vertices: Map<VertexKey, Option<ArcKey>>,
    pub arcs: Map<ArcKey, ArcLinks>,
    /// The arc that stands for each edge.
    pub edges: Map<EdgeKey, ArcKey>,
    /// The leading arc of each face.
    pub faces: Map<FaceKey, ArcKey>,
}

/// The index that follows `i` in a ring of `len` arcs.
pub open spec fn after(i: int, len: nat) -> int {
    if i + 1 == len {
        0
    } else {
        i + 1
    }
}

/// The index that precedes `i` in a ring of `len` arcs.
pub open spec fn before(i: int, len: nat) -> int {
    if i == 0 {
        len - 1
    } else {
        i - 1
    }
}

impl Topology {
    pub open spec fn empty() -> Topology {
        Topology { vertices: Map::empty(), arcs: Map::empty(), edges: Map::empty(), faces: Map::empty() }
    }

    /// The arc that follows `arc` in its ring.
    pub open spec fn next(self, arc: ArcKey) -> ArcKey {
        self.arcs[arc].next->0
    }

    /// The arc that precedes `arc` in its ring.
    pub open spec fn previous(self, arc: ArcKey) -> ArcKey {
        self.arcs[arc].previous->0
    }

    /// A boundary arc has no face.
    pub open spec fn is_boundary(self, arc: ArcKey) -> bool {
        self.arcs[arc].face is None
    }

    /// What holds of one arc in a consistent graph.
    pub open spec fn arc_consistent(self, arc: ArcKey) -> bool {
        let links = self.arcs[arc];
        &&& arc.0 != arc.1
        &&& self.vertices.contains_key(arc.0)
        &&& self.vertices[arc.0] is Some
        &&& self.arcs.contains_key(arc.opposite())
        &&& links.next is Some
        &&& self.arcs.contains_key(links.next->0)
        &&& (links.next->0).0 == arc.1
        &&& self.arcs[links.next->0].previous == Some(arc)
        &&& self.arcs[links.next->0].face == links.face
        &&& links.previous is Some
        &&& self.arcs.contains_key(links.previous->0)
        &&& (links.previous->0).1 == arc.0
        &&& self.arcs[links.previous->0].next == Some(arc)
        &&& links.edge == Some(arc.spec_edge())
        &&& self.edges.contains_key(arc.spec_edge())
        &&& links.face matches Some(face) ==> self.faces.contains_key(face)
            && self.arcs[arc.opposite()].face != Some(face)
    }

    /// Every arc has an opposite, a next and a previous arc that point back at
    /// it, the edge of its two vertices, and a face that exists if it has one
    /// and that its opposite does not share; and its source vertex has a
    /// leading arc.
    pub open spec fn arcs_consistent(self) -> bool {
        forall|arc: ArcKey| self.arcs.contains_key(arc) ==> #[trigger] self.arc_consistent(arc)
    }

    /// The leading arc of a vertex leaves that vertex, and the arc that stands
    /// for an edge belongs to it.
    #[verifier::opaque]
    pub open spec fn leaders_consistent(self) -> bool {
        &&& forall|vertex: VertexKey| #[trigger]
            self.vertices.contains_key(vertex) ==> (self.vertices[vertex] matches Some(arc)
                ==> self.arcs.contains_key(arc) && arc.0 == vertex)
        &&& forall|edge: EdgeKey| #[trigger]
            self.edges.contains_key(edge) ==> self.arcs.contains_key(self.edges[edge])
                && self.edges[edge].spec_edge() == edge
    }

    /// The arc at `i` is in the graph and is followed by the arc after it.
    pub open spec fn ring_step(self, ring: Seq<ArcKey>, i: int) -> bool {
        &&& self.arcs.contains_key(ring[i])
        &&& self.arcs[ring[i]].next == Some(ring[after(i, ring.len())])
    }

    /// `ring` is a closed walk along next arcs that meets no arc twice.
    pub open spec fn is_ring(self, ring: Seq<ArcKey>) -> bool {
        &&& ring.len() > 0
        &&& ring.no_duplicates()
        &&& forall|i: int| 0 <= i < ring.len() ==> #[trigger] self.ring_step(ring, i)
    }

    /// `ring` is the ring of `face`: it starts at the leading arc of the face,
    /// has at least three arcs, and holds exactly the arcs that refer to the
    /// face.
    pub open spec fn is_face_ring(self, face: FaceKey, ring: Seq<ArcKey>) -> bool {
        &&& self.is_ring(ring)
        &&& ring.len() >= 3
        &&& ring[0] == self.faces[face]
        &&& forall|i: int| 0 <= i < ring.len() ==> (#[trigger] self.arcs[ring[i]]).face == Some(face)
        &&& forall|arc: ArcKey|
            self.arcs.contains_key(arc) && (#[trigger] self.arcs[arc]).face == Some(face)
                ==> ring.contains(arc)
    }

    /// Every face has a ring.
    #[verifier::opaque]
    pub open spec fn faces_consistent(self) -> bool {
        forall|face: FaceKey| #[trigger]
            self.faces.contains_key(face) ==> exists|ring: Seq<ArcKey>|
                self.is_face_ring(face, ring)
    }

    /// The ring of a face in a consistent graph.
    pub open spec fn ring_of(self, face: FaceKey) -> Seq<ArcKey> {
        choose|ring: Seq<ArcKey>| self.is_face_ring(face, ring)
    }

    /// The structural invariants of a graph.
    pub open spec fn consistent(self) -> bool {
        &&& self.vertices.dom().finite()
        &&& self.arcs.dom().finite()
        &&& self.edges.dom().finite()
        &&& self.faces.dom().finite()
        &&& self.arcs_consistent()
        &&& self.leaders_consistent()
        &&& self.faces_consistent()
    }

    /// What the invariants say of one arc.
    pub proof fn lemma_arc(self, arc: ArcKey)
        requires
            self.arcs_consistent(),
            self.arcs.contains_key(arc),
        ensures
            self.arc_consistent(arc),
    {
    }

    /// What the invariants say of one vertex.
    pub proof fn lemma_vertex(self, vertex: VertexKey)
        requires
            self.leaders_consistent(),
            self.vertices.contains_key(vertex),
        ensures
            self.vertices[vertex] matches Some(arc) ==> self.arcs.contains_key(arc) && arc.0
                == vertex,
    {
        reveal(Topology::leaders_consistent);
    }

    /// What the invariants say of one edge.
    pub proof fn lemma_edge(self, edge: EdgeKey)
        requires
            self.leaders_consistent(),
            self.edges.contains_key(edge),
        ensures
            self.arcs.contains_key(self.edges[edge]),
            self.edges[edge].spec_edge() == edge,
    {
        reveal(Topology::leaders_consistent);
    }

    /// What the invariants say of one face.
    pub proof fn lemma_face(self, face: FaceKey)
        requires
            self.faces_consistent(),
            self.faces.contains_key(face),
        ensures
            self.is_face_ring(face, self.ring_of(face)),
    {
        reveal(Topology::faces_consistent);
    }

    /// The empty graph is consistent.
    pub proof fn lemma_empty_consistent()
        ensures
            Topology::empty().consistent(),
    {
        reveal(Topology::leaders_consistent);
        reveal(Topology::faces_consistent);
    }

    /// Face rings survive an edit that leaves the faces and every arc of a
    /// face as they are and gives no face to any other arc.
    pub proof fn lemma_rings_kept(self, edited: Topology)
        requires
            self.faces_consistent(),
            edited.faces == self.faces,
            forall|arc: ArcKey|
                self.arcs.contains_key(arc) && (#[trigger] self.arcs[arc]).face is Some
                    ==> edited.arcs.contains_key(arc) && edited.arcs[arc] == self.arcs[arc],
            forall|arc: ArcKey|
                edited.arcs.contains_key(arc) && (#[trigger] edited.arcs[arc]).face is Some
                    ==> self.arcs.contains_key(arc) && self.arcs[arc].face is Some,
        ensures
            edited.faces_consistent(),
    {
        reveal(Topology::faces_consistent);
        assert forall|face: FaceKey| #[trigger] edited.faces.contains_key(face) implies exists|
            ring: Seq<ArcKey>,
        | edited.is_face_ring(face, ring) by {
            let ring = self.ring_of(face);
            assert forall|i: int| 0 <= i < ring.len() implies #[trigger] edited.ring_step(
                ring,
                i,
            ) by {
                assert(self.ring_step(ring, i));
            }
            assert forall|i: int| 0 <= i < ring.len() implies (#[trigger] edited.arcs[ring[i]]).face
                == Some(face) by {
                assert(self.ring_step(ring, i));
            }
            assert(edited.is_face_ring(face, ring));
        }
    }

    /// The graph with one more vertex, which has no arcs.
    pub open spec fn with_vertex(self, vertex: VertexKey) -> Topology {
        Topology { vertices: self.vertices.insert(vertex, None), ..self }
    }

    /// A new vertex leaves a consistent graph consistent.
    pub proof fn lemma_with_vertex(self, vertex: VertexKey)
        requires
            self.consistent(),
            !self.vertices.contains_key(vertex),
        ensures
            self.with_vertex(vertex).consistent(),
    {
        let edited = self.with_vertex(vertex);
        assert forall|arc: ArcKey| edited.arcs.contains_key(arc) implies #[trigger]
            edited.arc_consistent(arc) by {
            assert(self.arc_consistent(arc));
        }
        assert(edited.leaders_consistent()) by {
            reveal(Topology::leaders_consistent);
        }
        self.lemma_rings_kept(edited);
    }

    /// The links of an arc of an edge that stands alone: the ring of the arc
    /// is the arc and its opposite.
    pub open spec fn lone_links(arc: ArcKey) -> ArcLinks {
        ArcLinks {
            next: Some(arc.opposite()),
            previous: Some(arc.opposite()),
            edge: Some(arc.spec_edge()),
            face: None,
        }
    }

    /// The leading arc of a vertex once `arc` leaves it: the one it had, or
    /// `arc` if it had none.
    pub open spec fn leader_or(self, arc: ArcKey) -> Option<ArcKey> {
        if self.vertices[arc.0] is Some {
            self.vertices[arc.0]
        } else {
            Some(arc)
        }
    }

    /// The graph with one more edge between two of its vertices. The two new
    /// arcs are boundary arcs and form a ring of their own.
    pub open spec fn with_edge(self, arc: ArcKey) -> Topology {
        let opposite = arc.opposite();
        Topology {
            vertices: self.vertices.insert(arc.0, self.leader_or(arc)).insert(
                arc.1,
                self.leader_or(opposite),
            ),
            arcs: self.arcs.insert(arc, Self::lone_links(arc)).insert(
                opposite,
                Self::lone_links(opposite),
            ),
            edges: self.edges.insert(arc.spec_edge(), arc),
            faces: self.faces,
        }
    }

    /// An arc is in the graph exactly if its opposite is.
    pub proof fn lemma_opposite(self, arc: ArcKey)
        requires
            self.arcs_consistent(),
        ensures
            self.arcs.contains_key(arc) == self.arcs.contains_key(arc.opposite()),
    {
        if self.arcs.contains_key(arc) {
            self.lemma_arc(arc);
        }
        if self.arcs.contains_key(arc.opposite()) {
            self.lemma_arc(arc.opposite());
        }
    }

    /// An edge is in the graph exactly if its arcs are.
    pub proof fn lemma_edge_of_arc(self, arc: ArcKey)
        requires
            self.arcs_consistent(),
            self.leaders_consistent(),
        ensures
            self.arcs.contains_key(arc) == self.edges.contains_key(arc.spec_edge()),
    {
        let edge = arc.spec_edge();
        if self.arcs.contains_key(arc) {
            self.lemma_arc(arc);
        }
        if self.edges.contains_key(edge) {
            self.lemma_edge(edge);
            self.lemma_opposite(arc);
        }
    }

    /// A new edge between two vertices leaves a consistent graph consistent.
    pub proof fn lemma_with_edge(self, arc: ArcKey)
        requires
            self.consistent(),
            arc.0 != arc.1,
            self.vertices.contains_key(arc.0),
            self.vertices.contains_key(arc.1),
            !self.arcs.contains_key(arc),
        ensures
            self.with_edge(arc).consistent(),
    {
        let edited = self.with_edge(arc);
        let opposite = arc.opposite();
        self.lemma_opposite(arc);
        assert forall|other: ArcKey| edited.arcs.contains_key(other) implies #[trigger]
            edited.arc_consistent(other) by {
            if other != arc && other != opposite {
                assert(self.arc_consistent(other));
            }
        }
        assert(edited.leaders_consistent()) by {
            reveal(Topology::leaders_consistent);
            assert forall|vertex: VertexKey| #[trigger]
                edited.vertices.contains_key(vertex) implies (edited.vertices[vertex] matches Some(
                leader,
            ) ==> edited.arcs.contains_key(leader) && leader.0 == vertex) by {
            }
        }
        self.lemma_rings_kept(edited);
    }

    /// The graph in which two boundary arcs that enter the same vertex have
    /// exchanged the arcs that follow them.
    pub open spec fn spliced(self, first: ArcKey, second: ArcKey) -> Topology {
        let after_first = self.next(first);
        let after_second = self.next(second);
        Topology {
            arcs: self.arcs.insert(
                first,
                ArcLinks { next: Some(after_second), ..self.arcs[first] },
            ).insert(second, ArcLinks { next: Some(after_first), ..self.arcs[second] }).insert(
                after_first,
                ArcLinks { previous: Some(second), ..self.arcs[after_first] },
            ).insert(after_second, ArcLinks { previous: Some(first), ..self.arcs[after_second] }),
            ..self
        }
    }

    /// Exchanging what follows two boundary arcs that enter the same vertex
    /// leaves a consistent graph consistent.
    pub proof fn lemma_spliced(self, first: ArcKey, second: ArcKey)
        requires
            self.consistent(),
            self.arcs.contains_key(first),
            self.arcs.contains_key(second),
            first != second,
            first.1 == second.1,
            self.is_boundary(first),
            self.is_boundary(second),
        ensures
            self.spliced(first, second).consistent(),
    {
        let edited = self.spliced(first, second);
        assert(self.arc_consistent(first));
        assert(self.arc_consistent(second));
        assert forall|arc: ArcKey| edited.arcs.contains_key(arc) implies #[trigger]
            edited.arc_consistent(arc) by {
            assert(self.arc_consistent(arc));
        }
        assert(edited.leaders_consistent()) by {
            reveal(Topology::leaders_consistent);
        }
        self.lemma_rings_kept(edited);
    }

    /// The graph in which the arcs of a ring refer to a new face that leads
    /// with the first of them.
    pub open spec fn with_face(self, face: FaceKey, ring: Seq<ArcKey>) -> Topology {
        Topology {
            arcs: Map::new(
                |arc: ArcKey| self.arcs.contains_key(arc),
                |arc: ArcKey|
                    if ring.contains(arc) {
                        ArcLinks { face: Some(face), ..self.arcs[arc] }
                    } else {
                        self.arcs[arc]
                    },
            ),
            faces: self.faces.insert(face, ring[0]),
            ..self
        }
    }

    /// In a ring, each arc is preceded by the arc before it.
    pub proof fn lemma_ring_previous(self, ring: Seq<ArcKey>, i: int)
        requires
            self.arcs_consistent(),
            self.is_ring(ring),
            0 <= i < ring.len(),
        ensures
            self.arcs.contains_key(ring[i]),
            self.arcs[ring[i]].previous == Some(ring[before(i, ring.len())]),
    {
        let j = before(i, ring.len());
        assert(self.ring_step(ring, j));
        assert(self.arc_consistent(ring[j]));
    }

    /// A face over a ring of at least three boundary arcs leaves a consistent
    /// graph consistent, and the ring is the ring of the face.
    pub proof fn lemma_with_face(self, face: FaceKey, ring: Seq<ArcKey>)
        requires
            self.consistent(),
            !self.faces.contains_key(face),
            self.is_ring(ring),
            ring.len() >= 3,
            forall|i: int| 0 <= i < ring.len() ==> self.is_boundary(#[trigger] ring[i]),
            forall|i: int| 0 <= i < ring.len() ==> !ring.contains((#[trigger] ring[i]).opposite()),
        ensures
            self.with_face(face, ring).consistent(),
            self.with_face(face, ring).is_face_ring(face, ring),
    {
        let edited = self.with_face(face, ring);
        assert(edited.arcs.dom() =~= self.arcs.dom());
        assert forall|arc: ArcKey| edited.arcs.contains_key(arc) implies #[trigger]
            edited.arc_consistent(arc) by {
            assert(self.arc_consistent(arc));
            let next = self.next(arc);
            assert(self.arc_consistent(arc.opposite()));
            if ring.contains(arc) {
                let i = choose|i: int| 0 <= i < ring.len() && ring[i] == arc;
                assert(self.ring_step(ring, i));
            } else if ring.contains(next) {
                let j = choose|j: int| 0 <= j < ring.len() && ring[j] == next;
                self.lemma_ring_previous(ring, j);
            }
        }
        assert(edited.leaders_consistent()) by {
            reveal(Topology::leaders_consistent);
        }
        assert forall|i: int| 0 <= i < ring.len() implies #[trigger] edited.ring_step(ring, i) by {
            assert(self.ring_step(ring, i));
        }
        assert forall|i: int| 0 <= i < ring.len() implies (#[trigger] edited.arcs[ring[i]]).face
            == Some(face) by {
            assert(self.ring_step(ring, i));
        }
        assert forall|arc: ArcKey|
            edited.arcs.contains_key(arc) && (#[trigger] edited.arcs[arc]).face == Some(
                face,
            ) implies ring.contains(arc) by {
            assert(self.arc_consistent(arc));
        }
        assert(edited.is_face_ring(face, ring));
        assert(edited.faces_consistent()) by {
            reveal(Topology::faces_consistent);
            assert forall|other: FaceKey| #[trigger] edited.faces.contains_key(other) implies exists|
                kept: Seq<ArcKey>,
            | edited.is_face_ring(other, kept) by {
                if other != face {
                    let kept = self.ring_of(other);
                    assert forall|i: int| 0 <= i < kept.len() implies #[trigger] edited.ring_step(
                        kept,
                        i,
                    ) by {
                        assert(self.ring_step(kept, i));
                    }
                    assert forall|i: int| 0 <= i < kept.len() implies (
                    #[trigger] edited.arcs[kept[i]]).face == Some(other) by {
                        assert(self.ring_step(kept, i));
                    }
                    assert(edited.is_face_ring(other, kept));
                }
            }
        }
    }

    /// The graph without a face: the arcs of its ring become boundary arcs.
    pub open spec fn without_face(self, face: FaceKey) -> Topology {
        Topology {
            arcs: Map::new(
                |arc: ArcKey| self.arcs.contains_key(arc),
                |arc: ArcKey|
                    if self.arcs[arc].face == Some(face) {
                        ArcLinks { face: None, ..self.arcs[arc] }
                    } else {
                        self.arcs[arc]
                    },
            ),
            faces: self.faces.remove(face),
            ..self
        }
    }

    /// Removing a face leaves a consistent graph consistent.
    pub proof fn lemma_without_face(self, face: FaceKey)
        requires
            self.consistent(),
        ensures
            self.without_face(face).consistent(),
    {
        let edited = self.without_face(face);
        assert(edited.arcs.dom() =~= self.arcs.dom());
        assert forall|arc: ArcKey| edited.arcs.contains_key(arc) implies #[trigger]
            edited.arc_consistent(arc) by {
            assert(self.arc_consistent(arc));
        }
        assert(edited.leaders_consistent()) by {
            reveal(Topology::leaders_consistent);
        }
        assert(edited.faces_consistent()) by {
            reveal(Topology::faces_consistent);
            assert forall|other: FaceKey| #[trigger] edited.faces.contains_key(other) implies exists|
                kept: Seq<ArcKey>,
            | edited.is_face_ring(other, kept) by {
                let kept = self.ring_of(other);
                assert forall|i: int| 0 <= i < kept.len() implies #[trigger] edited.ring_step(
                    kept,
                    i,
                ) by {
                    assert(self.ring_step(kept, i));
                }
                assert forall|i: int| 0 <= i < kept.len() implies (
                #[trigger] edited.arcs[kept[i]]).face == Some(other) by {
                    assert(self.ring_step(kept, i));
                }
                assert(edited.is_face_ring(other, kept));
            }
        }
    }

    /// Removing a face keeps the other faces, each with its ring, and takes
    /// the face from the arcs of its ring only.
    pub proof fn lemma_without_face_keeps(self, face: FaceKey)
        requires
            self.consistent(),
        ensures
            forall|other: FaceKey, ring: Seq<ArcKey>|
                other != face && #[trigger] self.is_face_ring(other, ring) ==> self.without_face(
                    face,
                ).is_face_ring(other, ring),
    {
        let edited = self.without_face(face);
        assert forall|other: FaceKey, kept: Seq<ArcKey>|
            other != face && #[trigger] self.is_face_ring(other, kept) implies edited.is_face_ring(
            other,
            kept,
        ) by {
            assert forall|i: int| 0 <= i < kept.len() implies #[trigger] edited.ring_step(kept, i) by {
                assert(self.ring_step(kept, i));
            }
            assert forall|i: int| 0 <= i < kept.len() implies (#[trigger] edited.arcs[kept[i]]).face
                == Some(other) by {
                assert(self.ring_step(kept, i));
            }
        }
    }

    /// The vertices once the vertex `vertex` has lost an arc: it leads with
    /// `leader`, or is gone if it has no arc left.
    pub open spec fn vertices_led(
        vertices: Map<VertexKey, Option<ArcKey>>,
        vertex: VertexKey,
        leader: Option<ArcKey>,
    ) -> Map<VertexKey, Option<ArcKey>> {
        if leader is Some {
            vertices.insert(vertex, leader)
        } else {
            vertices.remove(vertex)
        }
    }

    /// `leader` can lead `vertex` once `arc` is gone: it is another arc that
    /// leaves the vertex, or nothing if `arc` is the only one.
    pub open spec fn leads_without(self, vertex: VertexKey, arc: ArcKey, leader: Option<ArcKey>) -> bool {
        match leader {
            Some(leader) => self.arcs.contains_key(leader) && leader.0 == vertex && leader != arc,
            None => forall|other: ArcKey| #[trigger]
                self.arcs.contains_key(other) && other.0 == vertex ==> other == arc,
        }
    }

    /// The graph without an edge that stands alone. Each end of the edge
    /// leads with the arc given for it, or is removed with the edge.
    pub open spec fn without_edge(
        self,
        arc: ArcKey,
        source_leader: Option<ArcKey>,
        destination_leader: Option<ArcKey>,
    ) -> Topology {
        Topology {
            vertices: Self::vertices_led(
                Self::vertices_led(self.vertices, arc.0, source_leader),
                arc.1,
                destination_leader,
            ),
            arcs: self.arcs.remove(arc).remove(arc.opposite()),
            edges: self.edges.remove(arc.spec_edge()),
            faces: self.faces,
        }
    }

    /// Removing an edge whose two arcs are boundary arcs and follow each other
    /// leaves a consistent graph consistent.
    pub proof fn lemma_without_edge(
        self,
        arc: ArcKey,
        source_leader: Option<ArcKey>,
        destination_leader: Option<ArcKey>,
    )
        requires
            self.consistent(),
            self.arcs.contains_key(arc),
            self.next(arc) == arc.opposite(),
            self.next(arc.opposite()) == arc,
            self.is_boundary(arc),
            self.is_boundary(arc.opposite()),
            self.leads_without(arc.0, arc, source_leader),
            self.leads_without(arc.1, arc.opposite(), destination_leader),
        ensures
            self.without_edge(arc, source_leader, destination_leader).consistent(),
    {
        let edited = self.without_edge(arc, source_leader, destination_leader);
        let opposite = arc.opposite();
        assert(self.arc_consistent(arc));
        assert(self.arc_consistent(opposite));
        assert forall|other: ArcKey| edited.arcs.contains_key(other) implies #[trigger]
            edited.arc_consistent(other) by {
            assert(self.arc_consistent(other));
        }
        assert(edited.leaders_consistent()) by {
            reveal(Topology::leaders_consistent);
            assert forall|edge: EdgeKey| #[trigger]
                edited.edges.contains_key(edge) implies edited.arcs.contains_key(
                edited.edges[edge],
            ) && edited.edges[edge].spec_edge() == edge by {
            }
        }
        self.lemma_rings_kept(edited);
    }

    /// What a reference to the arc that follows becomes when `arc` is split
    /// at `middle`: a split arc is entered by its first half.
    pub open spec fn entering(arc: ArcKey, middle: VertexKey, target: ArcKey) -> ArcKey {
        if target == arc {
            ArcKey(arc.0, middle)
        } else if target == arc.opposite() {
            ArcKey(arc.1, middle)
        } else {
            target
        }
    }

    /// What a reference to the arc that precedes becomes when `arc` is split
    /// at `middle`: a split arc is left by its second half.
    pub open spec fn leaving(arc: ArcKey, middle: VertexKey, target: ArcKey) -> ArcKey {
        if target == arc {
            ArcKey(middle, arc.1)
        } else if target == arc.opposite() {
            ArcKey(middle, arc.0)
        } else {
            target
        }
    }

    /// The links of a half of a split arc.
    pub open spec fn half_links(
        self,
        arc: ArcKey,
        middle: VertexKey,
        whole: ArcKey,
        half: ArcKey,
    ) -> ArcLinks {
        ArcLinks {
            next: Some(
                if half.1 == middle {
                    ArcKey(middle, whole.1)
                } else {
                    Self::entering(arc, middle, self.next(whole))
                },
            ),
            previous: Some(
                if half.0 == middle {
                    ArcKey(whole.0, middle)
                } else {
                    Self::leaving(arc, middle, self.previous(whole))
                },
            ),
            edge: Some(half.spec_edge()),
            face: self.arcs[whole].face,
        }
    }

    /// The graph in which the edge of `arc` is split in two at a new vertex.
    /// Each of the two arcs becomes two arcs in the same ring and face.
    pub open spec fn split(self, arc: ArcKey, middle: VertexKey) -> Topology {
        let opposite = arc.opposite();
        let am = ArcKey(arc.0, middle);
        let mb = ArcKey(middle, arc.1);
        let bm = ArcKey(arc.1, middle);
        let ma = ArcKey(middle, arc.0);
        Topology {
            vertices: Map::new(
                |vertex: VertexKey| vertex == middle || self.vertices.contains_key(vertex),
                |vertex: VertexKey|
                    if vertex == middle {
                        Some(mb)
                    } else {
                        match self.vertices[vertex] {
                            Some(leader) => Some(Self::entering(arc, middle, leader)),
                            None => None,
                        }
                    },
            ),
            arcs: Map::new(
                |other: ArcKey|
                    other == am || other == mb || other == bm || other == ma || (
                    self.arcs.contains_key(other) && other != arc && other != opposite),
                |other: ArcKey|
                    if other == am || other == mb {
                        self.half_links(arc, middle, arc, other)
                    } else if other == bm || other == ma {
                        self.half_links(arc, middle, opposite, other)
                    } else {
                        ArcLinks {
                            next: Some(Self::entering(arc, middle, self.next(other))),
                            previous: Some(Self::leaving(arc, middle, self.previous(other))),
                            ..self.arcs[other]
                        }
                    },
            ),
            edges: self.edges.remove(arc.spec_edge()).insert(am.spec_edge(), am).insert(
                mb.spec_edge(),
                mb,
            ),
            faces: Map::new(
                |face: FaceKey| self.faces.contains_key(face),
                |face: FaceKey| Self::entering(arc, middle, self.faces[face]),
            ),
        }
    }

    /// The ring in which the arc at `at` gives way to two arcs.
    pub open spec fn ring_split(ring: Seq<ArcKey>, at: int, first: ArcKey, second: ArcKey) -> Seq<
        ArcKey,
    > {
        ring.subrange(0, at) + seq![first, second] + ring.subrange(at + 1, ring.len() as int)
    }

    /// The arc at `i` of a ring is in the graph and is followed by the arc after
    /// it, or by `first` where that arc is the one at `at`.
    pub open spec fn split_step(self, ring: Seq<ArcKey>, at: int, first: ArcKey, i: int) -> bool {
        &&& self.arcs.contains_key(ring[i])
        &&& self.arcs[ring[i]].next == Some(
            if after(i, ring.len()) == at {
                first
            } else {
                ring[after(i, ring.len())]
            },
        )
    }

    /// A ring stays a ring when one of its arcs is split in two.
    pub proof fn lemma_ring_split(
        self,
        edited: Topology,
        ring: Seq<ArcKey>,
        at: int,
        first: ArcKey,
        second: ArcKey,
    )
        requires
            self.is_ring(ring),
            ring.len() >= 2,
            0 <= at < ring.len(),
            first != second,
            !ring.contains(first),
            !ring.contains(second),
            edited.arcs.contains_key(first),
            edited.arcs.contains_key(second),
            edited.arcs[first].next == Some(second),
            edited.arcs[second].next == Some(ring[after(at, ring.len())]),
            forall|i: int|
                0 <= i < ring.len() && i != at ==> #[trigger] edited.split_step(ring, at, first, i),
        ensures
            edited.is_ring(Self::ring_split(ring, at, first, second)),
            Self::ring_split(ring, at, first, second).len() == ring.len() + 1,
            forall|other: ArcKey|
                Self::ring_split(ring, at, first, second).contains(other) <==> (other == first
                    || other == second || (ring.contains(other) && other != ring[at])),
    {
        let split = Self::ring_split(ring, at, first, second);
        let len = ring.len();
        assert forall|i: int| 0 <= i < split.len() implies #[trigger] edited.ring_step(split, i) by {
            if i < at {
                assert(edited.split_step(ring, at, first, i));
            } else if i > at + 1 {
                assert(edited.split_step(ring, at, first, i - 1));
            }
        }
        assert forall|other: ArcKey|
            split.contains(other) <==> (other == first || other == second || (ring.contains(other)
                && other != ring[at])) by {
            if split.contains(other) {
                let i = choose|i: int| 0 <= i < split.len() && split[i] == other;
                assert(i == at || i == at + 1 || ring.contains(other));
            }
            if other == first {
                assert(split[at] == first);
            }
            if other == second {
                assert(split[at + 1] == second);
            }
            if ring.contains(other) && other != ring[at] {
                let i = choose|i: int| 0 <= i < ring.len() && ring[i] == other;
                if i < at {
                    assert(split[i] == other);
                } else {
                    assert(split[i + 1] == other);
                }
            }
        }
    }

    /// No arc of a consistent graph touches a vertex that is not in it.
    pub proof fn lemma_arc_ends(self, arc: ArcKey)
        requires
            self.arcs_consistent(),
            self.arcs.contains_key(arc),
        ensures
            self.vertices.contains_key(arc.0),
            self.vertices.contains_key(arc.1),
    {
        assert(self.arc_consistent(arc));
        assert(self.arc_consistent(arc.opposite()));
    }

    proof fn lemma_split_arcs(self, arc: ArcKey, middle: VertexKey)
        requires
            self.consistent(),
            self.arcs.contains_key(arc),
            !self.vertices.contains_key(middle),
        ensures
            self.split(arc, middle).arcs_consistent(),
    {
        let edited = self.split(arc, middle);
        let opposite = arc.opposite();
        assert(self.arc_consistent(arc));
        assert(self.arc_consistent(opposite));
        self.lemma_arc_ends(self.next(arc));
        self.lemma_arc_ends(self.previous(arc));
        self.lemma_arc_ends(self.next(opposite));
        self.lemma_arc_ends(self.previous(opposite));
        assert forall|other: ArcKey| edited.arcs.contains_key(other) implies #[trigger]
            edited.arc_consistent(other) by {
            if other.0 != middle && other.1 != middle {
                assert(self.arc_consistent(other));
                self.lemma_arc_ends(self.next(other));
                self.lemma_arc_ends(self.previous(other));
            } else if self.arcs.contains_key(other) {
                self.lemma_arc_ends(other);
            }
        }
    }

    proof fn lemma_split_leaders(self, arc: ArcKey, middle: VertexKey)
        requires
            self.consistent(),
            self.arcs.contains_key(arc),
            !self.vertices.contains_key(middle),
        ensures
            self.split(arc, middle).leaders_consistent(),
    {
        let edited = self.split(arc, middle);
        reveal(Topology::leaders_consistent);
        assert forall|vertex: VertexKey| #[trigger]
            edited.vertices.contains_key(vertex) implies (edited.vertices[vertex] matches Some(
            leader,
        ) ==> edited.arcs.contains_key(leader) && leader.0 == vertex) by {
        }
        assert forall|edge: EdgeKey| #[trigger]
            edited.edges.contains_key(edge) implies edited.arcs.contains_key(edited.edges[edge])
            && edited.edges[edge].spec_edge() == edge by {
        }
    }

    /// The ring of a face once `arc` is split at `middle`.
    pub open spec fn ring_after_split(ring: Seq<ArcKey>, arc: ArcKey, middle: VertexKey) -> Seq<
        ArcKey,
    > {
        if ring.contains(arc) {
            Self::ring_split(
                ring,
                ring.index_of(arc),
                ArcKey(arc.0, middle),
                ArcKey(middle, arc.1),
            )
        } else if ring.contains(arc.opposite()) {
            Self::ring_split(
                ring,
                ring.index_of(arc.opposite()),
                ArcKey(arc.1, middle),
                ArcKey(middle, arc.0),
            )
        } else {
            ring
        }
    }

    /// Splitting an arc keeps the ring of each face, but for the two halves
    /// that take the place of the arc.
    pub proof fn lemma_split_ring(self, arc: ArcKey, middle: VertexKey, face: FaceKey)
        requires
            self.consistent(),
            self.arcs.contains_key(arc),
            !self.vertices.contains_key(middle),
            self.faces.contains_key(face),
        ensures
            self.split(arc, middle).is_face_ring(
                face,
                Self::ring_after_split(self.ring_of(face), arc, middle),
            ),
    {
        let edited = self.split(arc, middle);
        let opposite = arc.opposite();
        let ring = self.ring_of(face);
        let len = ring.len();
        self.lemma_face(face);
        assert(self.arc_consistent(arc));
        assert forall|i: int| 0 <= i < len implies {
            &&& self.arcs.contains_key(#[trigger] ring[i])
            &&& self.arcs[ring[i]].face == Some(face)
            &&& ring[i].0 != middle
            &&& ring[i].1 != middle
        } by {
            assert(self.ring_step(ring, i));
            self.lemma_arc_ends(ring[i]);
        }
        if ring.contains(arc) || ring.contains(opposite) {
            let whole = if ring.contains(arc) { arc } else { opposite };
            let first = ArcKey(whole.0, middle);
            let second = ArcKey(middle, whole.1);
            let at = ring.index_of(whole);
            assert(!ring.contains(first)) by {
                if ring.contains(first) {
                    let j = ring.index_of(first);
                }
            }
            assert(!ring.contains(second)) by {
                if ring.contains(second) {
                    let j = ring.index_of(second);
                }
            }
            assert(self.ring_step(ring, at));
            assert forall|i: int| 0 <= i < len && i != at implies #[trigger] edited.split_step(
                ring,
                at,
                first,
                i,
            ) by {
                assert(self.ring_step(ring, i));
            }
            self.lemma_ring_split(edited, ring, at, first, second);
        } else {
            assert forall|i: int| 0 <= i < len implies #[trigger] edited.ring_step(ring, i) by {
                assert(self.ring_step(ring, i));
            }
        }
    }

    /// Splitting an edge at a new vertex leaves a consistent graph
    /// consistent.
    pub proof fn lemma_split(self, arc: ArcKey, middle: VertexKey)
        requires
            self.consistent(),
            self.arcs.contains_key(arc),
            !self.vertices.contains_key(middle),
        ensures
            self.split(arc, middle).consistent(),
    {
        let edited = self.split(arc, middle);
        self.lemma_split_arcs(arc, middle);
        self.lemma_split_leaders(arc, middle);
        assert(edited.faces_consistent()) by {
            reveal(Topology::faces_consistent);
            assert forall|face: FaceKey| #[trigger] edited.faces.contains_key(face) implies exists|
                ring: Seq<ArcKey>,
            | edited.is_face_ring(face, ring) by {
                self.lemma_split_ring(arc, middle, face);
            }
        }
        assert(edited.vertices.dom() =~= self.vertices.dom().insert(middle));
        assert(edited.arcs.dom() =~= self.arcs.dom().remove(arc).remove(arc.opposite()).insert(
            ArcKey(arc.0, middle),
        ).insert(ArcKey(middle, arc.1)).insert(ArcKey(arc.1, middle)).insert(
            ArcKey(middle, arc.0),
        ));
        assert(edited.faces.dom() =~= self.faces.dom());
    }

    /// Splitting an edge adds one vertex, two arcs and one edge.
    pub proof fn lemma_split_counts(self, arc: ArcKey, middle: VertexKey)
        requires
            self.consistent(),
            self.arcs.contains_key(arc),
            !self.vertices.contains_key(middle),
        ensures
            self.split(arc, middle).vertices.dom().len() == self.vertices.dom().len() + 1,
            self.split(arc, middle).arcs.dom().len() == self.arcs.dom().len() + 2,
            self.split(arc, middle).edges.dom().len() == self.edges.dom().len() + 1,
    {
        let edited = self.split(arc, middle);
        let opposite = arc.opposite();
        let am = ArcKey(arc.0, middle);
        let mb = ArcKey(middle, arc.1);
        let bm = ArcKey(arc.1, middle);
        let ma = ArcKey(middle, arc.0);
        assert(self.arc_consistent(arc));
        self.lemma_arc_ends(arc);
        assert(edited.vertices.dom() =~= self.vertices.dom().insert(middle));
        let kept = self.arcs.dom().remove(arc).remove(opposite);
        assert(edited.arcs.dom() =~= kept.insert(am).insert(mb).insert(bm).insert(ma));
        assert(!kept.contains(am) && !kept.contains(mb) && !kept.contains(bm) && !kept.contains(
            ma,
        )) by {
            if self.arcs.contains_key(am) {
                self.lemma_arc_ends(am);
            }
            if self.arcs.contains_key(mb) {
                self.lemma_arc_ends(mb);
            }
            if self.arcs.contains_key(bm) {
                self.lemma_arc_ends(bm);
            }
            if self.arcs.contains_key(ma) {
                self.lemma_arc_ends(ma);
            }
        }
        let rest = self.edges.dom().remove(arc.spec_edge());
        assert(!rest.contains(am.spec_edge()) && !rest.contains(mb.spec_edge())) by {
            self.lemma_edge_of_arc(am);
            self.lemma_edge_of_arc(mb);
        }
    }

    /// The step from an arc to the arc that follows it in its ring.
    pub open spec fn follow(self) -> spec_fn(ArcKey) -> ArcKey {
        |arc: ArcKey| self.next(arc)
    }

    /// The step from an arc that leaves a vertex to the next arc that leaves
    /// the same vertex: the arc that follows its opposite.
    pub open spec fn turn(self) -> spec_fn(ArcKey) -> ArcKey {
        |arc: ArcKey| self.next(arc.opposite())
    }

    /// The first `len` arcs of the walk from `arc` along next arcs.
    pub open spec fn ring_from(self, arc: ArcKey, len: nat) -> Seq<ArcKey> {
        Seq::new(len, |i: int| iterate(self.follow(), arc, i as nat))
    }

    /// The first `len` arcs of the walk from `arc` around its source vertex.
    pub open spec fn fan_from(self, arc: ArcKey, len: nat) -> Seq<ArcKey> {
        Seq::new(len, |i: int| iterate(self.turn(), arc, i as nat))
    }

    /// Following next arcs maps the arcs of a consistent graph onto
    /// themselves one to one.
    pub proof fn lemma_follow_permutes(self)
        requires
            self.arcs_consistent(),
        ensures
            permutes(self.follow(), self.arcs.dom()),
    {
        let step = self.follow();
        assert forall|a: ArcKey| self.arcs.dom().contains(a) implies self.arcs.dom().contains(
            #[trigger] step(a),
        ) by {
            assert(self.arc_consistent(a));
        }
        assert forall|a: ArcKey, b: ArcKey|
            self.arcs.dom().contains(a) && self.arcs.dom().contains(b) && #[trigger] step(a)
                == #[trigger] step(b) implies a == b by {
            assert(self.arc_consistent(a));
            assert(self.arc_consistent(b));
        }
    }

    /// Turning around vertices maps the arcs of a consistent graph onto
    /// themselves one to one, and keeps the source of each arc.
    pub proof fn lemma_turn_permutes(self)
        requires
            self.arcs_consistent(),
        ensures
            permutes(self.turn(), self.arcs.dom()),
            forall|a: ArcKey| self.arcs.dom().contains(a) ==> (#[trigger] (self.turn())(a)).0 == a.0,
    {
        let step = self.turn();
        assert forall|a: ArcKey| self.arcs.dom().contains(a) implies self.arcs.dom().contains(
            #[trigger] step(a),
        ) && step(a).0 == a.0 by {
            assert(self.arc_consistent(a));
            assert(self.arc_consistent(a.opposite()));
        }
        assert forall|a: ArcKey, b: ArcKey|
            self.arcs.dom().contains(a) && self.arcs.dom().contains(b) && #[trigger] step(a)
                == #[trigger] step(b) implies a == b by {
            assert(self.arc_consistent(a));
            assert(self.arc_consistent(b));
            assert(self.arc_consistent(a.opposite()));
            assert(self.arc_consistent(b.opposite()));
        }
    }

    /// A ring is the walk along next arcs from its first arc, which comes
    /// back to that arc after as many steps as the ring has arcs and not
    /// before.
    pub proof fn lemma_ring_is_walk(self, ring: Seq<ArcKey>)
        requires
            self.is_ring(ring),
        ensures
            ring == self.ring_from(ring[0], ring.len()),
            is_period(self.follow(), ring[0], ring.len()),
    {
        let step = self.follow();
        let len = ring.len();
        assert forall|i: nat| i <= len implies #[trigger] iterate(step, ring[0], i) == ring[if i
            == len {
            0
        } else {
            i as int
        }] by {
            self.lemma_ring_walk_at(ring, i);
        }
    }

    proof fn lemma_ring_walk_at(self, ring: Seq<ArcKey>, i: nat)
        requires
            self.is_ring(ring),
            i <= ring.len(),
        ensures
            iterate(self.follow(), ring[0], i) == ring[if i == ring.len() {
                0
            } else {
                i as int
            }],
        decreases i,
    {
        if i > 0 {
            self.lemma_ring_walk_at(ring, (i - 1) as nat);
            assert(self.ring_step(ring, i - 1));
        }
    }

    /// A face has one ring only.
    pub proof fn lemma_ring_unique(self, face: FaceKey, ring: Seq<ArcKey>)
        requires
            self.faces_consistent(),
            self.faces.contains_key(face),
            self.is_face_ring(face, ring),
        ensures
            ring == self.ring_of(face),
    {
        let other = self.ring_of(face);
        self.lemma_ring_is_walk(ring);
        self.lemma_ring_is_walk(other);
    }

    /// The walk along next arcs from an arc of a consistent graph is a ring
    /// once it has come back to the arc for the first time.
    pub proof fn lemma_walk_is_ring(self, arc: ArcKey, len: nat)
        requires
            self.consistent(),
            self.arcs.contains_key(arc),
            is_period(self.follow(), arc, len),
        ensures
            self.is_ring(self.ring_from(arc, len)),
    {
        let step = self.follow();
        let ring = self.ring_from(arc, len);
        self.lemma_follow_permutes();
        assert forall|i: int, j: int| 0 <= i < len && 0 <= j < len && i != j implies ring[i]
            != ring[j] by {
            if ring[i] == ring[j] {
                if i < j {
                    crate::orbit::lemma_iterate_back(step, self.arcs.dom(), arc, i as nat, j as nat);
                } else {
                    crate::orbit::lemma_iterate_back(step, self.arcs.dom(), arc, j as nat, i as nat);
                }
            }
        }
        assert forall|i: int| 0 <= i < ring.len() implies #[trigger] self.ring_step(ring, i) by {
            lemma_iterate_stays(step, self.arcs.dom(), arc, i as nat);
            assert(self.arc_consistent(ring[i]));
        }
    }

    /// What consistency says of an arc: it has an opposite, its next and
    /// previous arcs are in the graph and undo each other, it and its
    /// opposite refer to the edge of their two vertices, and its source
    /// leads with an arc that leaves it.
    pub proof fn lemma_arc_invariants(self, arc: ArcKey)
        requires
            self.consistent(),
            self.arcs.contains_key(arc),
        ensures
            self.arcs.contains_key(arc.opposite()),
            self.arcs.contains_key(self.next(arc)),
            self.arcs.contains_key(self.previous(arc)),
            self.previous(self.next(arc)) == arc,
            self.next(self.previous(arc)) == arc,
            self.edges.contains_key(arc.spec_edge()),
            self.arcs[arc].edge == Some(arc.spec_edge()),
            self.arcs[arc.opposite()].edge == Some(arc.spec_edge()),
            self.vertices[arc.0] matches Some(leader) && self.arcs.contains_key(leader)
                && leader.0 == arc.0,
    {
        assert(self.arc_consistent(arc));
        assert(self.arc_consistent(arc.opposite()));
        self.lemma_vertex(arc.0);
    }

    /// What consistency says of a face: the walk along next arcs from its
    /// leading arc comes back to that arc after as many steps as the face
    /// has arcs and not before, there are three such steps at least, and
    /// every arc on the way refers to the face.
    pub proof fn lemma_face_invariants(self, face: FaceKey)
        requires
            self.consistent(),
            self.faces.contains_key(face),
        ensures
            self.ring_of(face).len() >= 3,
            is_period(self.follow(), self.faces[face], self.ring_of(face).len()),
            forall|steps: nat|
                steps < self.ring_of(face).len() ==> self.arcs[#[trigger] iterate(
                    self.follow(),
                    self.faces[face],
                    steps,
                )].face == Some(face),
    {
        let ring = self.ring_of(face);
        self.lemma_face(face);
        self.lemma_ring_is_walk(ring);
    }

    /// No arc is in the rings of two faces, and no edge has more than two
    /// faces: an arc refers to one face at most, and the face that it refers
    /// to is the one whose ring it is in.
    pub proof fn lemma_one_face(self, arc: ArcKey, face: FaceKey)
        requires
            self.consistent(),
            self.faces.contains_key(face),
            self.ring_of(face).contains(arc),
        ensures
            self.arcs.contains_key(arc),
            self.arcs[arc].face == Some(face),
            forall|other: FaceKey|
                self.faces.contains_key(other) && other != face ==> !(#[trigger] self.ring_of(
                    other,
                )).contains(arc),
    {
        let ring = self.ring_of(face);
        self.lemma_face(face);
        let i = choose|i: int| 0 <= i < ring.len() && ring[i] == arc;
        assert(self.ring_step(ring, i));
        assert forall|other: FaceKey|
            self.faces.contains_key(other) && other != face implies !(#[trigger] self.ring_of(
            other,
        )).contains(arc) by {
            let kept = self.ring_of(other);
            self.lemma_face(other);
            if kept.contains(arc) {
                let j = choose|j: int| 0 <= j < kept.len() && kept[j] == arc;
                assert(self.arcs[kept[j]].face == Some(other));
            }
        }
    }
}

} // verus!
