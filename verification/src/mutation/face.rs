//! Edits of faces: insert, remove and triangulate.

use crate::binder::Core;
use crate::key::{ArcKey, FaceKey, VertexKey};
use crate::payload::{FacePayload, GraphGeometry};
use crate::selector::GraphError;
use crate::topology::{after, before, Topology};
use vstd::pervasive::cloned;
use vstd::prelude::*;

verus! {

/// The arc from the vertex at `i` of a perimeter to the vertex after it.
pub open spec fn perimeter_arc(perimeter: Seq<VertexKey>, i: int) -> ArcKey {
    ArcKey(perimeter[i], perimeter[after(i, perimeter.len())])
}

/// The arcs along a perimeter, which make the ring of a face over it.
pub open spec fn perimeter_arcs(perimeter: Seq<VertexKey>) -> Seq<ArcKey> {
    Seq::new(perimeter.len(), |i: int| perimeter_arc(perimeter, i))
}

impl Topology {
    /// A face can be inserted over the perimeter: it has at least three
    /// vertices, all different and all in the graph, and no arc along it has
    /// a face yet.
    pub open spec fn admits_face(self, perimeter: Seq<VertexKey>) -> bool {
        &&& perimeter.len() >= 3
        &&& perimeter.no_duplicates()
        &&& forall|i: int|
            0 <= i < perimeter.len() ==> self.vertices.contains_key(#[trigger] perimeter[i])
        &&& forall|i: int|
            0 <= i < perimeter.len() && self.arcs.contains_key(
                #[trigger] perimeter_arc(perimeter, i),
            ) ==> self.is_boundary(perimeter_arc(perimeter, i))
    }

    /// The graph with an edge wherever one of the first `count` arcs along
    /// the perimeter was missing.
    pub open spec fn with_edges(self, perimeter: Seq<VertexKey>, count: nat) -> Topology
        decreases count,
    {
        if count == 0 {
            self
        } else {
            let earlier = self.with_edges(perimeter, (count - 1) as nat);
            let arc = perimeter_arc(perimeter, count - 1);
            if earlier.arcs.contains_key(arc) {
                earlier
            } else {
                earlier.with_edge(arc)
            }
        }
    }

    /// The graph in which, at each of the first `count` vertices of the
    /// perimeter, the arc along the perimeter that enters the vertex is
    /// followed by the one that leaves it. What followed the first of them
    /// now follows what preceded the second.
    pub open spec fn with_corners(self, perimeter: Seq<VertexKey>, count: nat) -> Topology
        decreases count,
    {
        if count == 0 {
            self
        } else {
            let earlier = self.with_corners(perimeter, (count - 1) as nat);
            let entering = perimeter_arc(perimeter, before(count - 1, perimeter.len()));
            let leaving = perimeter_arc(perimeter, count - 1);
            if earlier.next(entering) == leaving {
                earlier
            } else {
                earlier.spliced(entering, earlier.previous(leaving))
            }
        }
    }

    /// The graph with a face over a perimeter: the missing edges along the
    /// perimeter are inserted, the arcs along it are joined into a ring, and
    /// the face is put over that ring.
    pub open spec fn with_face_around(self, face: FaceKey, perimeter: Seq<VertexKey>) -> Topology {
        self.with_edges(perimeter, perimeter.len()).with_corners(
            perimeter,
            perimeter.len(),
        ).with_face(face, perimeter_arcs(perimeter))
    }

    /// What inserting the edges along a perimeter keeps and brings about.
    pub proof fn lemma_with_edges(self, perimeter: Seq<VertexKey>, count: nat)
        requires
            self.consistent(),
            self.admits_face(perimeter),
            count <= perimeter.len(),
        ensures
            self.with_edges(perimeter, count).consistent(),
            self.with_edges(perimeter, count).admits_face(perimeter),
            self.with_edges(perimeter, count).vertices.dom() == self.vertices.dom(),
            self.with_edges(perimeter, count).faces == self.faces,
            forall|i: int|
                0 <= i < count ==> self.with_edges(perimeter, count).arcs.contains_key(
                    #[trigger] perimeter_arc(perimeter, i),
                ),
            forall|arc: ArcKey| #[trigger]
                self.arcs.contains_key(arc) ==> self.with_edges(perimeter, count).arcs.contains_key(
                    arc,
                ) && self.with_edges(perimeter, count).arcs[arc] == self.arcs[arc],
            forall|arc: ArcKey| #[trigger]
                self.with_edges(perimeter, count).arcs.contains_key(arc) && !self.arcs.contains_key(
                    arc,
                ) ==> self.with_edges(perimeter, count).is_boundary(arc) && exists|i: int|
                    0 <= i < count && (arc == perimeter_arc(perimeter, i) || arc == perimeter_arc(
                        perimeter,
                        i,
                    ).opposite()),
        decreases count,
    {
        if count > 0 {
            let earlier = self.with_edges(perimeter, (count - 1) as nat);
            self.lemma_with_edges(perimeter, (count - 1) as nat);
            let arc = perimeter_arc(perimeter, count - 1);
            let edited = self.with_edges(perimeter, count);
            if !earlier.arcs.contains_key(arc) {
                earlier.lemma_with_edge(arc);
                earlier.lemma_opposite(arc);
                assert forall|other: ArcKey| #[trigger]
                    edited.arcs.contains_key(other) && !self.arcs.contains_key(
                        other,
                    ) implies edited.is_boundary(other) && exists|i: int|
                    0 <= i < count && (other == perimeter_arc(perimeter, i) || other
                        == perimeter_arc(perimeter, i).opposite()) by {
                    if other != arc && other != arc.opposite() {
                        assert(earlier.arcs.contains_key(other));
                    }
                }
            }
        }
    }

    /// The number of the first `count` sides of a perimeter along which the
    /// graph has no arc.
    pub open spec fn missing_sides(self, perimeter: Seq<VertexKey>, count: nat) -> nat
        decreases count,
    {
        if count == 0 {
            0
        } else {
            self.missing_sides(perimeter, (count - 1) as nat) + if self.arcs.contains_key(
                perimeter_arc(perimeter, count - 1),
            ) {
                0nat
            } else {
                1nat
            }
        }
    }

    /// The edges along a perimeter that are inserted are those of the sides
    /// along which the graph had no arc: one edge and two arcs for each.
    pub proof fn lemma_with_edges_counts(self, perimeter: Seq<VertexKey>, count: nat)
        requires
            self.consistent(),
            self.admits_face(perimeter),
            count <= perimeter.len(),
        ensures
            self.with_edges(perimeter, count).arcs.dom().len() == self.arcs.dom().len() + 2
                * self.missing_sides(perimeter, count),
            self.with_edges(perimeter, count).edges.dom().len() == self.edges.dom().len()
                + self.missing_sides(perimeter, count),
        decreases count,
    {
        if count > 0 {
            let earlier = self.with_edges(perimeter, (count - 1) as nat);
            self.lemma_with_edges(perimeter, (count - 1) as nat);
            self.lemma_with_edges_counts(perimeter, (count - 1) as nat);
            let len = perimeter.len();
            let arc = perimeter_arc(perimeter, count - 1);
            let edited = self.with_edges(perimeter, count);
            assert(perimeter[count - 1] != perimeter[after(count - 1, len)]);
            if earlier.arcs.contains_key(arc) && !self.arcs.contains_key(arc) {
                let i = choose|i: int|
                    0 <= i < count - 1 && (arc == perimeter_arc(perimeter, i) || arc
                        == perimeter_arc(perimeter, i).opposite());
                assert(perimeter[i] != perimeter[count - 1]);
                assert(false);
            }
            if !earlier.arcs.contains_key(arc) {
                earlier.lemma_opposite(arc);
                earlier.lemma_edge_of_arc(arc);
                assert(edited.arcs.dom() =~= earlier.arcs.dom().insert(arc).insert(arc.opposite()));
                assert(edited.edges.dom() =~= earlier.edges.dom().insert(arc.spec_edge()));
            }
        }
    }

    /// A face over a perimeter brings an edge and two arcs for each side
    /// of the perimeter along which the graph had no arc, and nothing else
    /// but the face.
    pub proof fn lemma_with_face_around_counts(self, face: FaceKey, perimeter: Seq<VertexKey>)
        requires
            self.consistent(),
            self.admits_face(perimeter),
            !self.faces.contains_key(face),
        ensures
            ({
                let edited = self.with_face_around(face, perimeter);
                let missing = self.missing_sides(perimeter, perimeter.len());
                &&& edited.vertices.dom() == self.vertices.dom()
                &&& edited.arcs.dom().len() == self.arcs.dom().len() + 2 * missing
                &&& edited.edges.dom().len() == self.edges.dom().len() + missing
                &&& edited.faces.dom() == self.faces.dom().insert(face)
                &&& edited.faces.dom().len() == self.faces.dom().len() + 1
            }),
    {
        let len = perimeter.len();
        let edged = self.with_edges(perimeter, len);
        self.lemma_with_edges(perimeter, len);
        self.lemma_with_edges_counts(perimeter, len);
        let joined = edged.with_corners(perimeter, len);
        edged.lemma_with_corners(perimeter, len);
        self.lemma_with_face_around(face, perimeter);
        let edited = self.with_face_around(face, perimeter);
        assert(edited.arcs.dom() =~= joined.arcs.dom());
        assert(edited.faces.dom() =~= self.faces.dom().insert(face));
    }

    /// Every arc along the perimeter is in the graph and is a boundary arc.
    pub open spec fn holds_perimeter(self, perimeter: Seq<VertexKey>) -> bool {
        &&& perimeter.len() >= 3
        &&& perimeter.no_duplicates()
        &&& forall|i: int|
            0 <= i < perimeter.len() ==> self.arcs.contains_key(
                #[trigger] perimeter_arc(perimeter, i),
            ) && self.is_boundary(perimeter_arc(perimeter, i))
    }

    /// At the vertex at `i` of the perimeter, the arc along the perimeter
    /// that enters the vertex is followed by the one that leaves it.
    pub open spec fn corner_joined(self, perimeter: Seq<VertexKey>, i: int) -> bool {
        self.arcs[perimeter_arc(perimeter, before(i, perimeter.len()))].next == Some(
            perimeter_arc(perimeter, i),
        )
    }

    /// What joining the corners of a perimeter keeps and brings about.
    pub proof fn lemma_with_corners(self, perimeter: Seq<VertexKey>, count: nat)
        requires
            self.consistent(),
            self.holds_perimeter(perimeter),
            count <= perimeter.len(),
        ensures
            self.with_corners(perimeter, count).consistent(),
            self.with_corners(perimeter, count).holds_perimeter(perimeter),
            self.with_corners(perimeter, count).arcs.dom() == self.arcs.dom(),
            self.with_corners(perimeter, count).vertices == self.vertices,
            self.with_corners(perimeter, count).edges == self.edges,
            self.with_corners(perimeter, count).faces == self.faces,
            forall|arc: ArcKey| #[trigger]
                self.arcs.contains_key(arc) ==> self.with_corners(perimeter, count).arcs[arc].face
                    == self.arcs[arc].face,
            forall|i: int|
                0 <= i < count ==> #[trigger] self.with_corners(perimeter, count).corner_joined(
                    perimeter,
                    i,
                ),
        decreases count,
    {
        if count > 0 {
            let earlier = self.with_corners(perimeter, (count - 1) as nat);
            self.lemma_with_corners(perimeter, (count - 1) as nat);
            let edited = self.with_corners(perimeter, count);
            let len = perimeter.len();
            let entering = perimeter_arc(perimeter, before(count - 1, len));
            let leaving = perimeter_arc(perimeter, count - 1);
            assert(earlier.arc_consistent(entering));
            assert(earlier.arc_consistent(leaving));
            if earlier.next(entering) != leaving {
                let second = earlier.previous(leaving);
                assert(earlier.arc_consistent(second));
                earlier.lemma_spliced(entering, second);
                assert forall|i: int| 0 <= i < count implies #[trigger] edited.corner_joined(
                    perimeter,
                    i,
                ) by {
                    if i < count - 1 {
                        assert(earlier.corner_joined(perimeter, i));
                        let joined = perimeter_arc(perimeter, before(i, len));
                    }
                }
            }
        }
    }

    /// Once the edges along a perimeter are there and its corners are
    /// joined, the arcs along it are a ring of boundary arcs.
    pub proof fn lemma_perimeter_ring(self, perimeter: Seq<VertexKey>)
        requires
            self.consistent(),
            self.admits_face(perimeter),
        ensures
            ({
                let joined = self.with_edges(perimeter, perimeter.len()).with_corners(
                    perimeter,
                    perimeter.len(),
                );
                let ring = perimeter_arcs(perimeter);
                &&& joined.consistent()
                &&& joined.is_ring(ring)
                &&& joined.faces == self.faces
                &&& forall|i: int| 0 <= i < ring.len() ==> joined.is_boundary(#[trigger] ring[i])
                &&& forall|i: int|
                    0 <= i < ring.len() ==> !ring.contains((#[trigger] ring[i]).opposite())
            }),
    {
        let len = perimeter.len();
        let edged = self.with_edges(perimeter, len);
        self.lemma_with_edges(perimeter, len);
        let joined = edged.with_corners(perimeter, len);
        edged.lemma_with_corners(perimeter, len);
        let ring = perimeter_arcs(perimeter);
        assert forall|i: int| 0 <= i < ring.len() implies #[trigger] joined.ring_step(ring, i) by {
            assert(joined.corner_joined(perimeter, after(i, len)));
        }
    }

    /// Inserting a face over a perimeter that admits one leaves a consistent
    /// graph consistent. The ring of the face runs along the perimeter, the
    /// vertices and the other faces stay, and every arc that was there keeps
    /// its face.
    pub proof fn lemma_with_face_around(self, face: FaceKey, perimeter: Seq<VertexKey>)
        requires
            self.consistent(),
            self.admits_face(perimeter),
            !self.faces.contains_key(face),
        ensures
            self.with_face_around(face, perimeter).consistent(),
            self.with_face_around(face, perimeter).is_face_ring(face, perimeter_arcs(perimeter)),
            self.with_face_around(face, perimeter).vertices.dom() == self.vertices.dom(),
            self.with_face_around(face, perimeter).faces == self.faces.insert(
                face,
                perimeter_arc(perimeter, 0),
            ),
            forall|arc: ArcKey| #[trigger]
                self.arcs.contains_key(arc) ==> self.with_face_around(
                    face,
                    perimeter,
                ).arcs.contains_key(arc),
            forall|arc: ArcKey| #[trigger]
                self.with_face_around(face, perimeter).arcs.contains_key(arc)
                    ==> self.arcs.contains_key(arc) || exists|i: int|
                    0 <= i < perimeter.len() && (arc == perimeter_arc(perimeter, i) || arc
                        == perimeter_arc(perimeter, i).opposite()),
    {
        let len = perimeter.len();
        let edged = self.with_edges(perimeter, len);
        self.lemma_with_edges(perimeter, len);
        let joined = edged.with_corners(perimeter, len);
        edged.lemma_with_corners(perimeter, len);
        let ring = perimeter_arcs(perimeter);
        self.lemma_perimeter_ring(perimeter);
        joined.lemma_with_face(face, ring);
    }
}

impl Topology {
    /// What inserting the edges along a perimeter and joining its corners
    /// keeps: the faces, the face of every arc, and every arc of a face as
    /// it is.
    pub proof fn lemma_perimeter_frame(self, perimeter: Seq<VertexKey>)
        requires
            self.consistent(),
            self.admits_face(perimeter),
        ensures
            ({
                let joined = self.with_edges(perimeter, perimeter.len()).with_corners(
                    perimeter,
                    perimeter.len(),
                );
                &&& forall|arc: ArcKey| #[trigger]
                    self.arcs.contains_key(arc) ==> joined.arcs.contains_key(arc)
                        && joined.arcs[arc].face == self.arcs[arc].face
                &&& forall|arc: ArcKey| #[trigger]
                    joined.arcs.contains_key(arc) && !self.arcs.contains_key(arc)
                        ==> joined.is_boundary(arc)
                &&& forall|arc: ArcKey|
                    self.arcs.contains_key(arc) && (#[trigger] self.arcs[arc]).face is Some
                        ==> joined.arcs[arc] == self.arcs[arc]
                &&& forall|i: int|
                    0 <= i < perimeter.len() ==> joined.arcs.contains_key(
                        #[trigger] perimeter_arc(perimeter, i),
                    ) && joined.arcs.contains_key(perimeter_arc(perimeter, i).opposite())
            }),
    {
        let len = perimeter.len();
        let edged = self.with_edges(perimeter, len);
        self.lemma_with_edges(perimeter, len);
        edged.lemma_with_corners(perimeter, len);
        edged.lemma_corners_keep_faces(perimeter, len);
        let joined = edged.with_corners(perimeter, len);
        assert forall|i: int| 0 <= i < perimeter.len() implies joined.arcs.contains_key(
            #[trigger] perimeter_arc(perimeter, i),
        ) && joined.arcs.contains_key(perimeter_arc(perimeter, i).opposite()) by {
            joined.lemma_opposite(perimeter_arc(perimeter, i));
        }
    }

    /// Joining the corners of a perimeter leaves every arc of a face as it
    /// is.
    pub proof fn lemma_corners_keep_faces(self, perimeter: Seq<VertexKey>, count: nat)
        requires
            self.consistent(),
            self.holds_perimeter(perimeter),
            count <= perimeter.len(),
        ensures
            forall|arc: ArcKey|
                self.arcs.contains_key(arc) && (#[trigger] self.arcs[arc]).face is Some
                    ==> self.with_corners(perimeter, count).arcs[arc] == self.arcs[arc],
        decreases count,
    {
        if count > 0 {
            let earlier = self.with_corners(perimeter, (count - 1) as nat);
            self.lemma_corners_keep_faces(perimeter, (count - 1) as nat);
            self.lemma_with_corners(perimeter, (count - 1) as nat);
            let len = perimeter.len();
            let entering = perimeter_arc(perimeter, before(count - 1, len));
            let leaving = perimeter_arc(perimeter, count - 1);
            assert(earlier.arc_consistent(entering));
            assert(earlier.arc_consistent(leaving));
            if earlier.next(entering) != leaving {
                let second = earlier.previous(leaving);
                assert(earlier.arc_consistent(second));
            }
        }
    }

    /// Inserting a face over a perimeter keeps the faces that were there,
    /// each with its ring, and gives the arcs that it inserts no face but
    /// its own.
    pub proof fn lemma_with_face_around_keeps(self, face: FaceKey, perimeter: Seq<VertexKey>)
        requires
            self.consistent(),
            self.admits_face(perimeter),
            !self.faces.contains_key(face),
        ensures
            ({
                let edited = self.with_face_around(face, perimeter);
                &&& forall|other: FaceKey, ring: Seq<ArcKey>|
                    self.faces.contains_key(other) && #[trigger] self.is_face_ring(other, ring)
                        ==> edited.is_face_ring(other, ring)
                &&& forall|arc: ArcKey| #[trigger]
                    edited.arcs.contains_key(arc) ==> edited.arcs[arc].face == (
                    if perimeter_arcs(perimeter).contains(arc) {
                        Some(face)
                    } else if self.arcs.contains_key(arc) {
                        self.arcs[arc].face
                    } else {
                        None
                    })
                &&& forall|i: int|
                    0 <= i < perimeter.len() ==> edited.arcs.contains_key(
                        #[trigger] perimeter_arc(perimeter, i),
                    ) && edited.arcs.contains_key(perimeter_arc(perimeter, i).opposite())
            }),
    {
        let len = perimeter.len();
        let ring = perimeter_arcs(perimeter);
        let edited = self.with_face_around(face, perimeter);
        self.lemma_perimeter_frame(perimeter);
        self.lemma_perimeter_ring(perimeter);
        assert forall|other: FaceKey, kept: Seq<ArcKey>|
            self.faces.contains_key(other) && #[trigger] self.is_face_ring(
                other,
                kept,
            ) implies edited.is_face_ring(other, kept) by {
            assert forall|i: int| 0 <= i < kept.len() implies {
                &&& self.arcs.contains_key(#[trigger] kept[i])
                &&& self.arcs[kept[i]].face == Some(other)
                &&& !ring.contains(kept[i])
            } by {
                assert(self.ring_step(kept, i));
                if ring.contains(kept[i]) {
                    let j = choose|j: int| 0 <= j < ring.len() && ring[j] == kept[i];
                    assert(self.arcs[ring[j]].face == Some(other));
                }
            }
            assert forall|i: int| 0 <= i < kept.len() implies #[trigger] edited.ring_step(kept, i) by {
                assert(self.ring_step(kept, i));
            }
        }
    }
}

/// Why a face cannot be inserted over a perimeter, if it cannot: the first
/// of the checks that fails.
pub open spec fn face_refusal(topology: Topology, perimeter: Seq<VertexKey>) -> Option<GraphError> {
    if perimeter.len() < 3 {
        Some(GraphError::ArityNonPolygonal)
    } else if !perimeter.no_duplicates() {
        Some(GraphError::TopologyMalformed)
    } else if exists|i: int|
        0 <= i < perimeter.len() && !topology.vertices.contains_key(#[trigger] perimeter[i]) {
        Some(GraphError::TopologyNotFound)
    } else if exists|i: int|
        0 <= i < perimeter.len() && topology.arcs.contains_key(
            #[trigger] perimeter_arc(perimeter, i),
        ) && !topology.is_boundary(perimeter_arc(perimeter, i)) {
        Some(GraphError::TopologyConflict)
    } else {
        None
    }
}

/// An edge has two faces at most: a face over a perimeter that runs along an
/// arc which has a face already is refused as a conflict, whatever else is
/// there. The perimeter is that of a face otherwise: at least three vertices
/// of the graph, all different.
pub proof fn lemma_third_face_refused(topology: Topology, perimeter: Seq<VertexKey>, i: int)
    requires
        perimeter.len() >= 3,
        perimeter.no_duplicates(),
        forall|j: int|
            0 <= j < perimeter.len() ==> topology.vertices.contains_key(#[trigger] perimeter[j]),
        0 <= i < perimeter.len(),
        topology.arcs.contains_key(perimeter_arc(perimeter, i)),
        !topology.is_boundary(perimeter_arc(perimeter, i)),
    ensures
        face_refusal(topology, perimeter) == Some(GraphError::TopologyConflict),
{
}

/// The index that follows `i` on a perimeter of `len` vertices.
pub fn index_after(i: usize, len: usize) -> (next: usize)
    requires
        i < len,
    ensures
        next == after(i as int, len as nat),
{
    if i + 1 == len {
        0
    } else {
        i + 1
    }
}

/// The index that precedes `i` on a perimeter of `len` vertices.
pub fn index_before(i: usize, len: usize) -> (previous: usize)
    requires
        i < len,
    ensures
        previous == before(i as int, len as nat),
{
    if i == 0 {
        len - 1
    } else {
        i - 1
    }
}

/// The plan of the insertion of a face: the vertices of its perimeter, in
/// order, and its geometry.
pub struct FaceInsertCache<G: GraphGeometry> {
    pub perimeter: Vec<VertexKey>,
    pub geometry: G::Face,
}

impl<G: GraphGeometry> FaceInsertCache<G> {
    /// The core admits the face of the plan.
    pub open spec fn fits(&self, core: &Core<G>) -> bool {
        core.topology().admits_face(self.perimeter@)
    }

    /// Checks that a face can be inserted over the perimeter: that it has at
    /// least three vertices, all different and all in the graph, and that no
    /// arc along it has a face.
    pub fn snapshot(core: &Core<G>, perimeter: &[VertexKey], geometry: G::Face) -> (cache: Result<
        Self,
        GraphError,
    >)
        ensures
            match cache {
                Ok(cache) => {
                    &&& face_refusal(core.topology(), perimeter@) is None
                    &&& cache.perimeter@ == perimeter@
                    &&& cache.geometry == geometry
                    &&& cache.fits(core)
                },
                Err(error) => face_refusal(core.topology(), perimeter@) == Some(error),
            },
    {
        let len = perimeter.len();
        if len < 3 {
            return Err(GraphError::ArityNonPolygonal);
        }
        let mut i: usize = 0;
        while i < len
            invariant
                len == perimeter@.len(),
                len >= 3,
                i <= len,
                forall|a: int, b: int| 0 <= a < i && a < b < len ==> perimeter@[a] != perimeter@[b],
            decreases len - i,
        {
            let mut j: usize = i + 1;
            while j < len
                invariant
                    len == perimeter@.len(),
                    len >= 3,
                    i < len,
                    i < j <= len,
                    forall|b: int| i < b < j ==> perimeter@[i as int] != perimeter@[b],
                decreases len - j,
            {
                if perimeter[i] == perimeter[j] {
                    return Err(GraphError::TopologyMalformed);
                }
                j = j + 1;
            }
            i = i + 1;
        }
        let mut kept: Vec<VertexKey> = Vec::new();
        let mut i: usize = 0;
        while i < len
            invariant
                len == perimeter@.len(),
                len >= 3,
                perimeter@.no_duplicates(),
                i <= len,
                kept@ == perimeter@.take(i as int),
                forall|a: int| 0 <= a < i ==> core.vertices@.contains_key(#[trigger] perimeter@[a]),
            decreases len - i,
        {
            if !core.vertices.contains_key(perimeter[i]) {
                return Err(GraphError::TopologyNotFound);
            }
            kept.push(perimeter[i]);
            i = i + 1;
        }
        let mut i: usize = 0;
        while i < len
            invariant
                len == perimeter@.len(),
                len >= 3,
                perimeter@.no_duplicates(),
                forall|a: int|
                    0 <= a < len ==> core.topology().vertices.contains_key(#[trigger] perimeter@[a]),
                i <= len,
                forall|a: int|
                    0 <= a < i && core.topology().arcs.contains_key(
                        #[trigger] perimeter_arc(perimeter@, a),
                    ) ==> core.topology().is_boundary(perimeter_arc(perimeter@, a)),
            decreases len - i,
        {
            let arc = ArcKey::new(perimeter[i], perimeter[index_after(i, len)]);
            match core.arcs.get(arc) {
                Some(payload) => {
                    if !payload.is_boundary_arc() {
                        assert(core.topology().arcs.contains_key(
                            perimeter_arc(perimeter@, i as int),
                        ) && !core.topology().is_boundary(perimeter_arc(perimeter@, i as int)));
                        return Err(GraphError::TopologyConflict);
                    }
                },
                None => {},
            }
            i = i + 1;
        }
        Ok(FaceInsertCache { perimeter: kept, geometry })
    }
}

/// Inserts the face of a plan that fits the core, with the edges along its
/// perimeter that are missing. The arcs along the perimeter become the ring
/// of the face, which leads with the arc that leaves the first vertex.
pub fn insert_with_cache<G: GraphGeometry>(core: &mut Core<G>, cache: FaceInsertCache<G>) -> (key:
    FaceKey)
    requires
        old(core).consistent(),
        cache.fits(old(core)),
    ensures
        final(core).consistent(),
        !old(core).faces@.contains_key(key),
        key.0 == old(core).faces.issued(),
        final(core).faces.issued() == old(core).faces.issued() + 1,
        final(core).topology() == old(core).topology().with_face_around(key, cache.perimeter@),
        final(core).topology().is_face_ring(key, perimeter_arcs(cache.perimeter@)),
        final(core).faces@ == old(core).faces@.insert(
            key,
            FacePayload { geometry: cache.geometry, arc: perimeter_arc(cache.perimeter@, 0) },
        ),
        final(core).vertices@.dom() == old(core).vertices@.dom(),
        final(core).vertices.issued() == old(core).vertices.issued(),
        final(core).arcs@.dom().len() == old(core).arcs@.dom().len() + 2 * old(
            core,
        ).topology().missing_sides(cache.perimeter@, cache.perimeter@.len()),
        final(core).edges@.dom().len() == old(core).edges@.dom().len() + old(
            core,
        ).topology().missing_sides(cache.perimeter@, cache.perimeter@.len()),
        final(core).extends(old(core)),
        final(core).furnishes(old(core)),
{
    let ghost start = *core;
    let ghost perimeter = cache.perimeter@;
    let ghost initial = start.topology();
    let FaceInsertCache { perimeter: vertices, geometry } = cache;
    let len = vertices.len();
    let mut i: usize = 0;
    while i < len
        invariant
            len == perimeter.len(),
            vertices@ == perimeter,
            i <= len,
            initial == start.topology(),
            initial.consistent(),
            initial.admits_face(perimeter),
            core.topology() == initial.with_edges(perimeter, i as nat),
            core.extends(&start),
            core.furnishes(&start),
            core.faces == start.faces,
            core.vertices@.dom() == start.vertices@.dom(),
            core.vertices.issued() == start.vertices.issued(),
        decreases len - i,
    {
        let arc = ArcKey::new(vertices[i], vertices[index_after(i, len)]);
        proof {
            initial.lemma_with_edges(perimeter, i as nat);
        }
        if !core.arcs.contains_key(arc) {
            let ghost earlier = *core;
            core.insert_edge(arc);
            proof {
                core.lemma_furnishes(&earlier, &start);
            }
        }
        i = i + 1;
    }
    let ghost edged = core.topology();
    proof {
        initial.lemma_with_edges(perimeter, len as nat);
    }
    let mut ring: Vec<ArcKey> = Vec::new();
    let mut i: usize = 0;
    while i < len
        invariant
            len == perimeter.len(),
            vertices@ == perimeter,
            i <= len,
            edged.consistent(),
            edged.holds_perimeter(perimeter),
            core.topology() == edged.with_corners(perimeter, i as nat),
            core.extends(&start),
            core.furnishes(&start),
            core.faces == start.faces,
            core.vertices@.dom() == start.vertices@.dom(),
            core.vertices.issued() == start.vertices.issued(),
            ring@ == perimeter_arcs(perimeter).take(i as int),
        decreases len - i,
    {
        let entering = ArcKey::new(vertices[index_before(i, len)], vertices[i]);
        let leaving = ArcKey::new(vertices[i], vertices[index_after(i, len)]);
        proof {
            edged.lemma_with_corners(perimeter, i as nat);
            let current = core.topology();
            let at = before(i as int, len as nat);
            assert(entering == perimeter_arc(perimeter, at));
            assert(leaving == perimeter_arc(perimeter, i as int));
            assert(current.arc_consistent(leaving));
        }
        if core.next_of(entering) != leaving {
            let second = core.previous_of(leaving);
            proof {
                let current = core.topology();
                assert(current.arc_consistent(second));
            }
            let ghost earlier = *core;
            core.splice(entering, second);
            proof {
                assert(core.furnishes(&earlier));
                core.lemma_furnishes(&earlier, &start);
            }
        }
        ring.push(leaving);
        i = i + 1;
    }
    proof {
        initial.lemma_perimeter_ring(perimeter);
        assert(ring@ =~= perimeter_arcs(perimeter));
    }
    let ghost joined = *core;
    let key = core.insert_face_over(&ring, geometry);
    proof {
        assert(core.furnishes(&joined));
        core.lemma_furnishes(&joined, &start);
        initial.lemma_with_face_around_counts(key, perimeter);
        assert(start.arcs@.dom() =~= initial.arcs.dom());
        assert(start.edges@.dom() =~= initial.edges.dom());
        assert(core.arcs@.dom() =~= core.topology().arcs.dom());
        assert(core.edges@.dom() =~= core.topology().edges.dom());
    }
    key
}

/// The vertices that the arcs of a ring leave, in the order of the ring.
pub open spec fn ring_vertices(ring: Seq<ArcKey>) -> Seq<VertexKey> {
    Seq::new(ring.len(), |i: int| ring[i].0)
}

/// The perimeter of the triangle at `k` of the fan over a perimeter: the
/// first vertex of the perimeter, the vertex at `k` and the vertex after it.
pub open spec fn fan_triangle(perimeter: Seq<VertexKey>, k: int) -> Seq<VertexKey> {
    seq![perimeter[0], perimeter[k], perimeter[k + 1]]
}

/// The arc from the first vertex of a perimeter to the vertex at `k`.
pub open spec fn spoke(perimeter: Seq<VertexKey>, k: int) -> ArcKey {
    ArcKey(perimeter[0], perimeter[k])
}

/// Why a face cannot be triangulated, if it cannot: the first of the checks
/// that fails. A triangle passes them all.
pub open spec fn fan_refusal(topology: Topology, face: FaceKey) -> Option<GraphError> {
    let perimeter = ring_vertices(topology.ring_of(face));
    if !topology.faces.contains_key(face) {
        Some(GraphError::TopologyNotFound)
    } else if !perimeter.no_duplicates() {
        Some(GraphError::TopologyMalformed)
    } else if exists|k: int|
        2 <= k <= perimeter.len() - 2 && topology.arcs.contains_key(
            #[trigger] spoke(perimeter, k),
        ) {
        Some(GraphError::TopologyConflict)
    } else {
        None
    }
}

/// The keys of the next `count` faces of a storage that has issued `issued`
/// keys.
pub open spec fn fresh_faces(issued: nat, count: nat) -> Seq<FaceKey> {
    Seq::new(count, |i: int| FaceKey((issued + i) as u64))
}

/// The number of faces that the triangulation of a face adds to the graph:
/// the arity of the face less three.
pub open spec fn fan_growth(topology: Topology, face: FaceKey) -> nat {
    (topology.ring_of(face).len() - 3) as nat
}

/// The sum of the growth of each of the faces, every ring taken as it is in
/// the graph given.
pub open spec fn fans_growth(topology: Topology, faces: Seq<FaceKey>) -> nat
    decreases faces.len(),
{
    if faces.len() == 0 {
        0
    } else {
        fans_growth(topology, faces.drop_last()) + fan_growth(topology, faces.last())
    }
}

/// What the triangulation of some faces, one after the other, comes to: the
/// graph, the number of face keys issued, and the error of the first face
/// that could not be triangulated, at which the work stops.
pub open spec fn triangulation(topology: Topology, issued: nat, faces: Seq<FaceKey>) -> (
    Topology,
    nat,
    Option<GraphError>,
)
    decreases faces.len(),
{
    if faces.len() == 0 {
        (topology, issued, None)
    } else {
        match fan_refusal(topology, faces[0]) {
            Some(error) => (topology, issued, Some(error)),
            None => triangulation(
                topology.fanned(faces[0], issued),
                issued + topology.fan_count(faces[0]),
                faces.drop_first(),
            ),
        }
    }
}

impl Topology {
    /// The number of triangles that take the place of a face that is
    /// triangulated: none for a triangle, which stays.
    pub open spec fn fan_count(self, face: FaceKey) -> nat {
        let len = self.ring_of(face).len();
        if len <= 3 {
            0
        } else {
            (len - 2) as nat
        }
    }

    /// The graph with a face triangulated: a triangle is left as it is, any
    /// other face gives way to the fan over its ring, whose triangles get
    /// the next keys of a storage that has issued `issued` of them.
    pub open spec fn fanned(self, face: FaceKey, issued: nat) -> Topology {
        let perimeter = ring_vertices(self.ring_of(face));
        if perimeter.len() <= 3 {
            self
        } else {
            self.without_face(face).with_fan(
                perimeter,
                fresh_faces(issued, self.fan_count(face)),
                self.fan_count(face),
            )
        }
    }

    /// The triangle at `k` of a fan brings one edge, from the first vertex
    /// to the vertex after `k`, unless it is the last of the fan, which
    /// brings none.
    pub proof fn lemma_fan_arcs(self, perimeter: Seq<VertexKey>, k: int, face: FaceKey)
        requires
            self.consistent(),
            self.fan_ready(perimeter, k),
            !self.faces.contains_key(face),
        ensures
            ({
                let edited = self.with_face_around(face, fan_triangle(perimeter, k));
                let next = spoke(perimeter, k + 1);
                if k + 1 <= perimeter.len() - 2 {
                    &&& edited.arcs.dom() == self.arcs.dom().insert(next).insert(next.opposite())
                    &&& !self.arcs.contains_key(next)
                    &&& !self.arcs.contains_key(next.opposite())
                    &&& next != next.opposite()
                } else {
                    edited.arcs.dom() == self.arcs.dom()
                }
            }),
    {
        let triangle = fan_triangle(perimeter, k);
        let edited = self.with_face_around(face, triangle);
        let next = spoke(perimeter, k + 1);
        let len = perimeter.len();
        self.lemma_fan_step(perimeter, k, face);
        self.lemma_with_face_around(face, triangle);
        let ring = perimeter_arcs(triangle);
        assert(perimeter_arc(triangle, 0) == spoke(perimeter, k));
        assert(perimeter_arc(triangle, 1) == perimeter_arc(perimeter, k));
        assert(perimeter_arc(triangle, 2) == next.opposite());
        self.lemma_opposite(spoke(perimeter, k));
        self.lemma_opposite(perimeter_arc(perimeter, k));
        self.lemma_opposite(next);
        edited.lemma_opposite(next);
        assert(edited.ring_step(ring, 2));
        assert(ring[2] == next.opposite());
        if k + 1 <= len - 2 {
            assert(perimeter[0] != perimeter[k + 1]);
            assert(edited.arcs.dom() =~= self.arcs.dom().insert(next).insert(next.opposite()));
        } else {
            assert(next.opposite() == perimeter_arc(perimeter, len - 1));
            assert(edited.arcs.dom() =~= self.arcs.dom());
        }
    }

    /// The graph with the first `count` triangles of the fan over a
    /// perimeter, each under the face key given for it.
    pub open spec fn with_fan(self, perimeter: Seq<VertexKey>, faces: Seq<FaceKey>, count: nat) -> Topology
        decreases count,
    {
        if count == 0 {
            self
        } else {
            self.with_fan(perimeter, faces, (count - 1) as nat).with_face_around(
                faces[count - 1],
                fan_triangle(perimeter, count as int),
            )
        }
    }

    /// The graph is ready for the triangle at `k` of the fan over a
    /// perimeter: the arcs along the perimeter from the vertex at `k` on and
    /// the arc from the first vertex to the vertex at `k` are boundary arcs,
    /// and no edge joins the first vertex to a later vertex that the fan has
    /// yet to reach.
    pub open spec fn fan_ready(self, perimeter: Seq<VertexKey>, k: int) -> bool {
        &&& perimeter.len() > 3
        &&& perimeter.no_duplicates()
        &&& 1 <= k <= perimeter.len() - 2
        &&& forall|i: int|
            0 <= i < perimeter.len() ==> self.vertices.contains_key(#[trigger] perimeter[i])
        &&& forall|j: int|
            k <= j < perimeter.len() ==> self.arcs.contains_key(
                #[trigger] perimeter_arc(perimeter, j),
            ) && self.is_boundary(perimeter_arc(perimeter, j))
        &&& self.arcs.contains_key(spoke(perimeter, k))
        &&& self.is_boundary(spoke(perimeter, k))
        &&& forall|m: int|
            k + 1 <= m <= perimeter.len() - 2 ==> !self.arcs.contains_key(
                (#[trigger] spoke(perimeter, m)).opposite(),
            )
    }

    /// A face that can be triangulated leaves the graph ready for the first
    /// triangle of the fan over its ring once it is removed.
    pub proof fn lemma_fan_start(self, face: FaceKey)
        requires
            self.consistent(),
            fan_refusal(self, face) is None,
            self.ring_of(face).len() > 3,
        ensures
            self.without_face(face).fan_ready(ring_vertices(self.ring_of(face)), 1),
    {
        let ring = self.ring_of(face);
        let perimeter = ring_vertices(ring);
        let bare = self.without_face(face);
        self.lemma_face(face);
        let len = perimeter.len();
        assert forall|i: int| 0 <= i < len implies {
            &&& self.arcs.contains_key(#[trigger] ring[i])
            &&& self.arcs[ring[i]].face == Some(face)
            &&& ring[i] == perimeter_arc(perimeter, i)
            &&& self.vertices.contains_key(perimeter[i])
        } by {
            assert(self.ring_step(ring, i));
            assert(self.arc_consistent(ring[i]));
        }
        assert forall|m: int| 2 <= m <= len - 2 implies !bare.arcs.contains_key(
            (#[trigger] spoke(perimeter, m)).opposite(),
        ) by {
            self.lemma_opposite(spoke(perimeter, m));
        }
    }

    /// A graph that is ready for the triangle at `k` of a fan admits that
    /// triangle, and with it is ready for the next.
    pub proof fn lemma_fan_step(self, perimeter: Seq<VertexKey>, k: int, face: FaceKey)
        requires
            self.consistent(),
            self.fan_ready(perimeter, k),
            !self.faces.contains_key(face),
        ensures
            self.admits_face(fan_triangle(perimeter, k)),
            k + 1 <= perimeter.len() - 2 ==> self.with_face_around(
                face,
                fan_triangle(perimeter, k),
            ).fan_ready(perimeter, k + 1),
    {
        let triangle = fan_triangle(perimeter, k);
        let len = perimeter.len();
        assert(perimeter_arc(triangle, 1) == perimeter_arc(perimeter, k));
        assert(self.admits_face(triangle)) by {
            assert forall|i: int|
                0 <= i < triangle.len() && self.arcs.contains_key(
                    #[trigger] perimeter_arc(triangle, i),
                ) implies self.is_boundary(perimeter_arc(triangle, i)) by {
                if i == 2 {
                    if k + 1 == len - 1 {
                        assert(perimeter_arc(perimeter, len - 1) == ArcKey(
                            perimeter[k + 1],
                            perimeter[0],
                        ));
                    } else {
                        assert(!self.arcs.contains_key(spoke(perimeter, k + 1).opposite()));
                    }
                }
            }
        }
        self.lemma_with_face_around(face, triangle);
        self.lemma_with_face_around_keeps(face, triangle);
        if k + 1 <= len - 2 {
            let next = spoke(perimeter, k + 1);
            assert(!self.arcs.contains_key(next)) by {
                self.lemma_opposite(next);
            }
        }
    }
}

/// The plan of the triangulation of a face: the face and the vertices of its
/// ring, in order.
pub struct FaceTriangulateCache {
    pub face: FaceKey,
    pub perimeter: Vec<VertexKey>,
}

impl FaceTriangulateCache {
    /// The plan is that of a face of the core that can be triangulated.
    pub open spec fn fits<G: GraphGeometry>(&self, core: &Core<G>) -> bool {
        &&& fan_refusal(core.topology(), self.face) is None
        &&& self.perimeter@ == ring_vertices(core.topology().ring_of(self.face))
    }

    /// Checks that a face can be triangulated: that it is there, that no
    /// vertex occurs twice in its ring, and that no edge joins its first
    /// vertex to a vertex of its ring that is not next to it.
    pub fn snapshot<G: GraphGeometry>(core: &Core<G>, face: FaceKey) -> (cache: Result<
        Self,
        GraphError,
    >)
        requires
            core.consistent(),
        ensures
            match cache {
                Ok(cache) => cache.face == face && cache.fits(core),
                Err(error) => fan_refusal(core.topology(), face) == Some(error),
            },
    {
        let leader = match core.face_leader_of(face) {
            Some(leader) => leader,
            None => {
                return Err(GraphError::TopologyNotFound);
            },
        };
        let ghost topology = core.topology();
        let ghost ring = topology.ring_of(face);
        proof {
            topology.lemma_face(face);
            assert(topology.ring_step(ring, 0));
        }
        let arcs = core.ring_arcs(leader);
        proof {
            topology.lemma_ring_is_walk(ring);
        }
        let mut perimeter: Vec<VertexKey> = Vec::new();
        let mut i: usize = 0;
        while i < arcs.len()
            invariant
                i <= arcs@.len(),
                perimeter@ == ring_vertices(arcs@.take(i as int)),
            decreases arcs@.len() - i,
        {
            perimeter.push(arcs[i].source());
            i = i + 1;
        }
        let len = perimeter.len();
        let mut i: usize = 0;
        while i < len
            invariant
                len == perimeter@.len(),
                i <= len,
                topology == core.topology(),
                topology.faces.contains_key(face),
                perimeter@ == ring_vertices(topology.ring_of(face)),
                forall|a: int, b: int| 0 <= a < i && a < b < len ==> perimeter@[a] != perimeter@[b],
            decreases len - i,
        {
            let mut j: usize = i + 1;
            while j < len
                invariant
                    len == perimeter@.len(),
                    i < len,
                    i < j <= len,
                    topology == core.topology(),
                    topology.faces.contains_key(face),
                    perimeter@ == ring_vertices(topology.ring_of(face)),
                    forall|b: int| i < b < j ==> perimeter@[i as int] != perimeter@[b],
                decreases len - j,
            {
                if perimeter[i] == perimeter[j] {
                    return Err(GraphError::TopologyMalformed);
                }
                j = j + 1;
            }
            i = i + 1;
        }
        let mut k: usize = 2;
        while k < len - 1
            invariant
                len == perimeter@.len(),
                len >= 3,
                2 <= k,
                topology.faces.contains_key(face),
                perimeter@ == ring_vertices(topology.ring_of(face)),
                perimeter@.no_duplicates(),
                forall|m: int|
                    2 <= m < k && m <= len - 2 ==> !topology.arcs.contains_key(
                        #[trigger] spoke(perimeter@, m),
                    ),
                topology == core.topology(),
            decreases len - k,
        {
            let arc = ArcKey::new(perimeter[0], perimeter[k]);
            assert(arc == spoke(perimeter@, k as int));
            if core.arcs.contains_key(arc) {
                return Err(GraphError::TopologyConflict);
            }
            k = k + 1;
        }
        Ok(FaceTriangulateCache { face, perimeter })
    }
}

/// Triangulates the face of a plan that fits the core: removes the face and
/// inserts the triangles of the fan over its ring from its first vertex, each
/// with a clone of the geometry of the face. A triangle is left as it is.
///
/// Hands back the keys of the faces that were inserted.
pub fn triangulate_with_cache<G: GraphGeometry>(core: &mut Core<G>, cache: FaceTriangulateCache) -> (faces:
    Vec<FaceKey>)
    requires
        old(core).consistent(),
        cache.fits(old(core)),
    ensures
        final(core).consistent(),
        cache.perimeter@.len() == 3 ==> faces@.len() == 0 && *final(core) == *old(core),
        cache.perimeter@.len() > 3 ==> {
            &&& faces@.len() == cache.perimeter@.len() - 2
            &&& final(core).topology() == old(core).topology().without_face(cache.face).with_fan(
                cache.perimeter@,
                faces@,
                faces@.len(),
            )
        },
        faces@.no_duplicates(),
        faces@ == fresh_faces(old(core).faces.issued(), old(core).topology().fan_count(cache.face)),
        final(core).faces.issued() == old(core).faces.issued() + faces@.len(),
        forall|i: int|
            0 <= i < faces@.len() ==> (#[trigger] faces@[i]).0 == old(core).faces.issued() + i,
        final(core).topology() == old(core).topology().fanned(cache.face, old(core).faces.issued()),
        final(core).faces@.dom().len() == old(core).faces@.dom().len() + fan_growth(
            old(core).topology(),
            cache.face,
        ),
        final(core).arcs@.dom().len() == old(core).arcs@.dom().len() + 2 * fan_growth(
            old(core).topology(),
            cache.face,
        ),
        forall|i: int| 0 <= i < faces@.len() ==> !old(core).faces@.contains_key(#[trigger] faces@[i]),
        final(core).faces@.dom() == (if cache.perimeter@.len() > 3 {
            old(core).faces@.dom().remove(cache.face).union(faces@.to_set())
        } else {
            old(core).faces@.dom()
        }),
        forall|i: int|
            0 <= i < faces@.len() ==> final(core).topology().is_face_ring(
                #[trigger] faces@[i],
                perimeter_arcs(fan_triangle(cache.perimeter@, i + 1)),
            ),
        forall|i: int|
            0 <= i < faces@.len() ==> cloned(
                old(core).faces@[cache.face].geometry,
                final(core).faces@[#[trigger] faces@[i]].geometry,
            ),
        forall|other: FaceKey, ring: Seq<ArcKey>|
            other != cache.face && #[trigger] old(core).topology().is_face_ring(other, ring)
                ==> final(core).topology().is_face_ring(other, ring),
        final(core).vertices@.dom() == old(core).vertices@.dom(),
        final(core).keeps_geometry_of(old(core)),
        final(core).furnishes(old(core)),
        final(core).holds_edges_of(old(core)),
{
    let ghost start = *core;
    let ghost initial = start.topology();
    let ghost perimeter = cache.perimeter@;
    let FaceTriangulateCache { face, perimeter: vertices } = cache;
    let len = vertices.len();
    let mut faces: Vec<FaceKey> = Vec::new();
    proof {
        initial.lemma_face(face);
    }
    if len <= 3 {
        assert(faces@ =~= fresh_faces(start.faces.issued(), 0));
        return faces;
    }
    let removed = core.remove_face(face);
    let geometry = removed.unwrap().geometry;
    let ghost bare = core.topology();
    proof {
        start.faces.lemma_keys_issued();
        initial.lemma_fan_start(face);
        initial.lemma_without_face_keeps(face);
        assert(start.faces@.dom() =~= initial.faces.dom());
        assert(core.faces@.dom() =~= start.faces@.dom().remove(face));
        assert(core.arcs@.dom() =~= start.arcs@.dom());
    }
    let mut k: usize = 1;
    while k < len - 1
        invariant
            len == perimeter.len(),
            vertices@ == perimeter,
            len > 3,
            1 <= k <= len - 1,
            faces@.len() == k - 1,
            core.consistent(),
            face.0 < start.faces.issued(),
            core.faces.issued() >= start.faces.issued(),
            bare == initial.without_face(face),
            initial == start.topology(),
            start.faces@.contains_key(face),
            geometry == start.faces@[face].geometry,
            core.topology() == bare.with_fan(perimeter, faces@, faces@.len()),
            k <= len - 2 ==> core.topology().fan_ready(perimeter, k as int),
            faces@.no_duplicates(),
            faces@ =~= fresh_faces(start.faces.issued(), faces@.len()),
            forall|i: int|
                0 <= i < faces@.len() ==> (#[trigger] faces@[i]).0 == start.faces.issued() + i,
            core.faces.issued() == start.faces.issued() + faces@.len(),
            core.faces@.dom().len() == start.faces@.dom().len() - 1 + faces@.len(),
            core.arcs@.dom().len() == start.arcs@.dom().len() + 2 * (if k <= len - 2 {
                k - 1
            } else {
                len - 3
            }),
            forall|i: int|
                0 <= i < faces@.len() ==> !start.faces@.contains_key(#[trigger] faces@[i]),
            core.faces@.dom() == start.faces@.dom().remove(face).union(faces@.to_set()),
            forall|i: int|
                0 <= i < faces@.len() ==> core.topology().is_face_ring(
                    #[trigger] faces@[i],
                    perimeter_arcs(fan_triangle(perimeter, i + 1)),
                ),
            forall|i: int|
                0 <= i < faces@.len() ==> cloned(
                    geometry,
                    core.faces@[#[trigger] faces@[i]].geometry,
                ),
            forall|other: FaceKey, ring: Seq<ArcKey>|
                other != face && #[trigger] initial.is_face_ring(other, ring)
                    ==> core.topology().is_face_ring(other, ring),
            core.vertices@.dom() == start.vertices@.dom(),
            core.keeps_geometry_of(&start),
            core.furnishes(&start),
            forall|key: VertexKey| start.vertices@.contains_key(key) ==> core.vertices@.contains_key(key),
            forall|key: ArcKey| start.arcs@.contains_key(key) ==> core.arcs@.contains_key(key),
            forall|key: crate::key::EdgeKey| start.edges@.contains_key(key) ==> core.edges@.contains_key(key),
        decreases len - k,
    {
        let mut triangle: Vec<VertexKey> = Vec::new();
        triangle.push(vertices[0]);
        triangle.push(vertices[k]);
        triangle.push(vertices[k + 1]);
        assert(triangle@ =~= fan_triangle(perimeter, k as int));
        let ghost current = core.topology();
        let ghost entered = *core;
        let ghost before_faces = faces@;
        let shape = geometry.clone();
        core.faces.bounds();
        let ghost probe = entered.faces.next_key();
        proof {
            entered.faces.lemma_next_key();
            current.lemma_fan_step(perimeter, k as int, probe);
        }
        let key = insert_with_cache(core, FaceInsertCache { perimeter: triangle, geometry: shape });
        proof {
            current.lemma_with_face_around_keeps(key, fan_triangle(perimeter, k as int));
            current.lemma_fan_arcs(perimeter, k as int, key);
            core.lemma_furnishes(&entered, &start);
            assert(entered.arcs@.dom() =~= current.arcs.dom());
            assert(core.arcs@.dom() =~= core.topology().arcs.dom());
            assert(entered.faces@.dom() =~= current.faces.dom());
            assert(!before_faces.contains(key)) by {
                if before_faces.contains(key) {
                    let i = choose|i: int| 0 <= i < before_faces.len() && before_faces[i] == key;
                    assert(before_faces.to_set().contains(before_faces[i]));
                }
            }
        }
        faces.push(key);
        proof {
            assert(faces@.drop_last() =~= before_faces);
            assert(bare.with_fan(perimeter, faces@, (faces@.len() - 1) as nat) == bare.with_fan(
                perimeter,
                before_faces,
                before_faces.len(),
            )) by {
                lemma_fan_prefix(bare, perimeter, before_faces, faces@, before_faces.len());
            }
            assert(core.faces@.dom() =~= start.faces@.dom().remove(face).union(faces@.to_set())) by {
                assert forall|other: FaceKey| faces@.to_set().contains(other) <==> (
                before_faces.to_set().contains(other) || other == key) by {
                    if faces@.to_set().contains(other) {
                        let i = choose|i: int| 0 <= i < faces@.len() && faces@[i] == other;
                        assert(i == before_faces.len() || before_faces[i] == other);
                    }
                    if before_faces.to_set().contains(other) {
                        let i = choose|i: int|
                            0 <= i < before_faces.len() && before_faces[i] == other;
                        assert(faces@[i] == other);
                    }
                    if other == key {
                        assert(faces@[faces@.len() - 1] == key);
                    }
                }
            }
            assert forall|i: int| 0 <= i < faces@.len() implies core.topology().is_face_ring(
                #[trigger] faces@[i],
                perimeter_arcs(fan_triangle(perimeter, i + 1)),
            ) by {
            }
            assert forall|i: int| 0 <= i < faces@.len() implies cloned(
                geometry,
                core.faces@[#[trigger] faces@[i]].geometry,
            ) by {
            }
            assert forall|other: FaceKey, ring: Seq<ArcKey>|
                other != face && #[trigger] initial.is_face_ring(other, ring) implies core.topology().is_face_ring(
                other,
                ring,
            ) by {
                assert(current.ring_step(ring, 0));
                assert(current.arc_consistent(ring[0]));
            }
        }
        k = k + 1;
    }
    faces
}

/// The fan over a perimeter depends on the keys of the faces that it holds
/// only.
pub proof fn lemma_fan_prefix(
    topology: Topology,
    perimeter: Seq<VertexKey>,
    shorter: Seq<FaceKey>,
    longer: Seq<FaceKey>,
    count: nat,
)
    requires
        count <= shorter.len() <= longer.len(),
        forall|i: int| 0 <= i < shorter.len() ==> shorter[i] == longer[i],
    ensures
        topology.with_fan(perimeter, shorter, count) == topology.with_fan(perimeter, longer, count),
    decreases count,
{
    if count > 0 {
        lemma_fan_prefix(topology, perimeter, shorter, longer, (count - 1) as nat);
    }
}

} // verus!
