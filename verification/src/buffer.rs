//! Building a graph from raw buffers of indices and vertices, and reading a
//! graph back as such buffers.

use crate::graph::MeshGraph;
use crate::interop::{
    chunk_at, chunk_count, chunks_of, held_perimeter, index_of, is_extent_of, minmax_of,
    perimeter_as_slice, perimeter_of, Extent,
};
use crate::key::{ArcKey, EdgeKey, FaceKey, VertexKey};
use crate::mutation::face::{
    face_refusal, lemma_third_face_refused, perimeter_arc, perimeter_arcs, ring_vertices,
};
use crate::payload::{is_default, GraphGeometry};
use crate::selector::GraphError;
use crate::storage::in_issue_order;
use crate::topology::{after, Topology};
use std::collections::HashMap;
use vstd::prelude::*;

verus! {

/// The arity of the faces of a graph: the number of vertices that a face
/// has.
#[derive(Clone, Copy, Debug, PartialEq, Eq, Structural)]
pub enum Arity {
    /// All faces have this arity. It is zero for a graph without faces.
    Uniform(usize),
    /// The faces differ in arity: the least and the greatest of their
    /// arities.
    NonUniform(usize, usize),
}

/// The arity that the least and the greatest of the arities of some faces
/// give: uniform where the two agree.
pub fn arity_of_extent(extent: Extent) -> (arity: Arity)
    ensures
        arity == (match extent {
            Extent::NoElements => Arity::Uniform(0),
            Extent::OneElement(only) => Arity::Uniform(only),
            Extent::MinMax(least, greatest) => if least == greatest {
                Arity::Uniform(least)
            } else {
                Arity::NonUniform(least, greatest)
            },
        }),
{
    match extent {
        Extent::NoElements => Arity::Uniform(0),
        Extent::OneElement(only) => Arity::Uniform(only),
        Extent::MinMax(least, greatest) => {
            if least == greatest {
                Arity::Uniform(least)
            } else {
                Arity::NonUniform(least, greatest)
            }
        },
    }
}

/// The perimeter that a polygon of indices names among the first `count`
/// vertex keys, if all its indices are below `count`.
pub open spec fn polygon_perimeter(polygon: Seq<u64>, count: nat) -> Option<Seq<VertexKey>> {
    if forall|i: int| 0 <= i < polygon.len() ==> #[trigger] polygon[i] < count {
        Some(Seq::new(polygon.len(), |i: int| VertexKey(polygon[i])))
    } else {
        None
    }
}

/// The arc along the side at `i` of a polygon of indices: from the vertex
/// that the index at `i` names to the vertex that the next index names.
pub open spec fn polygon_side(polygon: Seq<u64>, i: int) -> ArcKey {
    ArcKey(VertexKey(polygon[i]), VertexKey(polygon[after(i, polygon.len())]))
}

/// The arc runs along a side of one of the first `done` polygons, one way or
/// the other.
pub open spec fn is_side(polygons: Seq<Seq<u64>>, done: nat, arc: ArcKey) -> bool {
    exists|j: int, i: int|
        0 <= j < done && 0 <= i < polygons[j].len() && (arc == #[trigger] polygon_side(
            polygons[j],
            i,
        ) || arc == polygon_side(polygons[j], i).opposite())
}

/// What a polygon of indices adds to a graph: a face under the given key,
/// or the error of the first check that fails. A polygon that has not the
/// arity that is asked for is refused first, then one with an index that
/// names no vertex, then one that the graph does not admit as a face.
pub open spec fn with_polygon(
    topology: Topology,
    polygon: Seq<u64>,
    arity: Option<usize>,
    count: nat,
    face: FaceKey,
) -> Result<Topology, GraphError> {
    if arity is Some && polygon.len() != arity->0 {
        Err(GraphError::ArityConflict { expected: arity->0, actual: polygon.len() as usize })
    } else {
        match polygon_perimeter(polygon, count) {
            None => Err(GraphError::TopologyNotFound),
            Some(perimeter) => match face_refusal(topology, perimeter) {
                Some(error) => Err(error),
                None => Ok(topology.with_face_around(face, perimeter)),
            },
        }
    }
}

/// What the first `done` polygons add to a graph of `count` vertices without
/// faces, each as the face whose key is its place among the polygons: the
/// graph with those faces, or the error of the first polygon that is
/// refused.
pub open spec fn with_polygons(
    topology: Topology,
    polygons: Seq<Seq<u64>>,
    arity: Option<usize>,
    count: nat,
    done: nat,
) -> Result<Topology, GraphError>
    decreases done,
{
    if done == 0 {
        Ok(topology)
    } else {
        match with_polygons(topology, polygons, arity, count, (done - 1) as nat) {
            Err(error) => Err(error),
            Ok(earlier) => with_polygon(
                earlier,
                polygons[done - 1],
                arity,
                count,
                FaceKey((done - 1) as u64),
            ),
        }
    }
}

/// The graph of `count` vertices without arcs, under the first `count`
/// vertex keys.
pub open spec fn with_vertices(count: nat) -> Topology
    decreases count,
{
    if count == 0 {
        Topology::empty()
    } else {
        with_vertices((count - 1) as nat).with_vertex(VertexKey((count - 1) as u64))
    }
}

/// The polygons that a flat buffer of indices holds: its chunks of `arity`
/// indices.
pub open spec fn flat_polygons(indices: Seq<u64>, arity: nat) -> Seq<Seq<u64>> {
    Seq::new(chunk_count(indices.len(), arity), |i: int| chunk_at(indices, arity, i))
}

/// The items in the opposite order.
pub fn reversed<T>(items: Vec<T>) -> (turned: Vec<T>)
    ensures
        turned@ == items@.reverse(),
{
    let mut items = items;
    let ghost all = items@;
    let mut turned: Vec<T> = Vec::new();
    while items.len() > 0
        invariant
            turned@.len() + items@.len() == all.len(),
            forall|i: int| 0 <= i < items@.len() ==> items@[i] == all[i],
            forall|i: int| 0 <= i < turned@.len() ==> turned@[i] == all[all.len() - 1 - i],
        decreases items@.len(),
    {
        let last = items.pop().unwrap();
        turned.push(last);
    }
    turned
}

/// The polygons of some faces that come with their geometry.
pub open spec fn polygons_of<F>(faces: Seq<(Vec<u64>, F)>) -> Seq<Seq<u64>> {
    Seq::new(faces.len(), |i: int| faces[i].0@)
}

/// The geometry of some faces that come with their polygons.
pub open spec fn shapes_of<F>(faces: Seq<(Vec<u64>, F)>) -> Seq<F> {
    Seq::new(faces.len(), |i: int| faces[i].1)
}

/// The views of some vectors.
pub open spec fn views(polygons: Seq<Vec<u64>>) -> Seq<Seq<u64>> {
    Seq::new(polygons.len(), |i: int| polygons[i]@)
}

impl<G: GraphGeometry> MeshGraph<G> {
    /// The graph was loaded from the given vertices and polygons: it has
    /// those vertices, with their geometry and in their order, and a face
    /// for each polygon, in the order of the polygons, whose ring runs over
    /// the vertices that the polygon names.
    pub open spec fn loaded_from(
        &self,
        vertices: Seq<G::Vertex>,
        polygons: Seq<Seq<u64>>,
        arity: Option<usize>,
    ) -> bool {
        self.loaded_with(vertices, polygons, arity, None)
    }

    /// The graph was loaded from the given vertices and polygons, and its
    /// faces have the geometry given for them, if any is given.
    pub open spec fn loaded_with(
        &self,
        vertices: Seq<G::Vertex>,
        polygons: Seq<Seq<u64>>,
        arity: Option<usize>,
        shapes: Option<Seq<G::Face>>,
    ) -> bool {
        &&& Ok::<Topology, GraphError>(self@) == with_polygons(
            with_vertices(vertices.len()),
            polygons,
            arity,
            vertices.len(),
            polygons.len(),
        )
        &&& self@.vertices.dom().len() == vertices.len()
        &&& self@.faces.dom().len() == polygons.len()
        &&& forall|key: VertexKey| #[trigger]
            self@.vertices.contains_key(key) <==> key.0 < vertices.len()
        &&& forall|key: FaceKey| #[trigger] self@.faces.contains_key(key) <==> key.0 < polygons.len()
        &&& forall|arc: ArcKey| #[trigger]
            self@.arcs.contains_key(arc) <==> is_side(polygons, polygons.len(), arc)
        &&& forall|arc: ArcKey|
            self@.arcs.contains_key(arc) ==> is_default(#[trigger] self.arc_geometry(arc))
        &&& forall|edge: EdgeKey|
            self@.edges.contains_key(edge) ==> is_default(#[trigger] self.edge_geometry(edge))
        &&& shapes is None ==> forall|face: FaceKey|
            self@.faces.contains_key(face) ==> is_default(#[trigger] self.face_geometry(face))
        &&& forall|i: int|
            0 <= i < vertices.len() ==> self@.vertices.contains_key(VertexKey(i as u64))
                && self.vertex_geometry(VertexKey(i as u64)) == #[trigger] vertices[i]
        &&& forall|j: int|
            0 <= j < polygons.len() ==> self@.faces.contains_key(FaceKey(j as u64))
                && polygon_perimeter(#[trigger] polygons[j], vertices.len()) is Some
                && self@.ring_of(FaceKey(j as u64)) == perimeter_arcs(
                polygon_perimeter(polygons[j], vertices.len())->0,
            ) && (shapes matches Some(shapes) ==> self.face_geometry(FaceKey( j as u64, )) == shapes[j])
    }

    /// Inserts the given vertices into an empty graph.
    fn with_vertex_buffer(vertices: Vec<G::Vertex>) -> (graph: Self)
        ensures
            graph@ == with_vertices(vertices@.len()),
            graph@.consistent(),
            graph.storage().vertices.issued() == vertices@.len(),
            graph.storage().faces.issued() == 0,
            graph@.vertices.dom().len() == vertices@.len(),
            graph@.faces.dom() == Set::<FaceKey>::empty(),
            graph@.arcs.dom() == Set::<ArcKey>::empty(),
            graph@.edges.dom() == Set::<EdgeKey>::empty(),
            forall|key: VertexKey| graph@.vertices.contains_key(key) <==> key.0 < vertices@.len(),
            forall|i: int|
                0 <= i < vertices@.len() ==> graph.vertex_geometry(VertexKey( i as u64, )) == #[trigger] vertices@[i],
    {
        let mut graph = MeshGraph::new();
        let ghost all = vertices@;
        let mut reversed = reversed(vertices);
        graph.consistency();
        while reversed.len() > 0
            invariant
                reversed@.len() <= all.len(),
                forall|i: int|
                    0 <= i < reversed@.len() ==> reversed@[i] == all[all.len() - 1 - i],
                graph@ == with_vertices((all.len() - reversed@.len()) as nat),
                graph@.consistent(),
                graph.storage().vertices.issued() == all.len() - reversed@.len(),
                graph.storage().faces.issued() == 0,
                graph@.faces.dom() =~= Set::<FaceKey>::empty(),
                graph@.arcs.dom() =~= Set::<ArcKey>::empty(),
                graph@.edges.dom() =~= Set::<EdgeKey>::empty(),
                graph@.vertices.dom().finite(),
                graph@.vertices.dom().len() == all.len() - reversed@.len(),
                forall|key: VertexKey|
                    graph@.vertices.contains_key(key) <==> key.0 < all.len() - reversed@.len(),
                forall|i: int|
                    0 <= i < all.len() - reversed@.len() ==> graph.vertex_geometry(VertexKey( i as u64, )) == #[trigger] all[i],
            decreases reversed@.len(),
        {
            let geometry = reversed.pop().unwrap();
            let key = graph.insert_vertex(geometry);
        }
        graph
    }

    /// Inserts the face that a polygon of indices names among the vertices
    /// of the graph, which are the first `count` vertex keys.
    fn insert_polygon(&mut self, polygon: &Vec<u64>, count: usize, geometry: G::Face) -> (key:
        Result<FaceKey, GraphError>)
        requires
            forall|key: VertexKey| old(self)@.vertices.contains_key(key) <==> key.0 < count,
        ensures
            final(self)@.consistent(),
            match key {
                Ok(key) => {
                    &&& polygon_perimeter(polygon@, count as nat) matches Some(perimeter)
                    &&& key.0 == old(self).storage().faces.issued()
                    &&& final(self).storage().faces.issued() == old(self).storage().faces.issued()
                        + 1
                    &&& Ok::<Topology, GraphError>(final(self)@) == with_polygon(
                        old(self)@,
                        polygon@,
                        None,
                        count as nat,
                        key,
                    )
                    &&& final(self)@.is_face_ring(key, perimeter_arcs(perimeter))
                    &&& final(self)@.vertices.dom() == old(self)@.vertices.dom()
                    &&& final(self)@.faces.dom() == old(self)@.faces.dom().insert(key)
                    &&& final(self).face_geometry(key) == geometry
                    &&& final(self).storage().extends(&old(self).storage())
                    &&& final(self).storage().furnishes(&old(self).storage())
                    &&& forall|other: FaceKey, ring: Seq<ArcKey>|
                        old(self)@.faces.contains_key(other) && #[trigger] old(
                            self,
                        )@.is_face_ring(other, ring) ==> final(self)@.is_face_ring(other, ring)
                },
                Err(error) => {
                    &&& *final(self) == *old(self)
                    &&& forall|face: FaceKey|
                        Err::<Topology, GraphError>(error) == #[trigger] with_polygon(
                            old(self)@,
                            polygon@,
                            None,
                            count as nat,
                            face,
                        )
                },
            },
    {
        self.consistency();
        let mut keys: Vec<VertexKey> = Vec::new();
        let mut i: usize = 0;
        while i < polygon.len()
            invariant
                i <= polygon@.len(),
                *self == *old(self),
                self@.consistent(),
                keys@.len() == i,
                forall|j: int| 0 <= j < i ==> #[trigger] polygon@[j] < count,
                forall|j: int| 0 <= j < i ==> keys@[j] == VertexKey(#[trigger] polygon@[j]),
            decreases polygon@.len() - i,
        {
            let raw = polygon[i];
            let found = match index_of(raw) {
                Some(index) => index < count,
                None => false,
            };
            if !found {
                return Err(GraphError::TopologyNotFound);
            }
            keys.push(VertexKey(raw));
            i = i + 1;
        }
        let perimeter = perimeter_of(keys.as_slice());
        let ghost around = held_perimeter(perimeter);
        proof {
            assert(around =~= polygon_perimeter(polygon@, count as nat)->0);
        }
        let ghost before = *self;
        let key = self.insert_face(perimeter_as_slice(&perimeter), geometry);
        proof {
            if key is Ok {
                let face = key->Ok_0;
                before@.lemma_with_face_around_keeps(face, around);
            }
        }
        key
    }

    /// Inserts the given vertices and then the faces that the polygons name,
    /// in order, each with the geometry given for it or else with the default
    /// geometry.
    fn load(
        polygons: Vec<Vec<u64>>,
        vertices: Vec<G::Vertex>,
        arity: Option<usize>,
        surfaces: Option<Vec<G::Face>>,
    ) -> (graph: Result<Self, GraphError>)
        requires
            surfaces matches Some(surfaces) ==> surfaces@.len() == polygons@.len(),
        ensures
            match graph {
                Ok(graph) => graph.loaded_with(
                    vertices@,
                    views(polygons@),
                    arity,
                    match surfaces {
                        Some(surfaces) => Some(surfaces@),
                        None => None,
                    },
                ),
                Err(error) => with_polygons(
                    with_vertices(vertices@.len()),
                    views(polygons@),
                    arity,
                    vertices@.len(),
                    polygons@.len(),
                ) == Err::<Topology, GraphError>(error),
            },
    {
        let count = vertices.len();
        let ghost geometry = vertices@;
        let ghost shapes = views(polygons@);
        let ghost empty = with_vertices(count as nat);
        let mut graph = Self::with_vertex_buffer(vertices);
        let ghost bare = graph;
        let ghost given = if surfaces is Some {
            Some(surfaces->0@)
        } else {
            None
        };
        let mut stack = match surfaces {
            Some(surfaces) => Some(reversed(surfaces)),
            None => None,
        };
        let mut j: usize = 0;
        while j < polygons.len()
            invariant
                j <= polygons@.len(),
                shapes == views(polygons@),
                geometry == vertices@,
                geometry.len() == count,
                empty == with_vertices(count as nat),
                graph@.consistent(),
                given is Some == stack is Some,
                given matches Some(given) ==> {
                    &&& given.len() == polygons@.len()
                    &&& stack->0@.len() == polygons@.len() - j
                    &&& forall|i: int|
                        0 <= i < stack->0@.len() ==> stack->0@[i] == given[given.len() - 1 - i]
                    &&& forall|i: int|
                        0 <= i < j ==> graph.face_geometry(FaceKey(i as u64))
                            == #[trigger] given[i]
                },
                Ok::<Topology, GraphError>(graph@) == with_polygons(
                    empty,
                    shapes,
                    arity,
                    count as nat,
                    j as nat,
                ),
                graph.storage().faces.issued() == j,
                graph@.faces.dom().finite(),
                graph@.faces.dom().len() == j,
                graph@.vertices.dom().len() == count,
                forall|key: VertexKey| graph@.vertices.contains_key(key) <==> key.0 < count,
                forall|key: FaceKey| graph@.faces.contains_key(key) <==> key.0 < j,
                bare@.arcs.dom() == Set::<ArcKey>::empty(),
                bare@.edges.dom() == Set::<EdgeKey>::empty(),
                graph.storage().furnishes(&bare.storage()),
                given is None ==> forall|face: FaceKey|
                    graph@.faces.contains_key(face) ==> is_default(
                        #[trigger] graph.face_geometry(face),
                    ),
                forall|i: int|
                    0 <= i < count ==> graph.vertex_geometry(VertexKey(i as u64))
                        == #[trigger] geometry[i],
                forall|i: int|
                    0 <= i < j ==> graph@.faces.contains_key(FaceKey(i as u64))
                        && polygon_perimeter(#[trigger] shapes[i], count as nat) is Some
                        && graph@.is_face_ring(
                        FaceKey(i as u64),
                        perimeter_arcs(polygon_perimeter(shapes[i], count as nat)->0),
                    ),
            decreases polygons@.len() - j,
        {
            let polygon = &polygons[j];
            let ghost before = graph;
            if let Some(expected) = arity {
                if polygon.len() != expected {
                    proof {
                        lemma_polygons_fail(
                            empty,
                            shapes,
                            arity,
                            count as nat,
                            (j + 1) as nat,
                            polygons@.len(),
                        );
                    }
                    return Err(GraphError::ArityConflict { expected, actual: polygon.len() });
                }
            }
            let surface = match &mut stack {
                Some(stack) => stack.pop().unwrap(),
                None => Default::default(),
            };
            let ghost shape = surface;
            assert(given is None ==> is_default(shape));
            match graph.insert_polygon(polygon, count, surface) {
                Ok(key) => {
                    proof {
                        if given is Some {
                            assert forall|i: int| 0 <= i < j + 1 implies graph.face_geometry(FaceKey( i as u64, )) == #[trigger] (given->0)[i] by {
                                if i < j {
                                    assert(polygon_perimeter(shapes[i], count as nat) is Some);
                                }
                            }
                        }
                        before.storage().faces.lemma_keys_issued();
                        graph.storage().lemma_furnishes(&before.storage(), &bare.storage());
                        if given is None {
                            assert forall|face: FaceKey|
                                graph@.faces.contains_key(face) implies is_default(
                                #[trigger] graph.face_geometry(face),
                            ) by {
                                if face != key {
                                    assert(before@.faces.dom().contains(face));
                                    assert(before.storage().faces@.contains_key(face));
                                    assert(is_default(before.face_geometry(face)));
                                } else {
                                    assert(graph.face_geometry(key) == shape);
                                }
                            }
                        }
                        assert forall|i: int|
                            0 <= i < count implies graph.vertex_geometry(VertexKey( i as u64, )) == #[trigger] geometry[i] by {
                            assert(before@.vertices.contains_key(VertexKey(i as u64)));
                        }
                    }
                },
                Err(error) => {
                    proof {
                        lemma_polygons_fail(
                            empty,
                            shapes,
                            arity,
                            count as nat,
                            (j + 1) as nat,
                            polygons@.len(),
                        );
                    }
                    return Err(error);
                },
            }
            j = j + 1;
        }
        proof {
            lemma_with_polygons(shapes, arity, count as nat, shapes.len());
            assert forall|arc: ArcKey| graph@.arcs.contains_key(arc) implies is_default(
                #[trigger] graph.arc_geometry(arc),
            ) by {
                assert(!bare@.arcs.dom().contains(arc));
                assert(graph.storage().arcs@.contains_key(arc));
                assert(!bare.storage().arcs@.contains_key(arc));
            }
            assert forall|edge: EdgeKey| graph@.edges.contains_key(edge) implies is_default(
                #[trigger] graph.edge_geometry(edge),
            ) by {
                assert(!bare@.edges.dom().contains(edge));
                assert(graph.storage().edges@.contains_key(edge));
                assert(!bare.storage().edges@.contains_key(edge));
            }
            assert forall|i: int| 0 <= i < shapes.len() implies graph@.faces.contains_key(
                FaceKey(i as u64),
            ) && polygon_perimeter(#[trigger] shapes[i], count as nat) is Some && graph@.ring_of(
                FaceKey(i as u64),
            ) == perimeter_arcs(polygon_perimeter(shapes[i], count as nat)->0) && (
            given matches Some(given) ==> graph.face_geometry(FaceKey(i as u64))
                == given[i]) by {
                graph@.lemma_ring_unique(
                    FaceKey(i as u64),
                    perimeter_arcs(polygon_perimeter(shapes[i], count as nat)->0),
                );
            }
        }
        Ok(graph)
    }

    /// Creates a graph from raw buffers: a vertex for each geometry, in
    /// order, and a face for each polygon, in order, over the vertices that
    /// the indices of the polygon name.
    ///
    /// # Errors
    ///
    /// Returns the error of the first polygon that is refused: one with an
    /// index that names no vertex, or one that the graph of the polygons
    /// before it does not admit as a face.
    pub fn from_raw_buffers(indices: Vec<Vec<u64>>, vertices: Vec<G::Vertex>) -> (graph: Result<
        Self,
        GraphError,
    >)
        ensures
            match graph {
                Ok(graph) => graph.loaded_from(vertices@, views(indices@), None),
                Err(error) => with_polygons(
                    with_vertices(vertices@.len()),
                    views(indices@),
                    None,
                    vertices@.len(),
                    indices@.len(),
                ) == Err::<Topology, GraphError>(error),
            },
    {
        Self::load(indices, vertices, None, None)
    }

    /// Creates a graph from vertices and faces that come with their
    /// geometry: a vertex for each geometry, in order, and a face for each
    /// polygon, in order, over the vertices that the indices of the polygon
    /// name and with the geometry given with the polygon.
    ///
    /// # Errors
    ///
    /// Returns the error of the first polygon that is refused: one with an
    /// index that names no vertex, or one that the graph of the polygons
    /// before it does not admit as a face.
    pub fn from_encoding(vertices: Vec<G::Vertex>, faces: Vec<(Vec<u64>, G::Face)>) -> (graph:
        Result<Self, GraphError>)
        ensures
            match graph {
                Ok(graph) => graph.loaded_with(
                    vertices@,
                    polygons_of(faces@),
                    None,
                    Some(shapes_of(faces@)),
                ),
                Err(error) => with_polygons(
                    with_vertices(vertices@.len()),
                    polygons_of(faces@),
                    None,
                    vertices@.len(),
                    faces@.len(),
                ) == Err::<Topology, GraphError>(error),
            },
    {
        let ghost all = faces@;
        let mut stack = reversed(faces);
        let mut polygons: Vec<Vec<u64>> = Vec::new();
        let mut shapes: Vec<G::Face> = Vec::new();
        while stack.len() > 0
            invariant
                stack@.len() + polygons@.len() == all.len(),
                polygons@.len() == shapes@.len(),
                forall|i: int| 0 <= i < stack@.len() ==> stack@[i] == all[all.len() - 1 - i],
                forall|i: int| 0 <= i < polygons@.len() ==> (#[trigger] polygons@[i])@ == all[i].0@,
                forall|i: int| 0 <= i < shapes@.len() ==> #[trigger] shapes@[i] == all[i].1,
            decreases stack@.len(),
        {
            let (polygon, shape) = stack.pop().unwrap();
            polygons.push(polygon);
            shapes.push(shape);
        }
        proof {
            assert(views(polygons@) =~= polygons_of(all));
            assert(shapes@ =~= shapes_of(all));
        }
        Self::load(polygons, vertices, None, Some(shapes))
    }

    /// Creates a graph from raw index and vertex buffers. The arity of the
    /// polygons in the index buffer must be known and constant: the buffer
    /// is cut into polygons of `arity` indices.
    ///
    /// # Errors
    ///
    /// Returns an error if the arity is less than three, if the length of
    /// the index buffer is not a multiple of the arity, if an index names no
    /// vertex, or if the graph does not admit a polygon as a face. The
    /// polygons are taken in order, and the first that is refused gives the
    /// error.
    pub fn from_raw_buffers_with_arity(indices: Vec<u64>, vertices: Vec<G::Vertex>, arity: usize) -> (graph:
        Result<Self, GraphError>)
        ensures
            match graph {
                Ok(graph) => 3 <= arity && graph.loaded_from(
                    vertices@,
                    flat_polygons(indices@, arity as nat),
                    Some(arity),
                ),
                Err(error) => if arity < 3 {
                    error == GraphError::ArityNonPolygonal
                } else {
                    with_polygons(
                        with_vertices(vertices@.len()),
                        flat_polygons(indices@, arity as nat),
                        Some(arity),
                        vertices@.len(),
                        flat_polygons(indices@, arity as nat).len(),
                    ) == Err::<Topology, GraphError>(error)
                },
            },
    {
        if arity < 3 {
            return Err(GraphError::ArityNonPolygonal);
        }
        let polygons = chunks_of(&indices, arity);
        proof {
            assert(views(polygons@) =~= flat_polygons(indices@, arity as nat));
        }
        Self::load(polygons, vertices, Some(arity), None)
    }

    /// What `arity` says of the faces of the graph: that all of them have
    /// the one arity, or that the least and the greatest of their arities
    /// are the two that it names.
    pub open spec fn has_arity(&self, arity: Arity) -> bool {
        match arity {
            Arity::Uniform(uniform) => {
                &&& forall|face: FaceKey| #[trigger]
                    self@.faces.contains_key(face) ==> self@.ring_of(face).len() == uniform
                &&& uniform == 0 <==> self@.faces.dom().len() == 0
            },
            Arity::NonUniform(least, greatest) => {
                &&& least < greatest
                &&& forall|face: FaceKey| #[trigger]
                    self@.faces.contains_key(face) ==> least <= self@.ring_of(face).len()
                        <= greatest
                &&& exists|face: FaceKey| #[trigger]
                    self@.faces.contains_key(face) && self@.ring_of(face).len() == least
                &&& exists|face: FaceKey| #[trigger]
                    self@.faces.contains_key(face) && self@.ring_of(face).len() == greatest
            },
        }
    }

    /// Some face of the graph has the arity.
    pub open spec fn is_face_arity(&self, arity: usize) -> bool {
        exists|face: FaceKey| #[trigger]
            self@.faces.contains_key(face) && self@.ring_of(face).len() == arity
    }

    /// The numbers are the arities of the faces of the graph: each face
    /// has one of them, and each of them is that of a face.
    pub open spec fn has_arities(&self, arities: Seq<usize>) -> bool {
        &&& arities.len() == self@.faces.dom().len()
        &&& forall|face: FaceKey| #[trigger]
            self@.faces.contains_key(face) ==> arities.contains(
                self@.ring_of(face).len() as usize,
            ) && self@.ring_of(face).len() <= usize::MAX
        &&& forall|j: int| 0 <= j < arities.len() ==> self.is_face_arity(#[trigger] arities[j])
    }

    /// Gets the arities of the faces of the graph, in the order of the keys
    /// of the faces.
    pub fn face_arities(&self) -> (arities: Vec<usize>)
        ensures
            self.has_arities(arities@),
    {
        let faces = self.faces();
        let mut arities: Vec<usize> = Vec::new();
        let mut i: usize = 0;
        while i < faces.len()
            invariant
                i <= faces@.len(),
                arities@.len() == i,
                forall|j: int| 0 <= j < faces@.len() ==> *(#[trigger] faces@[j]).storage() == *self,
                forall|j: int|
                    0 <= j < i ==> #[trigger] arities@[j] == self@.ring_of(faces@[j].key()).len(),
            decreases faces@.len() - i,
        {
            let arity = faces[i].arity();
            arities.push(arity);
            i = i + 1;
        }
        proof {
            assert forall|face: FaceKey| #[trigger] self@.faces.contains_key(face) implies arities@.contains(
                self@.ring_of(face).len() as usize,
            ) && self@.ring_of(face).len() <= usize::MAX by {
                let j = choose|j: int| 0 <= j < faces@.len() && (#[trigger] faces@[j]).key() == face;
                assert(arities@[j] == self@.ring_of(face).len());
            }
        }
        arities
    }

    /// Gets the arity of the graph.
    ///
    /// If all faces in the graph have the same arity, then `Arity::Uniform`
    /// is returned with the singular arity of the graph. If the graph
    /// contains faces with differing arity, then `Arity::NonUniform` is
    /// returned with the minimum and maximum arity.
    ///
    /// `Arity::Uniform` is returned with zero if there are no faces in the
    /// graph.
    pub fn arity(&self) -> (arity: Arity)
        ensures
            self.has_arity(arity),
    {
        self.consistency();
        let arities = self.face_arities();
        let extent = minmax_of(&arities);
        let arity = arity_of_extent(extent);
        proof {
            self.lemma_arity(arities@, extent);
        }
        arity
    }

    /// The arity that the least and the greatest of the arities of the faces
    /// give is that of the graph.
    pub proof fn lemma_arity(&self, arities: Seq<usize>, extent: Extent)
        requires
            self@.consistent(),
            self.has_arities(arities),
            is_extent_of(extent, arities),
        ensures
            self.has_arity(
                match extent {
                    Extent::NoElements => Arity::Uniform(0),
                    Extent::OneElement(only) => Arity::Uniform(only),
                    Extent::MinMax(least, greatest) => if least == greatest {
                        Arity::Uniform(least)
                    } else {
                        Arity::NonUniform(least, greatest)
                    },
                },
            ),
    {
        assert forall|face: FaceKey| #[trigger] self@.faces.contains_key(face) implies self@.ring_of(
            face,
        ).len() >= 3 by {
            self@.lemma_face(face);
        }
        if let Extent::MinMax(least, greatest) = extent {
            let a = choose|a: int| 0 <= a < arities.len() && arities[a] == least;
            let b = choose|b: int| 0 <= b < arities.len() && arities[b] == greatest;
            assert(self.is_face_arity(arities[a]) && self.is_face_arity(arities[b]));
        }
    }
}

/// A face as a polygon of indices into a buffer of vertices.
pub struct IndexedFace {
    pub face: FaceKey,
    pub indices: Vec<usize>,
}

/// A face as the polygon of its vertices.
pub struct KeyedFace {
    pub face: FaceKey,
    pub vertices: Vec<VertexKey>,
}

/// A graph as raw buffers: its vertices in order, and each face as a
/// polygon of indices into the vertices.
pub struct RawBuffers {
    pub vertices: Vec<VertexKey>,
    pub faces: Vec<IndexedFace>,
}

impl<G: GraphGeometry> MeshGraph<G> {
    /// The polygon is that of a face of the graph with the given arity: its
    /// indices name the vertices of the ring of the face, in order.
    pub open spec fn is_indexed_face(
        &self,
        polygon: IndexedFace,
        vertices: Seq<VertexKey>,
        arity: usize,
    ) -> bool {
        let ring = ring_vertices(self@.ring_of(polygon.face));
        &&& self@.faces.contains_key(polygon.face)
        &&& polygon.indices@.len() == arity
        &&& ring.len() == arity
        &&& forall|k: int|
            0 <= k < arity ==> 0 <= #[trigger] polygon.indices@[k] < vertices.len()
                && vertices[polygon.indices@[k] as int] == ring[k]
    }

    /// The buffers hold the graph: every vertex once, and every face once as
    /// a polygon of the given arity.
    pub open spec fn held_by(&self, buffers: RawBuffers, arity: usize) -> bool {
        &&& in_issue_order(buffers.vertices@, self@.vertices.dom())
        &&& buffers.faces@.len() == self@.faces.dom().len()
        &&& forall|j: int|
            0 <= j < buffers.faces@.len() ==> self.is_indexed_face(
                #[trigger] buffers.faces@[j],
                buffers.vertices@,
                arity,
            )
        &&& forall|a: int, b: int|
            0 <= a < b < buffers.faces@.len() ==> (#[trigger] buffers.faces@[a]).face.0 < (
            #[trigger] buffers.faces@[b]).face.0
    }

    /// Some face of the graph has not the arity that is expected, and the
    /// error names that arity and the arity of the first such face, in the
    /// order of the keys.
    pub open spec fn conflicts_with(&self, error: GraphError, expected: usize) -> bool {
        exists|face: FaceKey|
            {
                &&& #[trigger] self@.faces.contains_key(face)
                &&& self@.ring_of(face).len() != expected
                &&& error == (GraphError::ArityConflict {
                    expected,
                    actual: self@.ring_of(face).len() as usize,
                })
                &&& forall|earlier: FaceKey|
                    earlier.0 < face.0 && #[trigger] self@.faces.contains_key(earlier)
                        ==> self@.ring_of(earlier).len() == expected
            }
    }

    /// Reads the graph as raw buffers: its vertices, in the order of their
    /// keys, and its faces, in the order of their keys, each as a polygon of
    /// indices into the vertices. The geometry of a vertex is found under its
    /// key.
    ///
    /// # Errors
    ///
    /// Returns an error if a face has not the given arity. Typically, a
    /// graph is triangulated before it is read as buffers.
    pub fn to_mesh_buffer_by_vertex(&self, arity: usize) -> (buffers: Result<
        RawBuffers,
        GraphError,
    >)
        ensures
            match buffers {
                Ok(buffers) => self.held_by(buffers, arity),
                Err(error) => self.conflicts_with(error, arity),
            },
    {
        self.consistency();
        let core = self.binder();
        let keys = self.vertex_keys();
        let mut positions: HashMap<u64, usize> = HashMap::with_capacity(keys.len());
        let mut n: usize = 0;
        while n < keys.len()
            invariant
                n <= keys@.len(),
                in_issue_order(keys@, self@.vertices.dom()),
                forall|m: int|
                    0 <= m < n ==> positions@.contains_key((#[trigger] keys@[m]).0)
                        && positions@[keys@[m].0] == m,
            decreases keys@.len() - n,
        {
            let key = keys[n];
            positions.insert(key.0, n);
            n = n + 1;
        }
        let faces = self.faces();
        let mut polygons: Vec<IndexedFace> = Vec::new();
        let mut j: usize = 0;
        while j < faces.len()
            invariant
                j <= faces@.len(),
                self@.consistent(),
                *core == self.storage(),
                in_issue_order(keys@, self@.vertices.dom()),
                forall|m: int|
                    0 <= m < keys@.len() ==> positions@.contains_key((#[trigger] keys@[m]).0)
                        && positions@[keys@[m].0] == m,
                polygons@.len() == j,
                forall|i: int| 0 <= i < faces@.len() ==> *(#[trigger] faces@[i]).storage() == *self,
                forall|i: int|
                    0 <= i < faces@.len() ==> self@.faces.contains_key((#[trigger] faces@[i]).key()),
                forall|i: int| 0 <= i < j ==> (#[trigger] polygons@[i]).face == faces@[i].key(),
                forall|i: int|
                    0 <= i < j ==> self.is_indexed_face(#[trigger] polygons@[i], keys@, arity),
                forall|a: int, b: int|
                    0 <= a < b < faces@.len() ==> (#[trigger] faces@[a]).key().0 < (
                    #[trigger] faces@[b]).key().0,
                forall|key: FaceKey|
                    self@.faces.contains_key(key) ==> exists|i: int|
                        0 <= i < faces@.len() && (#[trigger] faces@[i]).key() == key,
            decreases faces@.len() - j,
        {
            let face = &faces[j];
            let ring = face.vertices();
            if ring.len() != arity {
                proof {
                    let first = face.key();
                    assert forall|earlier: FaceKey|
                        earlier.0 < first.0 && #[trigger] self@.faces.contains_key(
                            earlier,
                        ) implies self@.ring_of(earlier).len() == arity by {
                        let i = choose|i: int|
                            0 <= i < faces@.len() && (#[trigger] faces@[i]).key() == earlier;
                        if i > j {
                            assert(faces@[j as int].key().0 < faces@[i].key().0);
                        }
                        assert(self.is_indexed_face(polygons@[i], keys@, arity));
                    }
                }
                return Err(GraphError::ArityConflict { expected: arity, actual: ring.len() });
            }
            let ghost arcs = self@.ring_of(face.key());
            proof {
                self@.lemma_face(face.key());
            }
            let mut indices: Vec<usize> = Vec::new();
            let mut k: usize = 0;
            while k < ring.len()
                invariant
                    k <= ring@.len(),
                    ring@ == ring_vertices(arcs),
                    self@.consistent(),
                    self@.is_ring(arcs),
                    *core == self.storage(),
                    in_issue_order(keys@, self@.vertices.dom()),
                    forall|m: int|
                        0 <= m < keys@.len() ==> positions@.contains_key((#[trigger] keys@[m]).0)
                            && positions@[keys@[m].0] == m,
                    indices@.len() == k,
                    forall|i: int|
                        0 <= i < k ==> 0 <= #[trigger] indices@[i] < keys@.len()
                            && keys@[indices@[i] as int] == ring@[i],
                decreases ring@.len() - k,
            {
                let vertex = ring[k];
                proof {
                    assert(self@.ring_step(arcs, k as int));
                    self@.lemma_arc_ends(arcs[k as int]);
                    assert(keys@.to_set().contains(vertex));
                    let m = choose|m: int| 0 <= m < keys@.len() && keys@[m] == vertex;
                    assert(positions@[keys@[m].0] == m);
                }
                let position = *positions.get(&vertex.0).unwrap();
                indices.push(position);
                k = k + 1;
            }
            polygons.push(IndexedFace { face: face.key(), indices });
            j = j + 1;
        }
        Ok(RawBuffers { vertices: keys, faces: polygons })
    }

    /// The polygon is that of a face of the graph with the given arity: the
    /// vertices of the ring of the face, in order.
    pub open spec fn is_keyed_face(&self, polygon: KeyedFace, arity: usize) -> bool {
        &&& self@.faces.contains_key(polygon.face)
        &&& polygon.vertices@.len() == arity
        &&& polygon.vertices@ == ring_vertices(self@.ring_of(polygon.face))
    }

    /// Reads the graph face by face: its faces, in the order of their keys,
    /// each with the vertices of its ring. A vertex occurs once for each face
    /// that it belongs to.
    ///
    /// # Errors
    ///
    /// Returns an error if a face has not the given arity. Typically, a
    /// graph is triangulated before it is read as buffers.
    pub fn to_mesh_buffer_by_face(&self, arity: usize) -> (polygons: Result<
        Vec<KeyedFace>,
        GraphError,
    >)
        ensures
            match polygons {
                Ok(polygons) => {
                    &&& polygons@.len() == self@.faces.dom().len()
                    &&& forall|j: int|
                        0 <= j < polygons@.len() ==> self.is_keyed_face(
                            #[trigger] polygons@[j],
                            arity,
                        )
                    &&& forall|a: int, b: int|
                        0 <= a < b < polygons@.len() ==> (#[trigger] polygons@[a]).face.0 < (
                        #[trigger] polygons@[b]).face.0
                },
                Err(error) => self.conflicts_with(error, arity),
            },
    {
        let faces = self.faces();
        let mut polygons: Vec<KeyedFace> = Vec::new();
        let mut j: usize = 0;
        while j < faces.len()
            invariant
                j <= faces@.len(),
                polygons@.len() == j,
                forall|i: int| 0 <= i < faces@.len() ==> *(#[trigger] faces@[i]).storage() == *self,
                forall|i: int|
                    0 <= i < faces@.len() ==> self@.faces.contains_key((#[trigger] faces@[i]).key()),
                forall|i: int| 0 <= i < j ==> (#[trigger] polygons@[i]).face == faces@[i].key(),
                forall|i: int| 0 <= i < j ==> self.is_keyed_face(#[trigger] polygons@[i], arity),
                forall|a: int, b: int|
                    0 <= a < b < faces@.len() ==> (#[trigger] faces@[a]).key().0 < (
                    #[trigger] faces@[b]).key().0,
                forall|key: FaceKey|
                    self@.faces.contains_key(key) ==> exists|i: int|
                        0 <= i < faces@.len() && (#[trigger] faces@[i]).key() == key,
            decreases faces@.len() - j,
        {
            let face = &faces[j];
            let ring = face.vertices();
            if ring.len() != arity {
                proof {
                    let first = face.key();
                    assert forall|earlier: FaceKey|
                        earlier.0 < first.0 && #[trigger] self@.faces.contains_key(
                            earlier,
                        ) implies self@.ring_of(earlier).len() == arity by {
                        let i = choose|i: int|
                            0 <= i < faces@.len() && (#[trigger] faces@[i]).key() == earlier;
                        if i > j {
                            assert(faces@[j as int].key().0 < faces@[i].key().0);
                        }
                        assert(self.is_keyed_face(polygons@[i], arity));
                    }
                }
                return Err(GraphError::ArityConflict { expected: arity, actual: ring.len() });
            }
            polygons.push(KeyedFace { face: face.key(), vertices: ring });
            j = j + 1;
        }
        Ok(polygons)
    }
}

/// A graph that is built from buffers reads back as the buffers: it has as
/// many vertices as the vertex buffer, each with its geometry, and as many
/// faces as there are polygons, and the vertices around each face, from its
/// leading arc on, are those that the indices of its polygon name, in the
/// same order.
pub proof fn lemma_round_trip<G: GraphGeometry>(
    graph: MeshGraph<G>,
    vertices: Seq<G::Vertex>,
    polygons: Seq<Seq<u64>>,
    arity: Option<usize>,
)
    requires
        graph.loaded_from(vertices, polygons, arity),
    ensures
        graph@.vertices.dom().len() == vertices.len(),
        graph@.faces.dom().len() == polygons.len(),
        forall|i: int|
            0 <= i < vertices.len() ==> graph.vertex_geometry(VertexKey(i as u64))
                == #[trigger] vertices[i],
        forall|j: int|
            0 <= j < polygons.len() ==> ring_vertices(graph@.ring_of(FaceKey(j as u64)))
                == Seq::new((#[trigger] polygons[j]).len(), |k: int| VertexKey(polygons[j][k])),
{
    assert forall|j: int| 0 <= j < polygons.len() implies ring_vertices(
        graph@.ring_of(FaceKey(j as u64)),
    ) == Seq::new((#[trigger] polygons[j]).len(), |k: int| VertexKey(polygons[j][k])) by {
    }
}

/// The graph of `count` vertices without arcs is consistent and holds the
/// first `count` vertex keys and nothing else.
pub proof fn lemma_with_vertices(count: nat)
    requires
        count <= u64::MAX,
    ensures
        with_vertices(count).consistent(),
        with_vertices(count).faces.dom() == Set::<FaceKey>::empty(),
        forall|key: VertexKey| #[trigger]
            with_vertices(count).vertices.contains_key(key) <==> key.0 < count,
    decreases count,
{
    if count == 0 {
        Topology::lemma_empty_consistent();
        assert(with_vertices(count).faces.dom() =~= Set::<FaceKey>::empty());
    } else {
        let earlier = with_vertices((count - 1) as nat);
        lemma_with_vertices((count - 1) as nat);
        earlier.lemma_with_vertex(VertexKey((count - 1) as u64));
    }
}

/// The graph that polygons were added to is consistent, has the vertices it
/// had, and has a face for each of the polygons, under the key that is the
/// place of the polygon.
pub proof fn lemma_with_polygons(polygons: Seq<Seq<u64>>, arity: Option<usize>, count: nat, done: nat)
    requires
        count <= u64::MAX,
        done <= u64::MAX,
        with_polygons(with_vertices(count), polygons, arity, count, done) is Ok,
    ensures
        ({
            let loaded = with_polygons(with_vertices(count), polygons, arity, count, done)->Ok_0;
            &&& loaded.consistent()
            &&& forall|key: VertexKey| #[trigger]
                loaded.vertices.contains_key(key) <==> key.0 < count
            &&& forall|key: FaceKey| #[trigger] loaded.faces.contains_key(key) <==> key.0 < done
            &&& forall|arc: ArcKey| #[trigger]
                loaded.arcs.contains_key(arc) <==> is_side(polygons, done, arc)
        }),
    decreases done,
{
    lemma_with_vertices(count);
    if done == 0 {
        assert(with_vertices(count).arcs.dom() =~= Set::<ArcKey>::empty()) by {
            lemma_with_vertices_bare(count);
        }
    }
    if done > 0 {
        let before = with_polygons(with_vertices(count), polygons, arity, count, (done - 1) as nat);
        lemma_with_polygons(polygons, arity, count, (done - 1) as nat);
        let earlier = before->Ok_0;
        let face = FaceKey((done - 1) as u64);
        let perimeter = polygon_perimeter(polygons[done - 1], count)->0;
        earlier.lemma_with_face_around(face, perimeter);
        let loaded = earlier.with_face_around(face, perimeter);
        assert forall|key: FaceKey| #[trigger] loaded.faces.contains_key(key) <==> key.0
            < done by {
            assert(loaded.faces.dom() =~= earlier.faces.dom().insert(face));
        }
        assert forall|key: VertexKey| #[trigger] loaded.vertices.contains_key(key) <==> key.0
            < count by {
            assert(earlier.vertices.dom().contains(key) == loaded.vertices.dom().contains(key));
        }
        let polygon = polygons[done - 1];
        assert forall|i: int| 0 <= i < polygon.len() implies perimeter_arc(perimeter, i)
            == #[trigger] polygon_side(polygon, i) by {}
        assert forall|arc: ArcKey| #[trigger] loaded.arcs.contains_key(arc) implies is_side(
            polygons,
            done,
            arc,
        ) by {
            if earlier.arcs.contains_key(arc) {
                assert(is_side(polygons, (done - 1) as nat, arc));
                let (j, i) = choose|j: int, i: int|
                    0 <= j < done - 1 && 0 <= i < polygons[j].len() && (arc
                        == #[trigger] polygon_side(polygons[j], i) || arc == polygon_side(
                        polygons[j],
                        i,
                    ).opposite());
                assert(arc == polygon_side(polygons[j], i) || arc == polygon_side(
                    polygons[j],
                    i,
                ).opposite());
            } else {
                let i = choose|i: int|
                    0 <= i < perimeter.len() && (arc == perimeter_arc(perimeter, i) || arc
                        == perimeter_arc(perimeter, i).opposite());
                assert(arc == polygon_side(polygons[done - 1], i) || arc == polygon_side(
                    polygons[done - 1],
                    i,
                ).opposite());
            }
        }
        assert forall|arc: ArcKey| is_side(polygons, done, arc) implies #[trigger]
            loaded.arcs.contains_key(arc) by {
            let (j, i) = choose|j: int, i: int|
                0 <= j < done && 0 <= i < polygons[j].len() && (arc == #[trigger] polygon_side(
                    polygons[j],
                    i,
                ) || arc == polygon_side(polygons[j], i).opposite());
            if j < done - 1 {
                assert(arc == polygon_side(polygons[j], i) || arc == polygon_side(
                    polygons[j],
                    i,
                ).opposite());
                assert(is_side(polygons, (done - 1) as nat, arc));
                assert(earlier.arcs.contains_key(arc));
            } else {
                let ring = perimeter_arcs(perimeter);
                assert(loaded.ring_step(ring, i));
                assert(ring[i] == polygon_side(polygon, i));
                loaded.lemma_opposite(polygon_side(polygon, i));
            }
        }
    }
}

/// The graph of `count` vertices without arcs has no arcs.
proof fn lemma_with_vertices_bare(count: nat)
    ensures
        with_vertices(count).arcs == Map::<ArcKey, crate::topology::ArcLinks>::empty(),
    decreases count,
{
    if count > 0 {
        lemma_with_vertices_bare((count - 1) as nat);
    }
}

/// An edge has two faces at most, also where the faces come from buffers:
/// if the polygons before the last one make a graph, and the last polygon,
/// which has the arity that is asked for and names three or more vertices of
/// the buffer, all different, runs along an arc that has a face in that
/// graph, the polygons make no graph, and the error is a conflict.
pub proof fn lemma_third_polygon_refused(
    polygons: Seq<Seq<u64>>,
    arity: Option<usize>,
    count: nat,
    i: int,
)
    requires
        count <= u64::MAX,
        0 < polygons.len() <= u64::MAX,
        with_polygons(
            with_vertices(count),
            polygons,
            arity,
            count,
            (polygons.len() - 1) as nat,
        ) is Ok,
        arity matches Some(arity) ==> polygons.last().len() == arity,
        polygon_perimeter(polygons.last(), count) is Some,
        polygons.last().len() >= 3,
        polygon_perimeter(polygons.last(), count)->0.no_duplicates(),
        0 <= i < polygons.last().len(),
        ({
            let earlier = with_polygons(
                with_vertices(count),
                polygons,
                arity,
                count,
                (polygons.len() - 1) as nat,
            )->Ok_0;
            let arc = perimeter_arc(polygon_perimeter(polygons.last(), count)->0, i);
            earlier.arcs.contains_key(arc) && !earlier.is_boundary(arc)
        }),
    ensures
        with_polygons(with_vertices(count), polygons, arity, count, polygons.len())
            == Err::<Topology, GraphError>(GraphError::TopologyConflict),
{
    let done = (polygons.len() - 1) as nat;
    let earlier = with_polygons(with_vertices(count), polygons, arity, count, done)->Ok_0;
    let perimeter = polygon_perimeter(polygons.last(), count)->0;
    lemma_with_polygons(polygons, arity, count, done);
    assert forall|j: int| 0 <= j < perimeter.len() implies earlier.vertices.contains_key(
        #[trigger] perimeter[j],
    ) by {
        assert(polygons.last()[j] < count);
    }
    lemma_third_face_refused(earlier, perimeter, i);
}

/// Once a polygon is refused, the polygons after it change nothing.
pub proof fn lemma_polygons_fail(
    topology: Topology,
    polygons: Seq<Seq<u64>>,
    arity: Option<usize>,
    count: nat,
    failed: nat,
    done: nat,
)
    requires
        failed <= done,
        with_polygons(topology, polygons, arity, count, failed) is Err,
    ensures
        with_polygons(topology, polygons, arity, count, done) == with_polygons(
            topology,
            polygons,
            arity,
            count,
            failed,
        ),
    decreases done,
{
    if failed < done {
        lemma_polygons_fail(topology, polygons, arity, count, failed, (done - 1) as nat);
    }
}

} // verus!
