use plexus::{
    Arity, ArcKey, ByIndex, ByKey, FaceKey, GraphError, GraphGeometry, MeshGraph, VertexKey,
};
use std::collections::HashMap;

type Point = [f64; 3];

struct Space;

impl GraphGeometry for Space {
    type Vertex = Point;
    type Arc = ();
    type Edge = ();
    type Face = ();
}

struct Valued;

impl GraphGeometry for Valued {
    type Vertex = Point;
    type Arc = ();
    type Edge = ();
    type Face = f64;
}

fn sphere_point(nu: usize, nv: usize, u: usize, v: usize) -> Point {
    if v == 0 {
        return [0.0, 1.0, 0.0];
    }
    if v == nv {
        return [0.0, -1.0, 0.0];
    }
    let u = u % nu;
    let theta = 2.0 * std::f64::consts::PI * (u as f64) / (nu as f64);
    let phi = std::f64::consts::PI * (v as f64) / (nv as f64);
    [theta.cos() * phi.sin(), phi.cos(), theta.sin() * phi.sin()]
}

/// The polygons of a sphere of `nu` meridians and `nv` parallels: triangles
/// at the poles and quadrilaterals between them.
fn sphere_polygons(nu: usize, nv: usize) -> Vec<Vec<Point>> {
    let mut polygons = Vec::new();
    for v in 0..nv {
        for u in 0..nu {
            let a = sphere_point(nu, nv, u, v);
            let b = sphere_point(nu, nv, u, v + 1);
            let c = sphere_point(nu, nv, u + 1, v + 1);
            let d = sphere_point(nu, nv, u + 1, v);
            if v == 0 {
                polygons.push(vec![a, b, c]);
            } else if v + 1 == nv {
                polygons.push(vec![a, b, d]);
            } else {
                polygons.push(vec![a, b, c, d]);
            }
        }
    }
    polygons
}

fn triangulated(polygons: Vec<Vec<Point>>) -> Vec<Vec<Point>> {
    let mut triangles = Vec::new();
    for polygon in polygons {
        for k in 1..polygon.len() - 1 {
            triangles.push(vec![polygon[0], polygon[k], polygon[k + 1]]);
        }
    }
    triangles
}

/// Gives each distinct position one index.
fn indexed(polygons: &[Vec<Point>]) -> (Vec<Vec<u64>>, Vec<Point>) {
    let mut positions = Vec::new();
    let mut found: HashMap<[u64; 3], u64> = HashMap::new();
    let mut indices = Vec::new();
    for polygon in polygons {
        let mut face = Vec::new();
        for point in polygon {
            let bits = [point[0].to_bits(), point[1].to_bits(), point[2].to_bits()];
            let index = *found.entry(bits).or_insert_with(|| {
                positions.push(*point);
                (positions.len() - 1) as u64
            });
            face.push(index);
        }
        indices.push(face);
    }
    (indices, positions)
}

fn sphere(nu: usize, nv: usize) -> MeshGraph<Space> {
    let (indices, positions) = indexed(&sphere_polygons(nu, nv));
    MeshGraph::from_raw_buffers(indices, positions).unwrap()
}

fn cube() -> MeshGraph<Space> {
    let positions = vec![
        [0.0, 0.0, 0.0],
        [1.0, 0.0, 0.0],
        [1.0, 1.0, 0.0],
        [0.0, 1.0, 0.0],
        [0.0, 0.0, 1.0],
        [1.0, 0.0, 1.0],
        [1.0, 1.0, 1.0],
        [0.0, 1.0, 1.0],
    ];
    let indices = vec![
        vec![0, 3, 2, 1],
        vec![4, 5, 6, 7],
        vec![0, 1, 5, 4],
        vec![1, 2, 6, 5],
        vec![2, 3, 7, 6],
        vec![3, 0, 4, 7],
    ];
    MeshGraph::from_raw_buffers(indices, positions).unwrap()
}

fn find_vertex<G: GraphGeometry<Vertex = Point>>(graph: &MeshGraph<G>, at: Point) -> Option<VertexKey> {
    graph
        .vertices()
        .into_iter()
        .find(|vertex| *vertex.geometry() == at)
        .map(|vertex| vertex.key())
}

fn find_arc_with_vertex_geometry<G: GraphGeometry<Vertex = Point>>(
    graph: &MeshGraph<G>,
    geometry: (Point, Point),
) -> Option<ArcKey> {
    let (source, destination) = geometry;
    let source = find_vertex(graph, source)?;
    let destination = graph.vertex(find_vertex(graph, destination)?)?;
    destination
        .incoming_arcs()
        .into_iter()
        .find(|arc| arc.source() == source)
}

fn quadrilateral() -> MeshGraph<Space> {
    MeshGraph::from_raw_buffers_with_arity(
        vec![0u64, 1, 2, 3],
        vec![
            [0.0, 0.0, 0.0],
            [1.0, 0.0, 0.0],
            [1.0, 1.0, 0.0],
            [0.0, 1.0, 0.0],
        ],
        4,
    )
    .unwrap()
}

#[test]
fn collect_topology_into_mesh() {
    // 6 triangles, 18 vertices.
    let graph = sphere(3, 2);

    assert_eq!(5, graph.vertex_count());
    assert_eq!(18, graph.arc_count());
    assert_eq!(6, graph.face_count());
}

#[test]
fn iterate_mesh_topology() {
    // 8 triangles, 24 vertices.
    let mut graph = sphere(4, 2);

    assert_eq!(6, graph.vertices().len());
    assert_eq!(24, graph.arcs().len());
    assert_eq!(8, graph.faces().len());
    for vertex in graph.vertices() {
        // Every vertex is connected to 4 triangles with 4 (incoming) arcs.
        // Traversal of topology should be possible.
        assert_eq!(4, vertex.incoming_arcs().len());
    }
    let mut orphans = graph.orphan_vertices();
    let mut seen = 0;
    while let Some(vertex) = orphans.next() {
        // Geometry should be mutable.
        let [x, y, z] = *vertex.geometry();
        vertex.replace([x + 0.0, y + 0.0, z + 0.0]);
        seen += 1;
    }
    assert_eq!(6, seen);
}

#[test]
fn non_manifold_error_deferred() {
    let (indices, positions) = indexed(&triangulated(sphere_polygons(32, 32)));
    let graph = MeshGraph::<Space>::from_raw_buffers(indices, positions).unwrap();
    // This conversion will join faces by a single vertex, but ultimately
    // creates a manifold.
    let faces = graph.to_mesh_buffer_by_face(3).unwrap();
    assert_eq!(graph.face_count(), faces.len());
}

#[test]
fn error_on_non_manifold_mesh() {
    // Construct a mesh with a "fan" of three triangles sharing the same
    // arc along the Z-axis. The edge would have three associated faces,
    // which should not be possible.
    let graph = MeshGraph::<Space>::from_raw_buffers_with_arity(
        vec![0u64, 1, 2, 0, 1, 3, 0, 1, 4],
        vec![
            [0.0, 0.0, 1.0],
            [0.0, 0.0, -1.0],
            [1.0, 0.0, 0.0],
            [0.0, 1.0, 0.0],
            [1.0, 1.0, 0.0],
        ],
        3,
    );

    assert_eq!(graph.err().unwrap(), GraphError::TopologyConflict);
}

// This test is a sanity check for mesh iterators, topological views, and
// the writing of geometry through orphan views.
#[test]
fn read_write_geometry_ref() {
    // Create a mesh with a floating point value associated with each face.
    // Use orphan views to write to the geometry of each face.
    let (indices, positions) = indexed(&sphere_polygons(4, 4));
    let mut graph = MeshGraph::<Valued>::from_raw_buffers(indices, positions).unwrap();
    let value = 3.14;
    let mut orphans = graph.orphan_faces();
    while let Some(face) = orphans.next() {
        face.replace(value);
    }

    // Read the geometry of each face using immutable views to ensure it is
    // what we expect.
    assert_eq!(16, graph.faces().len());
    for face in graph.faces() {
        assert_eq!(value, *face.geometry());
    }
}

#[test]
fn extrude_arc() {
    let mut graph = quadrilateral();
    let source =
        find_arc_with_vertex_geometry(&graph, ([1.0, 1.0, 0.0], [1.0, 0.0, 0.0])).unwrap();
    // The arc runs down the right side of the quadrilateral, and its normal
    // points to the right.
    graph
        .arc_mut(source)
        .unwrap()
        .extrude([2.0, 1.0, 0.0], [2.0, 0.0, 0.0])
        .unwrap();

    assert_eq!(14, graph.arc_count());
    assert_eq!(2, graph.face_count());
}

#[test]
fn bridge_arcs() {
    // Construct a mesh with two disjoint quadrilaterals.
    let mut graph = MeshGraph::<Space>::from_raw_buffers_with_arity(
        vec![0u64, 1, 2, 3, 4, 5, 6, 7],
        vec![
            [-2.0, 0.0, 0.0],
            [-1.0, 0.0, 0.0], // 1
            [-1.0, 1.0, 0.0], // 2
            [-2.0, 1.0, 0.0],
            [1.0, 0.0, 0.0], // 4
            [2.0, 0.0, 0.0],
            [2.0, 1.0, 0.0],
            [1.0, 1.0, 0.0], // 7
        ],
        4,
    )
    .unwrap();
    let source =
        find_arc_with_vertex_geometry(&graph, ([-1.0, 1.0, 0.0], [-1.0, 0.0, 0.0])).unwrap();
    let destination =
        find_arc_with_vertex_geometry(&graph, ([1.0, 0.0, 0.0], [1.0, 1.0, 0.0])).unwrap();
    graph
        .arc_mut(source)
        .unwrap()
        .bridge(ByKey(destination))
        .unwrap();

    assert_eq!(20, graph.arc_count());
    assert_eq!(3, graph.face_count());
}

#[test]
fn split_edge() {
    // 6 quadrilaterals, 24 vertices.
    let mut graph = cube();
    let key = graph.arcs()[0].key();
    let (a, b) = (key.source(), key.destination());
    let from = *graph.vertex(a).unwrap().geometry();
    let to = *graph.vertex(b).unwrap().geometry();
    let midpoint = [
        (from[0] + to[0]) / 2.0,
        (from[1] + to[1]) / 2.0,
        (from[2] + to[2]) / 2.0,
    ];
    let vertex = graph
        .arc_mut(key)
        .unwrap()
        .split_with(|| midpoint)
        .into_ref();

    assert_eq!(
        5,
        vertex
            .into_outgoing_edge()
            .unwrap()
            .into_face()
            .unwrap()
            .arity()
    );
    assert_eq!(
        5,
        vertex
            .into_outgoing_edge()
            .unwrap()
            .into_opposite_arc()
            .into_face()
            .unwrap()
            .arity()
    );
}

#[test]
fn remove_edge() {
    // Construct a graph with two connected quadrilaterals.
    let mut graph = MeshGraph::<Space>::from_raw_buffers_with_arity(
        vec![0u64, 1, 2, 3, 0, 3, 4, 5],
        vec![
            [0.0, 0.0, 0.0],  // 0
            [1.0, 0.0, 0.0],  // 1
            [1.0, 1.0, 0.0],  // 2
            [0.0, 1.0, 0.0],  // 3
            [-1.0, 1.0, 0.0], // 4
            [-1.0, 0.0, 0.0], // 5
        ],
        4,
    )
    .unwrap();

    // The graph should begin with 2 faces.
    assert_eq!(2, graph.face_count());

    // Remove the edge joining the quadrilaterals from the graph.
    let ab = find_arc_with_vertex_geometry(&graph, ([0.0, 0.0, 0.0], [0.0, 1.0, 0.0])).unwrap();
    {
        let vertex = graph.arc_mut(ab).unwrap().remove().unwrap().into_ref();

        // The ring should be formed from 6 edges.
        assert_eq!(
            6,
            vertex.into_outgoing_edge().unwrap().into_ring().arity()
        );
    }

    // After the removal, the graph should have no faces.
    assert_eq!(0, graph.face_count());
}

#[test]
fn circulate_over_edges() {
    // 8 triangles, 24 vertices.
    let graph = sphere(4, 2);

    // All faces should be triangles and all vertices should have 4
    // (incoming) edges.
    for vertex in graph.vertices() {
        let mut edges = vertex.edges();
        let mut count = 0;
        while let Some(arc) = edges.next() {
            assert_eq!(vertex.key(), arc.key().destination());
            count += 1;
        }
        assert_eq!(4, count);
    }
}

#[test]
fn sphere_of_triangles_is_left_as_it_is_by_triangulation() {
    let mut graph = sphere(3, 2);
    assert_eq!(Arity::Uniform(3), graph.arity());
    graph.triangulate().unwrap();

    assert_eq!(5, graph.vertex_count());
    assert_eq!(18, graph.arc_count());
    assert_eq!(9, graph.edge_count());
    assert_eq!(6, graph.face_count());
}

#[test]
fn removing_an_edge_of_a_quadrilateral_leaves_one_ring() {
    let mut graph = quadrilateral();
    let key = graph.arcs()[0].key();
    let survivor = graph.remove_edge(key).unwrap().survivor(key).unwrap();

    assert_eq!(0, graph.face_count());
    assert_eq!(6, graph.arc_count());
    assert_eq!(3, graph.edge_count());
    assert_eq!(4, graph.vertex_count());
    let ring = graph
        .vertex(survivor)
        .unwrap()
        .into_outgoing_edge()
        .unwrap()
        .into_ring()
        .arcs();
    assert_eq!(6, ring.len());
    for arc in graph.arcs() {
        assert!(arc.is_boundary_arc());
        assert!(ring.contains(&arc.key()));
    }
}

#[test]
fn triangulation_fans_a_cube() {
    let mut graph = cube();
    assert_eq!(Arity::Uniform(4), graph.arity());
    graph.triangulate().unwrap();

    assert_eq!(8, graph.vertex_count());
    assert_eq!(12, graph.face_count());
    assert_eq!(18, graph.edge_count());
    assert_eq!(36, graph.arc_count());
    assert_eq!(Arity::Uniform(3), graph.arity());
    for face in graph.faces() {
        assert_eq!(3, face.arity());
    }
}

#[test]
fn triangulating_one_face_gives_mixed_arity() {
    let mut graph = cube();
    let face = graph.faces()[0].key();
    let vertices = graph.face(face).unwrap().vertices();
    let triangles = graph.face_mut(face).unwrap().triangulate().unwrap();

    assert_eq!(2, triangles.len());
    assert_eq!(Arity::NonUniform(3, 4), graph.arity());
    assert!(graph.face(face).is_none());
    assert_eq!(
        vec![vertices[0], vertices[1], vertices[2]],
        graph.face(triangles[0]).unwrap().vertices()
    );
    assert_eq!(
        vec![vertices[0], vertices[2], vertices[3]],
        graph.face(triangles[1]).unwrap().vertices()
    );
}

#[test]
fn round_trip_keeps_vertices_and_faces() {
    let (indices, positions) = indexed(&sphere_polygons(5, 4));
    let graph = MeshGraph::<Space>::from_raw_buffers(indices.clone(), positions.clone()).unwrap();

    assert_eq!(positions.len(), graph.vertex_count());
    assert_eq!(indices.len(), graph.face_count());
    for (n, position) in positions.iter().enumerate() {
        assert_eq!(
            position,
            graph.vertex(VertexKey(n as u64)).unwrap().geometry()
        );
    }
    for (n, polygon) in indices.iter().enumerate() {
        let vertices: Vec<u64> = graph
            .face(FaceKey(n as u64))
            .unwrap()
            .vertices()
            .into_iter()
            .map(|key| key.0)
            .collect();
        assert_eq!(polygon, &vertices);
    }
}

#[test]
fn buffers_by_vertex_name_the_rings() {
    let mut graph = cube();
    let buffers = graph.to_mesh_buffer_by_vertex(4).unwrap();

    assert_eq!(8, buffers.vertices.len());
    assert_eq!(6, buffers.faces.len());
    for polygon in &buffers.faces {
        let ring = graph.face(polygon.face).unwrap().vertices();
        let named: Vec<VertexKey> = polygon
            .indices
            .iter()
            .map(|index| buffers.vertices[*index])
            .collect();
        assert_eq!(ring, named);
    }
    assert_eq!(
        GraphError::ArityConflict { expected: 3, actual: 4 },
        graph.to_mesh_buffer_by_vertex(3).err().unwrap()
    );
    graph.triangulate().unwrap();
    assert_eq!(12, graph.to_mesh_buffer_by_vertex(3).unwrap().faces.len());
    assert_eq!(
        GraphError::ArityConflict { expected: 4, actual: 3 },
        graph.to_mesh_buffer_by_face(4).err().unwrap()
    );
}

#[test]
fn flat_buffer_must_hold_whole_polygons() {
    let positions = vec![[0.0, 0.0, 0.0]; 5];
    let short = MeshGraph::<Space>::from_raw_buffers_with_arity(
        vec![0u64, 1, 2, 3, 4],
        positions.clone(),
        3,
    );
    assert_eq!(
        GraphError::ArityConflict { expected: 3, actual: 2 },
        short.err().unwrap()
    );
    let chunked = MeshGraph::<Space>::from_raw_buffers_with_arity(
        vec![0u64, 1, 2, 2, 1, 3],
        positions.clone(),
        3,
    )
    .unwrap();
    assert_eq!(
        vec![VertexKey(2), VertexKey(1), VertexKey(3)],
        chunked.face(FaceKey(1)).unwrap().vertices()
    );
    let flat = MeshGraph::<Space>::from_raw_buffers_with_arity(vec![0u64, 1], positions, 2);
    assert_eq!(GraphError::ArityNonPolygonal, flat.err().unwrap());
}

#[test]
fn indices_must_name_vertices() {
    let positions = vec![[0.0, 0.0, 0.0]; 3];
    let graph = MeshGraph::<Space>::from_raw_buffers(vec![vec![0, 1, 3]], positions.clone());
    assert_eq!(GraphError::TopologyNotFound, graph.err().unwrap());
    let graph = MeshGraph::<Space>::from_raw_buffers(vec![vec![0, 1, u64::MAX]], positions.clone());
    assert_eq!(GraphError::TopologyNotFound, graph.err().unwrap());
    let graph = MeshGraph::<Space>::from_raw_buffers(vec![vec![0, 1, 1]], positions.clone());
    assert_eq!(GraphError::TopologyMalformed, graph.err().unwrap());
    let graph = MeshGraph::<Space>::from_raw_buffers(vec![vec![0, 1]], positions);
    assert_eq!(GraphError::ArityNonPolygonal, graph.err().unwrap());
}

#[test]
fn third_face_on_an_edge_is_refused() {
    let mut graph = MeshGraph::<Space>::new();
    let a = graph.insert_vertex([0.0, 0.0, 1.0]);
    let b = graph.insert_vertex([0.0, 0.0, -1.0]);
    let c = graph.insert_vertex([1.0, 0.0, 0.0]);
    let d = graph.insert_vertex([0.0, 1.0, 0.0]);
    let e = graph.insert_vertex([1.0, 1.0, 0.0]);
    graph.insert_face(&[a, b, c], ()).unwrap();
    graph.insert_face(&[b, a, d], ()).unwrap();
    let counts = (graph.vertex_count(), graph.arc_count(), graph.face_count());

    assert_eq!(
        GraphError::TopologyConflict,
        graph.insert_face(&[a, b, e], ()).err().unwrap()
    );
    assert_eq!(
        GraphError::TopologyConflict,
        graph.insert_face(&[b, a, e], ()).err().unwrap()
    );
    assert_eq!(
        counts,
        (graph.vertex_count(), graph.arc_count(), graph.face_count())
    );
}

#[test]
fn edits_of_arcs_with_a_face_are_refused() {
    let mut graph = quadrilateral();
    let interior = ArcKey(VertexKey(0), VertexKey(1));
    let boundary = ArcKey(VertexKey(2), VertexKey(1));
    assert!(!graph.arc(interior).unwrap().is_boundary_arc());
    let counts = (graph.vertex_count(), graph.arc_count(), graph.face_count());

    assert_eq!(
        GraphError::TopologyConflict,
        graph
            .extrude_arc(interior, [0.0, -1.0, 0.0], [1.0, -1.0, 0.0])
            .err()
            .unwrap()
    );
    assert_eq!(
        GraphError::TopologyConflict,
        graph.bridge(interior, ByKey(boundary)).err().unwrap()
    );
    assert_eq!(
        GraphError::TopologyConflict,
        graph.bridge(boundary, ByKey(interior)).err().unwrap()
    );
    assert_eq!(
        GraphError::TopologyNotFound,
        graph
            .bridge(boundary, ByKey(ArcKey(VertexKey(0), VertexKey(2))))
            .err()
            .unwrap()
    );
    assert_eq!(
        counts,
        (graph.vertex_count(), graph.arc_count(), graph.face_count())
    );
}

#[test]
fn split_adds_one_vertex_and_two_arcs() {
    let mut graph = sphere(4, 3);
    let (vertices, arcs, edges, faces) = (
        graph.vertex_count(),
        graph.arc_count(),
        graph.edge_count(),
        graph.face_count(),
    );
    let key = graph.arcs()[7].key();
    let middle = graph.split_arc(key, [0.0, 0.0, 0.0]).unwrap();

    assert_eq!(vertices + 1, graph.vertex_count());
    assert_eq!(arcs + 2, graph.arc_count());
    assert_eq!(edges + 1, graph.edge_count());
    assert_eq!(faces, graph.face_count());
    assert!(graph.arc(key).is_none());
    let leader = graph.vertex(middle).unwrap().into_outgoing_edge().unwrap();
    assert_eq!(ArcKey(middle, key.destination()), leader.key());
    assert_eq!(
        ArcKey(key.source(), middle),
        leader.previous_arc().key()
    );
    assert_eq!(
        GraphError::TopologyNotFound,
        graph.split_arc(key, [0.0, 0.0, 0.0]).err().unwrap()
    );
}

#[test]
fn bridge_by_index_counts_along_the_ring() {
    // Two triangles that meet in an edge leave a boundary ring of four arcs.
    let mut graph = MeshGraph::<Space>::from_raw_buffers(
        vec![vec![0, 1, 2], vec![2, 1, 3]],
        vec![[0.0; 3], [1.0, 0.0, 0.0], [0.0, 1.0, 0.0], [1.0, 1.0, 0.0]],
    )
    .unwrap();
    let source = ArcKey(VertexKey(1), VertexKey(0));
    let ring = graph.arc(source).unwrap().into_ring().arcs();
    assert_eq!(4, ring.len());
    assert_eq!(Ok(ring[2]), graph.nth_arc_in_ring(source, 2));
    assert_eq!(
        GraphError::TopologyNotFound,
        graph.bridge(source, ByIndex(4)).err().unwrap()
    );
    // The arc two steps on joins the other two vertices of the ring, so the
    // face over the four ends would use a vertex twice.
    assert_eq!(
        GraphError::TopologyMalformed,
        graph.bridge(source, ByIndex(1)).err().unwrap()
    );
    assert_eq!(2, graph.face_count());
}

#[test]
fn encoding_gives_faces_their_geometry() {
    let graph = MeshGraph::<Valued>::from_encoding(
        vec![[0.0; 3], [1.0, 0.0, 0.0], [0.0, 1.0, 0.0], [1.0, 1.0, 0.0]],
        vec![(vec![0, 1, 2], 0.25), (vec![2, 1, 3], 0.75)],
    )
    .unwrap();
    assert_eq!(0.25, *graph.face(FaceKey(0)).unwrap().geometry());
    assert_eq!(0.75, *graph.face(FaceKey(1)).unwrap().geometry());
    assert_eq!(
        vec![VertexKey(2), VertexKey(1), VertexKey(3)],
        graph.face(FaceKey(1)).unwrap().vertices()
    );
    let refused = MeshGraph::<Valued>::from_encoding(
        vec![[0.0; 3]; 3],
        vec![(vec![0, 1, 2], 0.5), (vec![0, 1, 3], 0.5)],
    );
    assert_eq!(GraphError::TopologyNotFound, refused.err().unwrap());
}

#[test]
fn triangulating_a_quadrilateral_gives_two_faces_and_ten_arcs() {
    let mut graph = quadrilateral();
    assert_eq!((4, 8, 4, 1), (
        graph.vertex_count(),
        graph.arc_count(),
        graph.edge_count(),
        graph.face_count(),
    ));
    assert_eq!(Ok(()), graph.triangulate());
    assert_eq!(4, graph.vertex_count());
    assert_eq!(10, graph.arc_count());
    assert_eq!(5, graph.edge_count());
    assert_eq!(2, graph.face_count());
    assert_eq!(Arity::Uniform(3), graph.arity());
    // The fan runs from the first vertex of the ring, and its triangles get
    // the keys that follow the last key issued.
    let keys: Vec<FaceKey> = graph.face_keys();
    assert_eq!(vec![FaceKey(1), FaceKey(2)], keys);
    let first: Vec<VertexKey> = graph.face(FaceKey(1)).unwrap().vertices();
    assert_eq!(vec![VertexKey(0), VertexKey(1), VertexKey(2)], first);
    let second: Vec<VertexKey> = graph.face(FaceKey(2)).unwrap().vertices();
    assert_eq!(vec![VertexKey(0), VertexKey(2), VertexKey(3)], second);
}

#[test]
fn triangulation_grows_by_the_arity_of_each_face() {
    // A pentagon, a quadrilateral and a triangle around the vertex 0.
    let mut graph: MeshGraph<Space> = MeshGraph::from_raw_buffers(
        vec![vec![0, 1, 2, 3, 4], vec![0, 4, 5, 6], vec![0, 6, 7]],
        vec![[0.0, 0.0, 0.0]; 8],
    )
    .unwrap();
    let (arcs, faces) = (graph.arc_count(), graph.face_count());
    assert_eq!(3, faces);
    assert_eq!(Ok(()), graph.triangulate());
    // Two fewer than its arity for each face, and an edge for each face more.
    assert_eq!(3 + 2 + 1, graph.face_count());
    assert_eq!(arcs + 2 * (2 + 1), graph.arc_count());
    assert_eq!(8, graph.vertex_count());
    assert_eq!(Arity::Uniform(3), graph.arity());
}

#[test]
fn triangulation_stops_at_the_face_that_cannot_be_fanned() {
    // Two quadrilaterals over the same four vertices, back to back, both
    // led by the vertex 0: the diagonal that the fan of the first brings is
    // in the way of the second.
    let mut graph: MeshGraph<Space> = MeshGraph::from_raw_buffers(
        vec![vec![0, 1, 2, 3], vec![0, 3, 2, 1]],
        vec![[0.0, 0.0, 0.0]; 4],
    )
    .unwrap();
    assert_eq!(Err(GraphError::TopologyConflict), graph.triangulate());
    // The first face gave way to two triangles, the second is as it was.
    assert_eq!(3, graph.face_count());
    assert_eq!(10, graph.arc_count());
    assert_eq!(4, graph.face(FaceKey(1)).unwrap().arity());
    assert_eq!(vec![FaceKey(1), FaceKey(2), FaceKey(3)], graph.face_keys());
}

#[test]
fn buffers_come_in_the_order_of_the_keys() {
    let mut graph: MeshGraph<Space> = MeshGraph::from_raw_buffers(
        vec![vec![0, 1, 2], vec![2, 1, 3], vec![3, 1, 4]],
        vec![[0.0, 0.0, 0.0]; 5],
    )
    .unwrap();
    graph.remove_face(FaceKey(1)).unwrap();
    graph.insert_face(&[VertexKey(2), VertexKey(1), VertexKey(3)], ()).unwrap();
    let buffers = graph.to_mesh_buffer_by_vertex(3).unwrap();
    assert_eq!(graph.vertex_keys(), buffers.vertices);
    let faces: Vec<FaceKey> = buffers.faces.iter().map(|face| face.face).collect();
    assert_eq!(vec![FaceKey(0), FaceKey(2), FaceKey(3)], faces);
    assert_eq!(graph.face_keys(), faces);
    let by_face = graph.to_mesh_buffer_by_face(3).unwrap();
    let faces: Vec<FaceKey> = by_face.iter().map(|face| face.face).collect();
    assert_eq!(vec![FaceKey(0), FaceKey(2), FaceKey(3)], faces);
    let listed: Vec<FaceKey> = graph.faces().iter().map(|face| face.key()).collect();
    assert_eq!(faces, listed);
    let listed: Vec<ArcKey> = graph.arcs().iter().map(|arc| arc.key()).collect();
    let mut sorted = listed.clone();
    sorted.sort();
    assert_eq!(sorted, listed);
    assert_eq!(graph.arc_keys(), listed);
}

#[test]
fn the_first_face_of_another_arity_gives_the_error() {
    let graph: MeshGraph<Space> = MeshGraph::from_raw_buffers(
        vec![vec![0, 1, 2], vec![2, 1, 3, 4], vec![4, 3, 5, 6, 7]],
        vec![[0.0, 0.0, 0.0]; 8],
    )
    .unwrap();
    let conflict = GraphError::ArityConflict { expected: 3, actual: 4 };
    assert_eq!(Some(conflict), graph.to_mesh_buffer_by_vertex(3).err());
    assert_eq!(Some(conflict), graph.to_mesh_buffer_by_face(3).err());
    let conflict = GraphError::ArityConflict { expected: 5, actual: 3 };
    assert_eq!(Some(conflict), graph.to_mesh_buffer_by_face(5).err());
}

#[test]
fn a_face_may_have_many_sides() {
    let sides: u64 = 1000;
    let graph: MeshGraph<Space> = MeshGraph::from_raw_buffers_with_arity(
        (0..sides).collect(),
        vec![[0.0, 0.0, 0.0]; 1000],
        1000,
    )
    .unwrap();
    assert_eq!(1, graph.face_count());
    assert_eq!(2000, graph.arc_count());
    assert_eq!(Arity::Uniform(1000), graph.arity());
    let ring: Vec<VertexKey> = graph.face(FaceKey(0)).unwrap().vertices();
    let expected: Vec<VertexKey> = (0..sides).map(VertexKey).collect();
    assert_eq!(expected, ring);
}

#[test]
fn a_graph_may_carry_no_geometry() {
    let mut graph: MeshGraph<plexus::Bare> = MeshGraph::from_raw_buffers(
        vec![vec![0, 1, 2, 3]],
        vec![plexus::Bare; 4],
    )
    .unwrap();
    assert_eq!(plexus::Bare, *graph.face(FaceKey(0)).unwrap().geometry());
    assert_eq!(Ok(()), graph.triangulate());
    assert_eq!(2, graph.face_count());
    assert_eq!(10, graph.arc_count());
    // A bridge between two boundary arcs brings an edge for each side that
    // is missing.
    let mut graph: MeshGraph<plexus::Bare> = MeshGraph::from_raw_buffers(
        vec![vec![0, 1, 2], vec![3, 4, 5]],
        vec![plexus::Bare; 6],
    )
    .unwrap();
    let (arcs, edges) = (graph.arc_count(), graph.edge_count());
    let source = ArcKey(VertexKey(1), VertexKey(0));
    let destination = ArcKey(VertexKey(4), VertexKey(3));
    let face = graph.bridge_arcs(source, destination).unwrap();
    assert_eq!(arcs + 4, graph.arc_count());
    assert_eq!(edges + 2, graph.edge_count());
    let ring: Vec<VertexKey> = graph.face(face).unwrap().vertices();
    assert_eq!(vec![VertexKey(1), VertexKey(0), VertexKey(4), VertexKey(3)], ring);
}
