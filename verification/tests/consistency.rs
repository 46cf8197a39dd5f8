use plexus::{ArcKey, ByIndex, FaceKey, GraphGeometry, MeshGraph, VertexKey};

struct Bare;

impl GraphGeometry for Bare {
    type Vertex = ();
    type Arc = ();
    type Edge = ();
    type Face = ();
}

/// Checks the structural invariants of a graph through its views.
fn check_invariants(graph: &MeshGraph<Bare>) {
    assert_eq!(graph.arc_count(), 2 * graph.edge_count());
    for arc in graph.arcs() {
        let key = arc.key();
        assert!(graph.vertex(key.source()).is_some());
        assert!(graph.vertex(key.destination()).is_some());
        // Every arc has an opposite, and the two make one edge.
        assert_eq!(key, arc.opposite_arc().opposite_arc().key());
        assert_eq!(arc.edge().key(), arc.opposite_arc().edge().key());
        let stands = arc.edge().arc().key();
        assert!(stands == key || stands == key.into_opposite());
        // Next and previous undo each other.
        assert_eq!(key, arc.next_arc().previous_arc().key());
        assert_eq!(key, arc.previous_arc().next_arc().key());
        assert_eq!(key.destination(), arc.next_arc().key().source());
        // The ring of an arc belongs to one face or to none.
        let face = arc.face().map(|face| face.key());
        assert_eq!(face, arc.next_arc().face().map(|face| face.key()));
        if face.is_some() {
            assert_ne!(face, arc.opposite_arc().face().map(|face| face.key()));
        }
        assert!(arc.source_vertex().outgoing_edge().is_some());
    }
    let mut in_rings = 0;
    for face in graph.faces() {
        let ring = face.arcs();
        assert!(ring.len() >= 3);
        assert_eq!(face.arc().key(), ring[0]);
        for (i, key) in ring.iter().enumerate() {
            let arc = graph.arc(*key).unwrap();
            assert_eq!(face.key(), arc.face().unwrap().key());
            assert_eq!(ring[(i + 1) % ring.len()], arc.next_arc().key());
        }
        in_rings += ring.len();
    }
    let with_face = graph
        .arcs()
        .iter()
        .filter(|arc| !arc.is_boundary_arc())
        .count();
    assert_eq!(with_face, in_rings);
    for vertex in graph.vertices() {
        if let Some(leader) = vertex.outgoing_edge() {
            assert_eq!(vertex.key(), leader.key().source());
        } else {
            assert!(graph
                .arcs()
                .iter()
                .all(|arc| arc.key().source() != vertex.key()));
        }
    }
}

fn grid(width: u64, height: u64) -> MeshGraph<Bare> {
    let mut indices = Vec::new();
    for y in 0..height {
        for x in 0..width {
            let a = y * (width + 1) + x;
            let b = a + 1;
            let c = b + width + 1;
            let d = a + width + 1;
            indices.extend([a, b, c, d]);
        }
    }
    let vertices = vec![(); ((width + 1) * (height + 1)) as usize];
    MeshGraph::from_raw_buffers_with_arity(indices, vertices, 4).unwrap()
}

#[test]
fn edits_keep_the_graph_consistent() {
    let mut graph = grid(3, 2);
    check_invariants(&graph);
    assert_eq!((12, 34, 17, 6), counts(&graph));

    // Split an edge between two faces and an edge on the rim.
    let middle = graph.split_arc(ArcKey(VertexKey(1), VertexKey(5)), ()).unwrap();
    check_invariants(&graph);
    graph.split_arc(ArcKey(VertexKey(1), VertexKey(0)), ()).unwrap();
    check_invariants(&graph);
    assert_eq!((14, 38, 19, 6), counts(&graph));

    // Extrude the rim and bridge within the new boundary.
    let rim = ArcKey(VertexKey(3), VertexKey(2));
    let extrusion = graph.extrude_arc(rim, (), ()).unwrap();
    check_invariants(&graph);
    assert_eq!((16, 44, 22, 7), counts(&graph));
    assert!(graph.arc(extrusion.arc).unwrap().face().is_some());
    let outer = extrusion.arc.into_opposite();
    let face = graph.bridge(outer, ByIndex(2)).unwrap();
    check_invariants(&graph);
    assert_eq!(4, graph.face(face).unwrap().arity());

    // Remove an edge inside, an edge on the rim, and a face.
    graph.remove_edge(ArcKey(middle, VertexKey(5))).unwrap();
    check_invariants(&graph);
    graph.remove_edge(ArcKey(VertexKey(8), VertexKey(9))).unwrap();
    check_invariants(&graph);
    assert!(graph.remove_face(FaceKey(5)).is_some());
    assert!(graph.remove_face(FaceKey(5)).is_none());
    check_invariants(&graph);

    graph.triangulate().unwrap();
    check_invariants(&graph);
    for face in graph.faces() {
        assert_eq!(3, face.arity());
    }
}

fn counts(graph: &MeshGraph<Bare>) -> (usize, usize, usize, usize) {
    (
        graph.vertex_count(),
        graph.arc_count(),
        graph.edge_count(),
        graph.face_count(),
    )
}

#[test]
fn removing_edges_removes_vertices_without_arcs() {
    let mut graph = MeshGraph::<Bare>::from_raw_buffers(vec![vec![0, 1, 2]], vec![(); 3]).unwrap();
    let removal = graph.remove_edge(ArcKey(VertexKey(0), VertexKey(1))).unwrap();
    assert!(removal.source_leader.is_some());
    assert!(removal.destination_leader.is_some());
    check_invariants(&graph);
    assert_eq!((3, 4, 2, 0), counts(&graph));
    // The vertex 0 hangs on one edge now and goes with it.
    let key = ArcKey(VertexKey(0), VertexKey(2));
    let removal = graph.remove_edge(key).unwrap();
    assert_eq!(None, removal.source_leader);
    assert_eq!(Some(VertexKey(2)), removal.survivor(key));
    check_invariants(&graph);
    assert_eq!((2, 2, 1, 0), counts(&graph));
    assert!(graph.vertex(VertexKey(0)).is_none());
    // The last edge takes both of its ends.
    let key = ArcKey(VertexKey(2), VertexKey(1));
    assert!(graph
        .arc_mut(key)
        .unwrap()
        .remove()
        .is_none());
    assert_eq!((0, 0, 0, 0), counts(&graph));
    check_invariants(&graph);
}

#[test]
fn faces_that_meet_in_a_vertex_are_joined_by_later_faces() {
    // Four triangles around the vertex 0, of which the two that do not touch
    // come first.
    let mut graph = MeshGraph::<Bare>::from_raw_buffers(
        vec![vec![0, 1, 2], vec![0, 3, 4]],
        vec![(); 5],
    )
    .unwrap();
    check_invariants(&graph);
    let hub = VertexKey(0);
    assert_eq!(2, graph.vertex(hub).unwrap().incoming_arcs().len());
    graph
        .insert_face(&[hub, VertexKey(2), VertexKey(3)], ())
        .unwrap();
    check_invariants(&graph);
    assert_eq!(4, graph.vertex(hub).unwrap().incoming_arcs().len());
    graph
        .insert_face(&[hub, VertexKey(4), VertexKey(1)], ())
        .unwrap();
    check_invariants(&graph);
    assert_eq!(4, graph.vertex(hub).unwrap().incoming_arcs().len());
    assert!(graph
        .vertex(hub)
        .unwrap()
        .incoming_arcs()
        .iter()
        .all(|arc| !graph.arc(*arc).unwrap().is_boundary_arc()));
    assert_eq!(4, graph.arc(ArcKey(VertexKey(2), VertexKey(1))).unwrap().into_ring().arity());
}

#[test]
fn empty_graph_has_nothing() {
    let mut graph = MeshGraph::<Bare>::default();
    assert_eq!((0, 0, 0, 0), counts(&graph));
    assert_eq!(plexus::Arity::Uniform(0), graph.arity());
    assert!(graph.vertices().is_empty());
    assert!(graph.triangulate().is_ok());
    assert!(graph.to_mesh_buffer_by_vertex(3).unwrap().faces.is_empty());
    assert!(graph.remove_edge(ArcKey(VertexKey(0), VertexKey(1))).is_err());
    check_invariants(&graph);
}
