use plexus::{
    ArcKey, EdgeKey, Edgoid, FaceKey, GraphGeometry, MeshGraph, PathView, VertexKey,
};

struct Weighted;

impl GraphGeometry for Weighted {
    type Vertex = f64;
    type Arc = u8;
    type Edge = u8;
    type Face = u8;
}

fn vertex(n: u64) -> VertexKey {
    VertexKey(n)
}

fn arc(a: u64, b: u64) -> ArcKey {
    ArcKey(VertexKey(a), VertexKey(b))
}

/// Two triangles over the vertices 0, 1, 2 and 2, 1, 3, and a vertex on its
/// own.
fn kite() -> MeshGraph<Weighted> {
    let mut graph = MeshGraph::from_raw_buffers(
        vec![vec![0, 1, 2], vec![2, 1, 3]],
        vec![0.5, 1.5, 2.5, 3.5],
    )
    .unwrap();
    graph.insert_vertex(4.5);
    graph
}

#[test]
fn arcs_lead_to_their_neighbours() {
    let graph = kite();
    let view = graph.arc(arc(1, 2)).unwrap();
    assert_eq!(arc(1, 2), view.key());
    assert_eq!(arc(2, 1), view.opposite_arc().key());
    assert_eq!(arc(2, 0), view.next_arc().key());
    assert_eq!(arc(0, 1), view.previous_arc().key());
    assert_eq!(arc(1, 2), view.next_arc().previous_arc().key());
    assert_eq!(arc(1, 3), view.into_opposite_arc().into_next_arc().key());
    assert_eq!(arc(3, 2), view.into_opposite_arc().into_previous_arc().key());
    assert_eq!(vertex(1), view.source_vertex().key());
    assert_eq!(vertex(2), view.into_destination_vertex().key());
    assert!(graph.arc(arc(0, 3)).is_none());
    assert!(graph.arc(arc(4, 0)).is_none());
}

#[test]
fn boundary_arc_is_the_arc_or_its_opposite() {
    let graph = kite();
    // Both arcs of the shared edge have a face.
    let shared = graph.arc(arc(1, 2)).unwrap();
    assert!(!shared.is_boundary_arc());
    assert!(shared.boundary_arc().is_none());
    assert!(shared.into_boundary_arc().is_none());
    // An arc of a face on the rim has a boundary arc for its opposite.
    let rim = graph.arc(arc(0, 1)).unwrap();
    assert!(!rim.is_boundary_arc());
    assert_eq!(arc(1, 0), rim.boundary_arc().unwrap().key());
    assert_eq!(arc(1, 0), rim.into_boundary_arc().unwrap().key());
    let outer = graph.arc(arc(1, 0)).unwrap();
    assert!(outer.is_boundary_arc());
    assert_eq!(arc(1, 0), outer.into_boundary_arc().unwrap().key());
}

#[test]
fn arcs_circulate_over_their_vertices_and_faces() {
    let graph = kite();
    let shared = graph.arc(arc(1, 2)).unwrap();
    let mut vertices = shared.vertices();
    assert_eq!(2, vertices.len());
    assert_eq!(vertex(1), vertices.next().unwrap().key());
    assert_eq!(1, vertices.len());
    assert_eq!(vertex(2), vertices.next().unwrap().key());
    assert!(vertices.next().is_none());
    assert_eq!(0, vertices.len());

    let mut faces = shared.faces();
    assert_eq!(2, faces.len());
    assert_eq!(FaceKey(0), faces.next().unwrap().key());
    assert_eq!(FaceKey(1), faces.next().unwrap().key());
    assert!(faces.next().is_none());

    let outer = graph.arc(arc(1, 0)).unwrap();
    let mut faces = outer.faces();
    assert_eq!(1, faces.len());
    assert_eq!(FaceKey(0), faces.next().unwrap().key());
    assert!(faces.next().is_none());
}

#[test]
fn orphans_write_geometry_and_nothing_else() {
    let mut graph = kite();
    let mut vertices = graph.arc_mut(arc(1, 2)).unwrap().vertex_orphans();
    let first = vertices.next().unwrap();
    assert_eq!(vertex(1), first.key());
    assert_eq!(1.5, first.replace(10.0));
    let second = vertices.next().unwrap();
    assert_eq!(2.5, *second.geometry());
    second.replace(20.0);
    assert!(vertices.next().is_none());
    assert_eq!(10.0, *graph.vertex(vertex(1)).unwrap().geometry());
    assert_eq!(20.0, *graph.vertex(vertex(2)).unwrap().geometry());

    let mut faces = graph.arc_mut(arc(0, 1)).unwrap().face_orphans();
    assert_eq!(0, faces.next().unwrap().replace(7));
    assert!(faces.next().is_none());
    assert_eq!(7, *graph.face(FaceKey(0)).unwrap().geometry());
    assert_eq!(0, *graph.face(FaceKey(1)).unwrap().geometry());

    assert_eq!(0, graph.arc_mut(arc(1, 2)).unwrap().into_orphan().replace(3));
    assert_eq!(3, *graph.arc(arc(1, 2)).unwrap().geometry());
    assert_eq!(0, *graph.arc(arc(2, 1)).unwrap().geometry());
    let edge = arc(1, 2).edge();
    assert_eq!(0, graph.edge_mut(edge).unwrap().into_orphan().replace(5));
    assert_eq!(5, *graph.edge(edge).unwrap().geometry());
    assert_eq!(
        arc(2, 0),
        graph.arc(arc(1, 2)).unwrap().next_arc().key()
    );
    assert_eq!((5, 10, 5, 2), counts(&graph));

    let mut arcs = graph.orphan_arcs();
    let mut seen = 0;
    while let Some(arc) = arcs.next() {
        arc.replace(1);
        seen += 1;
    }
    assert_eq!(10, seen);
    let mut edges = graph.orphan_edges();
    let mut seen = 0;
    while let Some(edge) = edges.next() {
        edge.replace(2);
        seen += 1;
    }
    assert_eq!(5, seen);
    assert!(graph.arcs().iter().all(|arc| *arc.geometry() == 1));
    assert!(graph.edges().iter().all(|edge| *edge.geometry() == 2));
}

fn counts(graph: &MeshGraph<Weighted>) -> (usize, usize, usize, usize) {
    (
        graph.vertex_count(),
        graph.arc_count(),
        graph.edge_count(),
        graph.face_count(),
    )
}

#[test]
fn edges_stand_for_their_two_arcs() {
    let graph = kite();
    let edge = graph.edge(EdgeKey(vertex(1), vertex(2))).unwrap();
    assert_eq!(EdgeKey(vertex(1), vertex(2)), edge.key());
    assert!(!edge.is_boundary_edge());
    assert_eq!(edge.key(), edge.arc().key().edge());
    assert_eq!(edge.key(), edge.into_arc().into_edge().key());
    assert_eq!(edge.key(), graph.arc(arc(2, 1)).unwrap().edge().key());
    assert_eq!(edge.key(), Edgoid::into_edge(graph.arc(arc(2, 1)).unwrap()).key());
    assert_eq!(edge.key(), Edgoid::into_arc(edge).key().edge());
    assert!(graph.edge(EdgeKey(vertex(2), vertex(1))).is_none());
    let rim = graph.edge(EdgeKey(vertex(0), vertex(1))).unwrap();
    assert!(rim.is_boundary_edge());
    assert_eq!(5, graph.edges().len());
}

#[test]
fn faces_and_rings_run_along_next_arcs() {
    let graph = kite();
    let face = graph.face(FaceKey(1)).unwrap();
    assert_eq!(3, face.arity());
    assert_eq!(arc(2, 1), face.arc().key());
    assert_eq!(vec![arc(2, 1), arc(1, 3), arc(3, 2)], face.arcs());
    assert_eq!(vec![vertex(2), vertex(1), vertex(3)], face.vertices());
    assert_eq!(face.arcs(), face.ring().arcs());
    assert_eq!(Some(FaceKey(1)), face.into_ring().face_key());
    assert_eq!(
        FaceKey(1),
        graph.arc(arc(1, 3)).unwrap().into_face().unwrap().key()
    );
    assert!(graph.arc(arc(3, 1)).unwrap().face().is_none());
    // The boundary is one ring around the two triangles.
    let boundary = graph.arc(arc(1, 0)).unwrap().into_ring();
    assert_eq!(4, boundary.arity());
    assert_eq!(None, boundary.face_key());
    assert_eq!(
        vec![arc(1, 0), arc(0, 2), arc(2, 3), arc(3, 1)],
        boundary.arcs()
    );
    assert_eq!(
        vec![vertex(1), vertex(0), vertex(2), vertex(3)],
        boundary.vertices()
    );
    assert_eq!(arc(1, 0), boundary.into_arc().key());
}

#[test]
fn vertices_lead_with_an_arc_that_leaves_them() {
    let graph = kite();
    for view in graph.vertices() {
        match view.outgoing_edge() {
            Some(leader) => assert_eq!(view.key(), leader.key().source()),
            None => assert_eq!(vertex(4), view.key()),
        }
    }
    let lone = graph.vertex(vertex(4)).unwrap();
    assert_eq!(4.5, *lone.geometry());
    assert!(lone.into_outgoing_edge().is_none());
    assert!(lone.incoming_arcs().is_empty());
    assert!(lone.edges().next().is_none());
    assert!(lone.faces().next().is_none());

    let hub = graph.vertex(vertex(1)).unwrap();
    let outgoing = hub.outgoing_arcs();
    assert_eq!(3, outgoing.len());
    assert_eq!(hub.outgoing_edge().unwrap().key(), outgoing[0]);
    let incoming = hub.incoming_arcs();
    let mut edges = hub.edges();
    let mut walked = Vec::new();
    while let Some(arc) = edges.next() {
        walked.push(arc.key());
    }
    assert_eq!(incoming, walked);
    assert!(incoming.contains(&arc(0, 1)));
    assert!(incoming.contains(&arc(2, 1)));
    assert!(incoming.contains(&arc(3, 1)));
    let mut faces = hub.faces();
    let mut found = Vec::new();
    while let Some(face) = faces.next() {
        found.push(face.key());
    }
    found.sort();
    assert_eq!(vec![FaceKey(0), FaceKey(1)], found);
}

#[test]
fn vertices_give_orphans_of_what_is_around_them() {
    let mut graph = kite();
    let leader = graph.vertex(vertex(1)).unwrap().outgoing_edge().unwrap().key();
    let orphan = graph.vertex_mut(vertex(1)).unwrap().outgoing_edge_mut().unwrap();
    assert_eq!(leader, orphan.key());
    orphan.replace(9);
    assert_eq!(9, *graph.arc(leader).unwrap().geometry());
    assert!(graph.vertex_mut(vertex(4)).unwrap().outgoing_edge_mut().is_none());

    let mut edges = graph.vertex_mut(vertex(1)).unwrap().edges_mut();
    let mut seen = 0;
    while let Some(arc) = edges.next() {
        assert_eq!(vertex(1), arc.key().destination());
        arc.replace(4);
        seen += 1;
    }
    assert_eq!(3, seen);
    let mut faces = graph.vertex_mut(vertex(1)).unwrap().faces_mut();
    let mut seen = 0;
    while let Some(face) = faces.next() {
        face.replace(6);
        seen += 1;
    }
    assert_eq!(2, seen);
    assert!(graph.faces().iter().all(|face| *face.geometry() == 6));
    assert_eq!(1.5, graph.vertex_mut(vertex(1)).unwrap().into_orphan().replace(0.0));
    assert_eq!(0.0, *graph.vertex(vertex(1)).unwrap().geometry());
}

#[test]
fn paths_walk_along_arcs() {
    let graph = kite();
    let first = graph.arc(arc(0, 1)).unwrap();
    let path = first.path();
    assert_eq!(&vec![vertex(0), vertex(1)], path.vertices());
    assert_eq!(vec![arc(0, 1)], path.arcs());
    let path = graph.arc(arc(0, 1)).unwrap().into_path();
    assert_eq!(vec![arc(0, 1)], path.arcs());
    let long = PathView::try_from_keys(&graph, &[vertex(0), vertex(1), vertex(3), vertex(2)])
        .unwrap();
    assert_eq!(vec![arc(0, 1), arc(1, 3), arc(3, 2)], long.arcs());
    assert!(PathView::try_from_keys(&graph, &[vertex(0), vertex(3)]).is_none());
    assert!(PathView::try_from_keys(&graph, &[vertex(0)]).is_none());
}

#[test]
fn mutable_views_become_shared_views() {
    let mut graph = kite();
    let view = graph.arc_mut(arc(1, 2)).unwrap().into_next_arc().into_ref();
    assert_eq!(arc(2, 0), view.key());
    assert_eq!(arc(0, 1), view.into_next_arc().key());
    assert_eq!(arc(0, 2), view.into_opposite_arc().key());
    let edge = graph.edge_mut(arc(1, 2).edge()).unwrap().into_ref();
    assert_eq!(arc(1, 2).edge(), edge.key());
    let face = graph.face_mut(FaceKey(0)).unwrap().into_ref();
    assert_eq!(3, face.arity());
    let ring = graph.arc_mut(arc(1, 0)).unwrap().into_ring().into_ref();
    assert_eq!(4, ring.arity());
    assert!(graph.arc_mut(arc(0, 3)).is_none());
    assert!(graph.vertex_mut(vertex(9)).is_none());
    assert!(graph.face_mut(FaceKey(2)).is_none());
    assert!(graph.edge_mut(EdgeKey(vertex(0), vertex(3))).is_none());
}

#[test]
fn orphans_that_are_let_go_leave_the_graph_as_it_is() {
    let mut graph = kite();
    let before = counts(&graph);
    let mut faces = graph.orphan_faces();
    let first = faces.next().unwrap();
    assert_eq!(FaceKey(0), first.key());
    first.release();
    let second = faces.next().unwrap();
    assert_eq!(0, second.replace(4));
    assert!(faces.next().is_none());
    faces.finish();
    assert_eq!(before, counts(&graph));
    assert_eq!(0, *graph.face(FaceKey(0)).unwrap().geometry());
    assert_eq!(4, *graph.face(FaceKey(1)).unwrap().geometry());

    let vertices = graph.orphan_vertices();
    vertices.finish();
    let mut arcs = graph.orphan_arcs();
    arcs.next().unwrap().release();
    arcs.finish();
    let mut edges = graph.orphan_edges();
    edges.next().unwrap().release();
    edges.finish();
    let mut ends = graph.arc_mut(arc(1, 2)).unwrap().vertex_orphans();
    ends.next().unwrap().release();
    ends.finish();
    let sides = graph.arc_mut(arc(1, 2)).unwrap().face_orphans();
    sides.finish();
    let around = graph.vertex_mut(vertex(1)).unwrap().edges_mut();
    around.finish();
    let around = graph.vertex_mut(vertex(1)).unwrap().faces_mut();
    around.finish();
    assert_eq!(before, counts(&graph));
    assert_eq!(1.5, *graph.vertex(vertex(1)).unwrap().geometry());
    assert!(graph.arcs().iter().all(|arc| *arc.geometry() == 0));
}

#[test]
fn the_halves_of_a_split_edge_share_its_geometry() {
    let mut graph = kite();
    graph.arc_mut(arc(1, 2)).unwrap().into_orphan().replace(3);
    graph.arc_mut(arc(2, 1)).unwrap().into_orphan().replace(4);
    graph.edge_mut(arc(1, 2).edge()).unwrap().into_orphan().replace(5);
    let middle = graph.arc_mut(arc(1, 2)).unwrap().split_with(|| 9.5).key();
    assert_eq!(9.5, *graph.vertex(middle).unwrap().geometry());
    // Of each arc, the half that leaves where the arc left keeps what the
    // arc had; the other halves start anew.
    let geometry = |a: VertexKey, b: VertexKey| *graph.arc(ArcKey(a, b)).unwrap().geometry();
    assert_eq!(3, geometry(vertex(1), middle));
    assert_eq!(0, geometry(middle, vertex(2)));
    assert_eq!(4, geometry(vertex(2), middle));
    assert_eq!(0, geometry(middle, vertex(1)));
    assert_eq!(5, *graph.edge(ArcKey(vertex(1), middle).edge()).unwrap().geometry());
    assert_eq!(0, *graph.edge(ArcKey(middle, vertex(2)).edge()).unwrap().geometry());
    assert!(graph.arc(arc(1, 2)).is_none());
}

#[test]
fn what_an_edit_creates_has_the_default_geometry() {
    let mut graph = kite();
    let mut arcs = graph.orphan_arcs();
    while let Some(arc) = arcs.next() {
        arc.replace(7);
    }
    arcs.finish();
    let mut faces = graph.orphan_faces();
    while let Some(face) = faces.next() {
        face.replace(8);
    }
    faces.finish();
    // The boundary of the kite runs 1 -> 0 -> 2 -> 3 -> 1.
    let face = graph
        .arc_mut(arc(1, 0))
        .unwrap()
        .extrude(0.25, 0.75)
        .unwrap()
        .into_face()
        .unwrap()
        .key();
    assert_eq!(0, *graph.face(face).unwrap().geometry());
    assert_eq!(8, *graph.face(FaceKey(0)).unwrap().geometry());
    let fresh = graph.arcs().iter().filter(|arc| *arc.geometry() == 0).count();
    assert_eq!(6, fresh);
    assert_eq!(16, graph.arc_count());
    assert_eq!(8, graph.edge_count());
    assert!(graph.arcs().iter().all(|arc| *arc.geometry() == 0 || *arc.geometry() == 7));
}
