//! Views of vertices.

use crate::graph::MeshGraph;
use crate::key::{ArcKey, FaceKey, VertexKey};
use crate::orbit::is_period;
use crate::payload::{GraphGeometry, VertexPayload};
use crate::storage::in_issue_order;
use crate::topology::Topology;
use crate::view::Reborrow;
use crate::view::edge::{ArcOrphan, ArcView};
use crate::view::face::{FaceOrphan, FaceView};
use std::marker::PhantomData;
use vstd::prelude::*;

verus! {

/// The opposites of some arcs, in the same order.
pub open spec fn opposites(arcs: Seq<ArcKey>) -> Seq<ArcKey> {
    Seq::new(arcs.len(), |i: int| arcs[i].opposite())
}

/// View of a vertex in a graph.
pub struct VertexView<M: Reborrow<G>, G: GraphGeometry> {
    storage: M,
    key: VertexKey,
    phantom: PhantomData<G>,
}

impl<M: Reborrow<G>, G: GraphGeometry> VertexView<M, G> {
    #[verifier::type_invariant]
    spec fn bound(self) -> bool {
        self.storage.graph()@.vertices.contains_key(self.key)
    }

    /// The reference to the graph that the view holds.
    pub closed spec fn storage(&self) -> M {
        self.storage
    }

    pub closed spec fn spec_key(&self) -> VertexKey {
        self.key
    }

    /// The graph of the view.
    pub open spec fn graph(&self) -> MeshGraph<G> {
        self.storage().graph()
    }

    /// Binds a view to a vertex of a graph.
    pub(crate) fn bind(storage: M, key: VertexKey) -> (view: Self)
        requires
            storage.graph()@.vertices.contains_key(key),
        ensures
            view.storage() == storage,
            view.key() == key,
    {
        VertexView { storage, key, phantom: PhantomData }
    }

    /// Gets the key of the vertex.
    #[verifier::when_used_as_spec(spec_key)]
    pub fn key(&self) -> (key: VertexKey)
        ensures
            key == self.spec_key(),
            self.graph()@.vertices.contains_key(key),
    {
        proof {
            use_type_invariant(self);
        }
        self.key
    }

    /// The payload of the vertex.
    pub fn payload(&self) -> (payload: &VertexPayload<G>)
        ensures
            *payload == self.graph().storage().vertices@[self.key()],
    {
        proof {
            use_type_invariant(self);
        }
        self.storage.reborrow().binder().vertices.get(self.key).unwrap()
    }

    /// Gets the geometry of the vertex.
    pub fn geometry(&self) -> (geometry: &G::Vertex)
        ensures
            *geometry == self.graph().vertex_geometry(self.key()),
    {
        &self.payload().geometry
    }

    /// Gets the key of the leading arc of the vertex, an arc that leaves it.
    /// A vertex without arcs has none.
    pub fn outgoing_key(&self) -> (arc: Option<ArcKey>)
        ensures
            arc == self.graph()@.vertices[self.key()],
            arc matches Some(arc) ==> self.graph()@.arcs.contains_key(arc) && arc.0 == self.key(),
    {
        proof {
            use_type_invariant(self);
        }
        let graph = self.storage.reborrow();
        let arc = graph.binder().vertices.get(self.key).unwrap().arc;
        proof {
            graph@.lemma_vertex(self.key);
        }
        arc
    }

    /// Gets the leading arc of the vertex, an arc that leaves it. A vertex
    /// without arcs has none.
    pub fn outgoing_edge(&self) -> (arc: Option<ArcView<&MeshGraph<G>, G>>)
        ensures
            match arc {
                Some(arc) => *arc.storage() == self.graph() && Some(arc.key())
                    == self.graph()@.vertices[self.key()],
                None => self.graph()@.vertices[self.key()] is None,
            },
    {
        match self.outgoing_key() {
            Some(arc) => Some(ArcView::bind(self.storage.reborrow(), arc)),
            None => None,
        }
    }

    /// Converts the vertex into its leading arc, an arc that leaves it. A
    /// vertex without arcs has none.
    pub fn into_outgoing_edge(self) -> (arc: Option<ArcView<M, G>>)
        ensures
            match arc {
                Some(arc) => arc.storage() == self.storage() && Some(arc.key())
                    == self.graph()@.vertices[self.key()],
                None => self.graph()@.vertices[self.key()] is None && has_resolved(
                    self.storage(),
                ),
            },
    {
        match self.outgoing_key() {
            Some(arc) => {
                let VertexView { storage, key: _, phantom: _ } = self;
                Some(ArcView::bind(storage, arc))
            },
            None => None,
        }
    }

    /// Gets the keys of the arcs that leave the vertex, in the order in which
    /// turning around the vertex from its leading arc meets them. A vertex
    /// without arcs has none.
    pub fn outgoing_arcs(&self) -> (arcs: Vec<ArcKey>)
        ensures
            match self.graph()@.vertices[self.key()] {
                Some(leader) => {
                    &&& is_period(self.graph()@.turn(), leader, arcs@.len())
                    &&& arcs@ == self.graph()@.fan_from(leader, arcs@.len())
                },
                None => arcs@.len() == 0,
            },
            forall|i: int|
                0 <= i < arcs@.len() ==> self.graph()@.arcs.contains_key(#[trigger] arcs@[i])
                    && arcs@[i].0 == self.key(),
    {
        match self.outgoing_key() {
            Some(leader) => self.storage.reborrow().binder().fan_arcs(leader),
            None => Vec::new(),
        }
    }

    /// Gets the keys of the arcs that enter the vertex: the opposites of the
    /// arcs that leave it, in the same order.
    pub fn incoming_arcs(&self) -> (arcs: Vec<ArcKey>)
        ensures
            match self.graph()@.vertices[self.key()] {
                Some(leader) => {
                    &&& is_period(self.graph()@.turn(), leader, arcs@.len())
                    &&& arcs@ == opposites(self.graph()@.fan_from(leader, arcs@.len()))
                },
                None => arcs@.len() == 0,
            },
            forall|i: int|
                0 <= i < arcs@.len() ==> self.graph()@.arcs.contains_key(#[trigger] arcs@[i])
                    && arcs@[i].1 == self.key(),
    {
        let outgoing = self.outgoing_arcs();
        let graph = self.storage.reborrow();
        graph.consistency();
        let mut arcs: Vec<ArcKey> = Vec::new();
        let mut i: usize = 0;
        while i < outgoing.len()
            invariant
                i <= outgoing@.len(),
                graph@.arcs_consistent(),
                arcs@ == opposites(outgoing@.take(i as int)),
                forall|j: int|
                    0 <= j < outgoing@.len() ==> graph@.arcs.contains_key(#[trigger] outgoing@[j])
                        && outgoing@[j].0 == self.key(),
                forall|j: int|
                    0 <= j < arcs@.len() ==> graph@.arcs.contains_key(#[trigger] arcs@[j])
                        && arcs@[j].1 == self.key(),
            decreases outgoing@.len() - i,
        {
            proof {
                graph@.lemma_opposite(outgoing@[i as int]);
            }
            arcs.push(outgoing[i].into_opposite());
            i = i + 1;
        }
        arcs
    }

    /// Gets the views of the arcs that enter the vertex, one at a time, in
    /// the order in which turning around the vertex from its leading arc
    /// meets them.
    pub fn edges(&self) -> (edges: EdgeCirculator<&MeshGraph<G>, G>)
        ensures
            *edges.storage() == self.graph(),
            edges.outgoing() == self.graph()@.vertices[self.key()],
            edges.breadcrumb() == self.graph()@.vertices[self.key()],
            edges.budget() == self.graph()@.arcs.dom().len(),
    {
        proof {
            use_type_invariant(self);
        }
        EdgeCirculator::new(VertexView::bind(self.storage.reborrow(), self.key))
    }

    /// Gets the views of the faces around the vertex, one at a time: the
    /// faces of the arcs that enter the vertex, in the order in which turning
    /// around the vertex from its leading arc meets them.
    pub fn faces(&self) -> (faces: FaceCirculator<&MeshGraph<G>, G>)
        ensures
            *faces.storage() == self.graph(),
            faces.outgoing() == self.graph()@.vertices[self.key()],
            faces.breadcrumb() == self.graph()@.vertices[self.key()],
            faces.budget() == self.graph()@.arcs.dom().len(),
    {
        FaceCirculator::from_edge_circulator(self.edges())
    }
}

impl<'a, G: GraphGeometry> Clone for VertexView<&'a MeshGraph<G>, G> {
    fn clone(&self) -> (view: Self)
        ensures
            view == *self,
    {
        *self
    }
}

impl<'a, G: GraphGeometry> Copy for VertexView<&'a MeshGraph<G>, G> {

}

impl<'a, G: GraphGeometry> VertexView<&'a mut MeshGraph<G>, G> {
    /// Converts a mutable view into an immutable view.
    pub fn into_ref(self) -> (view: VertexView<&'a MeshGraph<G>, G>)
        ensures
            *view.storage() == *old(self.storage()),
            *final(self.storage()) == *old(self.storage()),
            view.key() == self.key(),
    {
        proof {
            use_type_invariant(&self);
        }
        let VertexView { storage, key, phantom: _ } = self;
        VertexView::bind(&*storage, key)
    }

    /// Converts the vertex into the orphan view of its leading arc, an arc
    /// that leaves it. A vertex without arcs has none.
    pub fn outgoing_edge_mut(self) -> (arc: Option<ArcOrphan<'a, G>>)
        ensures
            match arc {
                Some(arc) => {
                    &&& Some(arc.key()) == old(self.storage())@.vertices[self.key()]
                    &&& *arc.storage() == *old(self.storage())
                    &&& *final(arc.storage()) == *final(self.storage())
                },
                None => {
                    &&& old(self.storage())@.vertices[self.key()] is None
                    &&& *final(self.storage()) == *old(self.storage())
                },
            },
    {
        let leader = self.outgoing_key();
        let VertexView { storage, key: _, phantom: _ } = self;
        match leader {
            Some(arc) => Some(ArcOrphan::bind(storage, arc)),
            None => None,
        }
    }

    /// Converts the vertex into the orphan views of the arcs that enter it,
    /// one at a time.
    pub fn edges_mut(self) -> (edges: EdgeCirculator<&'a mut MeshGraph<G>, G>)
        ensures
            *edges.storage() == *old(self.storage()),
            *final(edges.storage()) == *final(self.storage()),
            edges.outgoing() == old(self.storage())@.vertices[self.key()],
            edges.breadcrumb() == old(self.storage())@.vertices[self.key()],
            edges.budget() == old(self.storage())@.arcs.dom().len(),
    {
        EdgeCirculator::new(self)
    }

    /// Converts the vertex into the orphan views of the faces around it, one
    /// at a time.
    pub fn faces_mut(self) -> (faces: FaceCirculator<&'a mut MeshGraph<G>, G>)
        ensures
            *faces.storage() == *old(self.storage()),
            *final(faces.storage()) == *final(self.storage()),
            faces.outgoing() == old(self.storage())@.vertices[self.key()],
            faces.breadcrumb() == old(self.storage())@.vertices[self.key()],
            faces.budget() == old(self.storage())@.arcs.dom().len(),
    {
        FaceCirculator::from_edge_circulator(EdgeCirculator::new(self))
    }

    /// Converts the view into an orphan view of the vertex.
    pub fn into_orphan(self) -> (orphan: VertexOrphan<'a, G>)
        ensures
            *orphan.storage() == *old(self.storage()),
            *final(orphan.storage()) == *final(self.storage()),
            orphan.key() == self.key(),
    {
        proof {
            use_type_invariant(&self);
        }
        let VertexView { storage, key, phantom: _ } = self;
        VertexOrphan { storage, key }
    }
}

/// Orphan view of a vertex: the key of the vertex and its geometry, to read
/// and to replace, and no way to traverse the graph.
pub struct VertexOrphan<'a, G: GraphGeometry> {
    storage: &'a mut MeshGraph<G>,
    key: VertexKey,
}

impl<'a, G: GraphGeometry> VertexOrphan<'a, G> {
    #[verifier::type_invariant]
    spec fn bound(self) -> bool {
        self.storage@.vertices.contains_key(self.key)
    }

    /// The reference to the graph that the view holds.
    pub closed spec fn storage(&self) -> &'a mut MeshGraph<G> {
        self.storage
    }

    pub closed spec fn spec_key(&self) -> VertexKey {
        self.key
    }

    /// Binds an orphan view to a vertex of a graph.
    pub(crate) fn bind(storage: &'a mut MeshGraph<G>, key: VertexKey) -> (orphan: Self)
        requires
            old(storage)@.vertices.contains_key(key),
        ensures
            *orphan.storage() == *old(storage),
            *final(orphan.storage()) == *final(storage),
            orphan.key() == key,
    {
        VertexOrphan { storage, key }
    }

    /// Gets the key of the vertex.
    #[verifier::when_used_as_spec(spec_key)]
    pub fn key(&self) -> (key: VertexKey)
        ensures
            key == self.spec_key(),
            self.storage()@.vertices.contains_key(key),
    {
        proof {
            use_type_invariant(self);
        }
        self.key
    }

    /// Gets the geometry of the vertex.
    pub fn geometry(&self) -> (geometry: &G::Vertex)
        ensures
            *geometry == self.storage().vertex_geometry(self.key()),
    {
        proof {
            use_type_invariant(self);
        }
        &self.storage.binder().vertices.get(self.key).unwrap().geometry
    }

    /// Lets go of the vertex and leaves the graph as it is.
    pub fn release(self)
        ensures
            *final(self.storage()) == *old(self.storage()),
    {
    }

    /// Replaces the geometry of the vertex and hands back the geometry it
    /// had. Nothing else in the graph changes.
    pub fn replace(self, geometry: G::Vertex) -> (previous: G::Vertex)
        ensures
            previous == old(self.storage()).vertex_geometry(self.key()),
            final(self.storage())@ == old(self.storage())@,
            final(self.storage()).storage().vertices@ == old(
                self.storage(),
            ).storage().vertices@.insert(
                self.key(),
                VertexPayload {
                    geometry,
                    ..old(self.storage()).storage().vertices@[self.key()]
                },
            ),
            final(self.storage()).storage().arcs == old(self.storage()).storage().arcs,
            final(self.storage()).storage().edges == old(self.storage()).storage().edges,
            final(self.storage()).storage().faces == old(self.storage()).storage().faces,
    {
        proof {
            use_type_invariant(&self);
        }
        let VertexOrphan { storage, key } = self;
        storage.replace_vertex_geometry(key, geometry).unwrap()
    }
}

/// Orphan view of a vertex.
pub type OrphanVertexView<'a, G> = VertexOrphan<'a, G>;

/// What a circulator around a vertex is at: the arc that leaves the vertex
/// and comes next, the arc that the walk began with, and the number of arcs
/// that it may yet give.
pub struct Turn {
    pub outgoing: Option<ArcKey>,
    pub breadcrumb: Option<ArcKey>,
    pub budget: usize,
}

/// One step of a circulator around a vertex: the arc that it gives, which
/// enters the vertex, and what it is at after that.
///
/// The arc is the opposite of the arc that comes next. The walk goes on with
/// the arc that follows it, and is over once that is the arc that the walk
/// began with.
pub open spec fn turned(topology: Topology, turn: Turn) -> (Option<ArcKey>, Turn) {
    if turn.budget > 0 && turn.outgoing is Some && turn.breadcrumb is Some
        && topology.arcs.contains_key(turn.outgoing->0) {
        let incoming = (turn.outgoing->0).opposite();
        let next = topology.next(incoming);
        (
            Some(incoming),
            if turn.breadcrumb == Some(next) {
                Turn { breadcrumb: None, budget: (turn.budget - 1) as usize, ..turn }
            } else {
                Turn { outgoing: Some(next), budget: (turn.budget - 1) as usize, ..turn }
            },
        )
    } else {
        (None, turn)
    }
}

/// The arcs that `steps` steps of a circulator around a vertex give, in
/// order, and what the circulator is at after them.
pub open spec fn walked(topology: Topology, turn: Turn, steps: nat) -> (Seq<ArcKey>, Turn)
    decreases steps,
{
    if steps == 0 {
        (Seq::empty(), turn)
    } else {
        let (arcs, before) = walked(topology, turn, (steps - 1) as nat);
        let (arc, after) = turned(topology, before);
        match arc {
            Some(arc) => (arcs.push(arc), after),
            None => (arcs, after),
        }
    }
}

/// A circulator around a vertex gives each arc that enters the vertex once:
/// from the leading arc of the vertex it gives, step by step, the opposites
/// of the arcs that turning around the vertex meets, and it is over when the
/// turn is complete. Its budget, the number of arcs in the graph, is never
/// used up before that.
pub proof fn lemma_circulation(topology: Topology, leader: ArcKey, period: nat, budget: usize)
    requires
        topology.consistent(),
        topology.arcs.contains_key(leader),
        is_period(topology.turn(), leader, period),
        budget >= topology.arcs.dom().len(),
    ensures
        period <= budget,
        walked(
            topology,
            Turn { outgoing: Some(leader), breadcrumb: Some(leader), budget },
            period,
        ).0 == opposites(topology.fan_from(leader, period)),
        turned(
            topology,
            walked(
                topology,
                Turn { outgoing: Some(leader), breadcrumb: Some(leader), budget },
                period,
            ).1,
        ).0 is None,
{
    let step = topology.turn();
    topology.lemma_turn_permutes();
    crate::orbit::lemma_orbit_closes(step, topology.arcs.dom(), leader);
    lemma_circulation_steps(topology, leader, period, budget, (period - 1) as nat);
    crate::orbit::lemma_iterate_stays(step, topology.arcs.dom(), leader, (period - 1) as nat);
}

/// Before a turn around a vertex is complete, a circulator has given the
/// opposites of the arcs that the turn has met, and comes next to the arc
/// that the turn meets next.
proof fn lemma_circulation_steps(
    topology: Topology,
    leader: ArcKey,
    period: nat,
    budget: usize,
    steps: nat,
)
    requires
        topology.consistent(),
        topology.arcs.contains_key(leader),
        is_period(topology.turn(), leader, period),
        period <= budget,
        steps < period,
    ensures
        walked(
            topology,
            Turn { outgoing: Some(leader), breadcrumb: Some(leader), budget },
            steps,
        ) == (
            opposites(topology.fan_from(leader, steps)),
            Turn {
                outgoing: Some(crate::orbit::iterate(topology.turn(), leader, steps)),
                breadcrumb: Some(leader),
                budget: (budget - steps) as usize,
            },
        ),
    decreases steps,
{
    let step = topology.turn();
    if steps > 0 {
        lemma_circulation_steps(topology, leader, period, budget, (steps - 1) as nat);
        topology.lemma_turn_permutes();
        crate::orbit::lemma_iterate_stays(step, topology.arcs.dom(), leader, (steps - 1) as nat);
    }
}

/// The arcs that enter a vertex, one at a time. Over a shared reference to
/// the graph it gives views of the arcs, over an exclusive reference it gives
/// orphan views.
pub struct EdgeCirculator<M: Reborrow<G>, G: GraphGeometry> {
    storage: M,
    edge: Option<ArcKey>,
    breadcrumb: Option<ArcKey>,
    budget: usize,
    phantom: PhantomData<G>,
}

impl<M: Reborrow<G>, G: GraphGeometry> EdgeCirculator<M, G> {
    /// The reference to the graph that the views are bound to.
    pub closed spec fn storage(&self) -> M {
        self.storage
    }

    /// The arc that leaves the vertex and comes next.
    pub closed spec fn outgoing(&self) -> Option<ArcKey> {
        self.edge
    }

    /// The arc that the walk began with, until the walk is over.
    pub closed spec fn breadcrumb(&self) -> Option<ArcKey> {
        self.breadcrumb
    }

    /// The number of arcs that the circulator may yet give.
    pub closed spec fn budget(&self) -> usize {
        self.budget
    }

    /// What the circulator is at.
    pub open spec fn turn(&self) -> Turn {
        Turn { outgoing: self.outgoing(), breadcrumb: self.breadcrumb(), budget: self.budget() }
    }

    /// The circulator of the arcs that enter a vertex, which begins with the
    /// opposite of the leading arc of the vertex and gives no more arcs than
    /// the graph has.
    pub fn new(vertex: VertexView<M, G>) -> (edges: Self)
        ensures
            edges.storage() == vertex.storage(),
            edges.outgoing() == vertex.graph()@.vertices[vertex.key()],
            edges.breadcrumb() == vertex.graph()@.vertices[vertex.key()],
            edges.budget() == vertex.graph()@.arcs.dom().len(),
    {
        let edge = vertex.outgoing_key();
        let budget = vertex.storage.reborrow().arc_count();
        let VertexView { storage, key: _, phantom: _ } = vertex;
        EdgeCirculator { storage, edge, breadcrumb: edge, budget, phantom: PhantomData }
    }

    /// Gets the key of the next arc that enters the vertex.
    pub fn advance(&mut self) -> (arc: Option<ArcKey>)
        ensures
            final(self).storage() == old(self).storage(),
            (arc, final(self).turn()) == turned(old(self).storage().graph()@, old(self).turn()),
            arc matches Some(arc) ==> old(self).storage().graph()@.arcs.contains_key(arc),
    {
        let graph = self.storage.reborrow();
        graph.consistency();
        if self.budget == 0 {
            return None;
        }
        let outgoing = match self.edge {
            Some(outgoing) => outgoing,
            None => {
                return None;
            },
        };
        let crumb = match self.breadcrumb {
            Some(crumb) => crumb,
            None => {
                return None;
            },
        };
        if !graph.binder().arcs.contains_key(outgoing) {
            return None;
        }
        proof {
            graph@.lemma_opposite(outgoing);
        }
        let incoming = outgoing.into_opposite();
        let next = graph.binder().next_of(incoming);
        self.budget = self.budget - 1;
        if crumb == next {
            self.breadcrumb = None;
        } else {
            self.edge = Some(next);
        }
        Some(incoming)
    }
}

impl<'a, G: GraphGeometry> EdgeCirculator<&'a MeshGraph<G>, G> {
    /// Gets the view of the next arc that enters the vertex.
    pub fn next(&mut self) -> (arc: Option<ArcView<&'a MeshGraph<G>, G>>)
        ensures
            final(self).storage() == old(self).storage(),
            final(self).turn() == turned(old(self).storage()@, old(self).turn()).1,
            match arc {
                Some(arc) => Some(arc.key()) == turned(old(self).storage()@, old(self).turn()).0
                    && arc.storage() == old(self).storage(),
                None => turned(old(self).storage()@, old(self).turn()).0 is None,
            },
    {
        match self.advance() {
            Some(key) => self.storage.arc(key),
            None => None,
        }
    }
}

impl<'a, G: GraphGeometry> EdgeCirculator<&'a mut MeshGraph<G>, G> {
    /// Gets the orphan view of the next arc that enters the vertex.
    pub fn next(&mut self) -> (arc: Option<ArcOrphan<'_, G>>)
        ensures
            *final(final(self).storage()) == *final(old(self).storage()),
            final(self).turn() == turned(old(self).storage()@, old(self).turn()).1,
            match arc {
                Some(arc) => {
                    &&& Some(arc.key()) == turned(old(self).storage()@, old(self).turn()).0
                    &&& *arc.storage() == *old(self).storage()
                    &&& *final(arc.storage()) == *final(self).storage()
                },
                None => {
                    &&& turned(old(self).storage()@, old(self).turn()).0 is None
                    &&& *final(self).storage() == *old(self).storage()
                },
            },
    {
        match self.advance() {
            Some(key) => Some(ArcOrphan::bind(&mut *self.storage, key)),
            None => None,
        }
    }

    /// Ends the walk and gives the graph back as the views have left it.
    pub fn finish(self)
        ensures
            *final(self.storage()) == *old(self.storage()),
    {
    }
}

/// The faces around a vertex, one at a time: the faces of the arcs that
/// enter the vertex. Over a shared reference to the graph it gives views of
/// the faces, over an exclusive reference it gives orphan views.
pub struct FaceCirculator<M: Reborrow<G>, G: GraphGeometry> {
    inner: EdgeCirculator<M, G>,
}

impl<M: Reborrow<G>, G: GraphGeometry> FaceCirculator<M, G> {
    /// The reference to the graph that the views are bound to.
    pub closed spec fn storage(&self) -> M {
        self.inner.storage()
    }

    /// The arc that leaves the vertex and comes next.
    pub closed spec fn outgoing(&self) -> Option<ArcKey> {
        self.inner.outgoing()
    }

    /// The arc that the walk began with, until the walk is over.
    pub closed spec fn breadcrumb(&self) -> Option<ArcKey> {
        self.inner.breadcrumb()
    }

    /// The number of arcs that the circulator may yet pass.
    pub closed spec fn budget(&self) -> usize {
        self.inner.budget()
    }

    /// What the circulator is at.
    pub open spec fn turn(&self) -> Turn {
        Turn { outgoing: self.outgoing(), breadcrumb: self.breadcrumb(), budget: self.budget() }
    }

    /// The circulator of the faces of the arcs that a circulator of arcs
    /// gives.
    pub fn from_edge_circulator(edges: EdgeCirculator<M, G>) -> (faces: Self)
        ensures
            faces.storage() == edges.storage(),
            faces.turn() == edges.turn(),
    {
        FaceCirculator { inner: edges }
    }

    /// Gets the key of the next face around the vertex: the face of the next
    /// arc that enters the vertex and has one. The arcs before it are
    /// boundary arcs and are passed over.
    pub fn advance(&mut self) -> (face: Option<FaceKey>)
        ensures
            final(self).storage() == old(self).storage(),
            (face, final(self).turn()) == next_face(
                old(self).storage().graph()@,
                old(self).turn(),
            ),
            face matches Some(face) ==> old(self).storage().graph()@.faces.contains_key(face),
    {
        let ghost topology = self.inner.storage.graph()@;
        loop
            invariant
                self.inner.storage() == old(self).inner.storage(),
                topology == old(self).inner.storage().graph()@,
                next_face(topology, self.turn()) == next_face(topology, old(self).turn()),
            decreases self.inner.budget(),
        {
            match self.inner.advance() {
                Some(arc) => {
                    let graph = self.inner.storage.reborrow();
                    graph.consistency();
                    proof {
                        assert(graph@.arc_consistent(arc));
                    }
                    if let Some(face) = graph.binder().face_of(arc) {
                        return Some(face);
                    }
                },
                None => {
                    return None;
                },
            }
        }
    }
}

/// What a circulator of faces gives next, and what it is at after that: the
/// face of the first arc of the walk around the vertex that has one.
pub open spec fn next_face(topology: Topology, turn: Turn) -> (Option<FaceKey>, Turn)
    decreases turn.budget,
{
    let (arc, after) = turned(topology, turn);
    match arc {
        Some(arc) => match topology.arcs[arc].face {
            Some(face) => (Some(face), after),
            None => next_face(topology, after),
        },
        None => (None, after),
    }
}

impl<'a, G: GraphGeometry> FaceCirculator<&'a MeshGraph<G>, G> {
    /// Gets the view of the next face around the vertex.
    pub fn next(&mut self) -> (face: Option<FaceView<&'a MeshGraph<G>, G>>)
        ensures
            final(self).storage() == old(self).storage(),
            final(self).turn() == next_face(old(self).storage()@, old(self).turn()).1,
            match face {
                Some(face) => Some(face.key()) == next_face(
                    old(self).storage()@,
                    old(self).turn(),
                ).0 && face.storage() == old(self).storage(),
                None => next_face(old(self).storage()@, old(self).turn()).0 is None,
            },
    {
        match self.advance() {
            Some(key) => self.inner.storage.face(key),
            None => None,
        }
    }
}

impl<'a, G: GraphGeometry> FaceCirculator<&'a mut MeshGraph<G>, G> {
    /// Gets the orphan view of the next face around the vertex.
    pub fn next(&mut self) -> (face: Option<FaceOrphan<'_, G>>)
        ensures
            *final(final(self).storage()) == *final(old(self).storage()),
            final(self).turn() == next_face(old(self).storage()@, old(self).turn()).1,
            match face {
                Some(face) => {
                    &&& Some(face.key()) == next_face(old(self).storage()@, old(self).turn()).0
                    &&& *face.storage() == *old(self).storage()
                    &&& *final(face.storage()) == *final(self).storage()
                },
                None => {
                    &&& next_face(old(self).storage()@, old(self).turn()).0 is None
                    &&& *final(self).storage() == *old(self).storage()
                },
            },
    {
        match self.advance() {
            Some(key) => Some(FaceOrphan::bind(&mut *self.inner.storage, key)),
            None => None,
        }
    }

    /// Ends the walk and gives the graph back as the views have left it.
    pub fn finish(self)
        ensures
            *final(self.storage()) == *old(self.storage()),
    {
    }
}

/// The orphan views of some vertices of a graph, one at a time. Each view
/// borrows the graph until it is dropped, so no two of them live at once.
pub struct VertexOrphans<'a, G: GraphGeometry> {
    storage: &'a mut MeshGraph<G>,
    keys: Vec<VertexKey>,
    position: usize,
}

impl<'a, G: GraphGeometry> VertexOrphans<'a, G> {
    /// The reference to the graph that the views are bound to.
    pub closed spec fn storage(&self) -> &'a mut MeshGraph<G> {
        self.storage
    }

    /// The keys of the vertices that are still to come.
    pub closed spec fn remaining(&self) -> Seq<VertexKey> {
        if self.position <= self.keys@.len() {
            self.keys@.subrange(self.position as int, self.keys@.len() as int)
        } else {
            Seq::empty()
        }
    }

    /// Binds the orphan views of the given vertices of a graph.
    pub(crate) fn bind(storage: &'a mut MeshGraph<G>, keys: Vec<VertexKey>) -> (orphans: Self)
        ensures
            *orphans.storage() == *old(storage),
            *final(orphans.storage()) == *final(storage),
            orphans.remaining() == keys@,
    {
        let orphans = VertexOrphans { storage, keys, position: 0 };
        orphans
    }

    /// Gets the orphan view of the next vertex, or nothing once no vertex is
    /// left or where the next key is not in the graph.
    pub fn next(&mut self) -> (orphan: Option<VertexOrphan<'_, G>>)
        ensures
            *final(final(self).storage()) == *final(old(self).storage()),
            match orphan {
                Some(orphan) => {
                    &&& old(self).remaining().len() > 0
                    &&& orphan.key() == old(self).remaining()[0]
                    &&& *orphan.storage() == *old(self).storage()
                    &&& final(self).remaining() == old(self).remaining().drop_first()
                    &&& *final(orphan.storage()) == *final(self).storage()
                },
                None => {
                    &&& old(self).remaining().len() == 0 || !old(
                        self,
                    ).storage()@.vertices.contains_key(old(self).remaining()[0])
                    &&& *final(self).storage() == *old(self).storage()
                },
            },
    {
        if self.position < self.keys.len() {
            let key = self.keys[self.position];
            self.position = self.position + 1;
            if self.storage.binder().vertices.contains_key(key) {
                Some(VertexOrphan::bind(&mut *self.storage, key))
            } else {
                None
            }
        } else {
            None
        }
    }

    /// Ends the walk and gives the graph back as the views have left it.
    pub fn finish(self)
        ensures
            *final(self.storage()) == *old(self.storage()),
    {
    }
}

impl<G: GraphGeometry> MeshGraph<G> {
    /// Gets an immutable view of the vertex with the given key.
    pub fn vertex(&self, key: VertexKey) -> (view: Option<VertexView<&Self, G>>)
        ensures
            match view {
                Some(view) => self@.vertices.contains_key(key) && view.key() == key
                    && *view.storage() == *self,
                None => !self@.vertices.contains_key(key),
            },
    {
        if self.binder().vertices.contains_key(key) {
            Some(VertexView::bind(self, key))
        } else {
            None
        }
    }

    /// Gets a mutable view of the vertex with the given key.
    pub fn vertex_mut(&mut self, key: VertexKey) -> (view: Option<VertexView<&mut Self, G>>)
        ensures
            match view {
                Some(view) => {
                    &&& old(self)@.vertices.contains_key(key)
                    &&& view.key() == key
                    &&& *view.storage() == *old(self)
                    &&& *final(view.storage()) == *final(self)
                },
                None => !old(self)@.vertices.contains_key(key) && *final(self) == *old(self),
            },
    {
        if self.binder().vertices.contains_key(key) {
            Some(VertexView::bind(self, key))
        } else {
            None
        }
    }

    /// Gets immutable views over the vertices in the graph, in the order in which the vertices were inserted.
    pub fn vertices(&self) -> (views: Vec<VertexView<&Self, G>>)
        ensures
            views@.len() == self@.vertices.dom().len(),
            forall|i: int| 0 <= i < views@.len() ==> *(#[trigger] views@[i]).storage() == *self,
            forall|i: int|
                0 <= i < views@.len() ==> self@.vertices.contains_key((#[trigger] views@[i]).key()),
            forall|i: int, j: int|
                0 <= i < j < views@.len() ==> (#[trigger] views@[i]).key().0 < (
                #[trigger] views@[j]).key().0,
            forall|key: VertexKey|
                self@.vertices.contains_key(key) ==> exists|i: int|
                    0 <= i < views@.len() && (#[trigger] views@[i]).key() == key,
    {
        let keys = self.vertex_keys();
        proof {
            keys@.unique_seq_to_set();
        }
        let mut views: Vec<VertexView<&Self, G>> = Vec::new();
        let mut i: usize = 0;
        while i < keys.len()
            invariant
                i <= keys@.len(),
                in_issue_order(keys@, self@.vertices.dom()),
                views@.len() == i,
                forall|j: int| 0 <= j < i ==> *(#[trigger] views@[j]).storage() == *self,
                forall|j: int| 0 <= j < i ==> (#[trigger] views@[j]).key() == keys@[j],
            decreases keys@.len() - i,
        {
            views.push(VertexView::bind(self, keys[i]));
            i = i + 1;
        }
        proof {
            assert forall|key: VertexKey| self@.vertices.contains_key(key) implies exists|i: int|
                0 <= i < views@.len() && (#[trigger] views@[i]).key() == key by {
                let i = choose|i: int| 0 <= i < keys@.len() && keys@[i] == key;
                assert(views@[i].key() == key);
            }
        }
        views
    }

    /// Gets the orphan views of the vertices in the graph, one at a time.
    ///
    /// Because these are orphan views, only geometry can be written. For
    /// edits of the connectivity, collect the keys and use `vertex_mut`.
    pub fn orphan_vertices(&mut self) -> (orphans: VertexOrphans<'_, G>)
        ensures
            *orphans.storage() == *old(self),
            *final(orphans.storage()) == *final(self),
            orphans.remaining().no_duplicates(),
            orphans.remaining().to_set() == old(self)@.vertices.dom(),
    {
        let keys = self.vertex_keys();
        VertexOrphans::bind(self, keys)
    }
}

} // verus!
