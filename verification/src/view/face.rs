//! Views of faces and rings.

use crate::graph::MeshGraph;
use crate::key::{ArcKey, FaceKey, VertexKey};
use crate::mutation::face::{
    fan_growth, fan_refusal, fan_triangle, perimeter_arcs, ring_vertices,
};
use crate::orbit::is_period;
use crate::payload::{FacePayload, GraphGeometry};
use crate::selector::GraphError;
use crate::storage::in_issue_order;
use crate::view::Reborrow;
use crate::view::edge::ArcView;
use std::marker::PhantomData;
use vstd::prelude::*;

verus! {

/// View of a ring in a graph: the closed walk along next arcs through an
/// arc. The ring of an arc with a face is the ring of that face.
pub struct RingView<M: Reborrow<G>, G: GraphGeometry> {
    storage: M,
    arc: ArcKey,
    phantom: PhantomData<G>,
}

impl<M: Reborrow<G>, G: GraphGeometry> RingView<M, G> {
    #[verifier::type_invariant]
    spec fn bound(self) -> bool {
        self.storage.graph()@.arcs.contains_key(self.arc)
    }

    /// The reference to the graph that the view holds.
    pub closed spec fn storage(&self) -> M {
        self.storage
    }

    pub closed spec fn spec_arc(&self) -> ArcKey {
        self.arc
    }

    /// The graph of the view.
    pub open spec fn graph(&self) -> MeshGraph<G> {
        self.storage().graph()
    }

    /// The arcs of the ring that has `len` arcs, from the arc of the view on.
    pub open spec fn ring(&self, len: nat) -> Seq<ArcKey> {
        self.graph()@.ring_from(self.spec_arc(), len)
    }

    /// Binds a view to the ring of an arc of a graph.
    pub(crate) fn bind(storage: M, arc: ArcKey) -> (view: Self)
        requires
            storage.graph()@.arcs.contains_key(arc),
        ensures
            view.storage() == storage,
            view.spec_arc() == arc,
    {
        RingView { storage, arc, phantom: PhantomData }
    }

    /// Gets the key of the arc that the ring was reached by.
    pub fn arc_key(&self) -> (arc: ArcKey)
        ensures
            arc == self.spec_arc(),
            self.graph()@.arcs.contains_key(arc),
    {
        proof {
            use_type_invariant(self);
        }
        self.arc
    }

    /// Converts the ring into the arc that it was reached by.
    pub fn into_arc(self) -> (arc: ArcView<M, G>)
        ensures
            arc.storage() == self.storage(),
            arc.key() == self.spec_arc(),
    {
        proof {
            use_type_invariant(&self);
        }
        let RingView { storage, arc, phantom: _ } = self;
        ArcView::bind(storage, arc)
    }

    /// Gets the keys of the arcs of the ring, from the arc that the ring was
    /// reached by.
    pub fn arcs(&self) -> (arcs: Vec<ArcKey>)
        ensures
            is_period(self.graph()@.follow(), self.spec_arc(), arcs@.len()),
            arcs@ == self.ring(arcs@.len()),
            self.graph()@.is_ring(arcs@),
    {
        proof {
            use_type_invariant(self);
        }
        self.storage.reborrow().binder().ring_arcs(self.arc)
    }

    /// Gets the keys of the vertices of the ring, in order: the source of
    /// each arc of the ring.
    pub fn vertices(&self) -> (vertices: Vec<VertexKey>)
        ensures
            is_period(self.graph()@.follow(), self.spec_arc(), vertices@.len()),
            vertices@ == ring_vertices(self.ring(vertices@.len())),
    {
        let arcs = self.arcs();
        let mut vertices: Vec<VertexKey> = Vec::new();
        let mut i: usize = 0;
        while i < arcs.len()
            invariant
                i <= arcs@.len(),
                vertices@ == ring_vertices(arcs@.take(i as int)),
            decreases arcs@.len() - i,
        {
            vertices.push(arcs[i].source());
            i = i + 1;
        }
        vertices
    }

    /// Gets the number of arcs in the ring.
    pub fn arity(&self) -> (arity: usize)
        ensures
            is_period(self.graph()@.follow(), self.spec_arc(), arity as nat),
    {
        self.arcs().len()
    }

    /// Gets the key of the face of the ring, if it has one.
    pub fn face_key(&self) -> (face: Option<FaceKey>)
        ensures
            face == self.graph()@.arcs[self.spec_arc()].face,
    {
        proof {
            use_type_invariant(self);
        }
        self.storage.reborrow().binder().face_of(self.arc)
    }
}

impl<'a, G: GraphGeometry> Clone for RingView<&'a MeshGraph<G>, G> {
    fn clone(&self) -> (view: Self)
        ensures
            view == *self,
    {
        *self
    }
}

impl<'a, G: GraphGeometry> Copy for RingView<&'a MeshGraph<G>, G> {

}

/// View of a face in a graph.
pub struct FaceView<M: Reborrow<G>, G: GraphGeometry> {
    storage: M,
    key: FaceKey,
    phantom: PhantomData<G>,
}

impl<M: Reborrow<G>, G: GraphGeometry> FaceView<M, G> {
    #[verifier::type_invariant]
    spec fn bound(self) -> bool {
        self.storage.graph()@.faces.contains_key(self.key)
    }

    /// The reference to the graph that the view holds.
    pub closed spec fn storage(&self) -> M {
        self.storage
    }

    pub closed spec fn spec_key(&self) -> FaceKey {
        self.key
    }

    /// The graph of the view.
    pub open spec fn graph(&self) -> MeshGraph<G> {
        self.storage().graph()
    }

    /// Binds a view to a face of a graph.
    pub(crate) fn bind(storage: M, key: FaceKey) -> (view: Self)
        requires
            storage.graph()@.faces.contains_key(key),
        ensures
            view.storage() == storage,
            view.key() == key,
    {
        FaceView { storage, key, phantom: PhantomData }
    }

    /// Gets the key of the face.
    #[verifier::when_used_as_spec(spec_key)]
    pub fn key(&self) -> (key: FaceKey)
        ensures
            key == self.spec_key(),
            self.graph()@.faces.contains_key(key),
    {
        proof {
            use_type_invariant(self);
        }
        self.key
    }

    /// The payload of the face.
    pub fn payload(&self) -> (payload: &FacePayload<G>)
        ensures
            *payload == self.graph().storage().faces@[self.key()],
    {
        proof {
            use_type_invariant(self);
        }
        self.storage.reborrow().binder().faces.get(self.key).unwrap()
    }

    /// Gets the geometry of the face.
    pub fn geometry(&self) -> (geometry: &G::Face)
        ensures
            *geometry == self.graph().face_geometry(self.key()),
    {
        &self.payload().geometry
    }

    /// Gets the key of the leading arc of the face.
    pub fn arc_key(&self) -> (arc: ArcKey)
        ensures
            arc == self.graph()@.faces[self.key()],
            self.graph()@.arcs.contains_key(arc),
            self.graph()@.arcs[arc].face == Some(self.key()),
    {
        proof {
            use_type_invariant(self);
        }
        let graph = self.storage.reborrow();
        let arc = graph.binder().faces.get(self.key).unwrap().arc;
        proof {
            graph@.lemma_face(self.key);
            assert(graph@.ring_step(graph@.ring_of(self.key), 0));
        }
        arc
    }

    /// Converts the face into its leading arc.
    pub fn into_arc(self) -> (arc: ArcView<M, G>)
        ensures
            arc.storage() == self.storage(),
            arc.key() == self.graph()@.faces[self.key()],
    {
        let arc = self.arc_key();
        let FaceView { storage, key: _, phantom: _ } = self;
        ArcView::bind(storage, arc)
    }

    /// Gets the leading arc of the face.
    pub fn arc(&self) -> (arc: ArcView<&MeshGraph<G>, G>)
        ensures
            *arc.storage() == self.graph(),
            arc.key() == self.graph()@.faces[self.key()],
    {
        let arc = self.arc_key();
        ArcView::bind(self.storage.reborrow(), arc)
    }

    /// Converts the face into its ring.
    pub fn into_ring(self) -> (ring: RingView<M, G>)
        ensures
            ring.storage() == self.storage(),
            ring.spec_arc() == self.graph()@.faces[self.key()],
    {
        let arc = self.arc_key();
        let FaceView { storage, key: _, phantom: _ } = self;
        RingView::bind(storage, arc)
    }

    /// Gets the ring of the face.
    pub fn ring(&self) -> (ring: RingView<&MeshGraph<G>, G>)
        ensures
            *ring.storage() == self.graph(),
            ring.spec_arc() == self.graph()@.faces[self.key()],
    {
        let arc = self.arc_key();
        RingView::bind(self.storage.reborrow(), arc)
    }

    /// Gets the keys of the arcs of the ring of the face, from its leading
    /// arc on.
    pub fn arcs(&self) -> (arcs: Vec<ArcKey>)
        ensures
            arcs@ == self.graph()@.ring_of(self.key()),
            self.graph()@.is_face_ring(self.key(), arcs@),
    {
        let arc = self.arc_key();
        let graph = self.storage.reborrow();
        let arcs = graph.binder().ring_arcs(arc);
        proof {
            use_type_invariant(self);
            let topology = graph@;
            let ring = topology.ring_of(self.key());
            topology.lemma_face(self.key());
            topology.lemma_ring_is_walk(ring);
        }
        arcs
    }

    /// Gets the keys of the vertices of the face in the order of its ring,
    /// from the source of its leading arc on.
    pub fn vertices(&self) -> (vertices: Vec<VertexKey>)
        ensures
            vertices@ == ring_vertices(self.graph()@.ring_of(self.key())),
    {
        let arcs = self.arcs();
        let mut vertices: Vec<VertexKey> = Vec::new();
        let mut i: usize = 0;
        while i < arcs.len()
            invariant
                i <= arcs@.len(),
                vertices@ == ring_vertices(arcs@.take(i as int)),
            decreases arcs@.len() - i,
        {
            vertices.push(arcs[i].source());
            i = i + 1;
        }
        vertices
    }

    /// Gets the number of arcs in the ring of the face, which is at least
    /// three.
    pub fn arity(&self) -> (arity: usize)
        ensures
            arity == self.graph()@.ring_of(self.key()).len(),
            arity >= 3,
    {
        self.arcs().len()
    }
}

impl<'a, G: GraphGeometry> Clone for FaceView<&'a MeshGraph<G>, G> {
    fn clone(&self) -> (view: Self)
        ensures
            view == *self,
    {
        *self
    }
}

impl<'a, G: GraphGeometry> Copy for FaceView<&'a MeshGraph<G>, G> {

}

impl<'a, G: GraphGeometry> FaceView<&'a mut MeshGraph<G>, G> {
    /// Converts a mutable view into an immutable view.
    pub fn into_ref(self) -> (view: FaceView<&'a MeshGraph<G>, G>)
        ensures
            *view.storage() == *old(self.storage()),
            *final(self.storage()) == *old(self.storage()),
            view.key() == self.key(),
    {
        proof {
            use_type_invariant(&self);
        }
        let FaceView { storage, key, phantom: _ } = self;
        FaceView::bind(&*storage, key)
    }
}

impl<'a, G: GraphGeometry> FaceView<&'a mut MeshGraph<G>, G> {
    /// Decomposes the face into triangles: removes it and inserts the
    /// triangles of the fan over its ring from the source of its leading
    /// arc. Does nothing if the face is a triangle.
    ///
    /// Returns the keys of the faces that were inserted.
    ///
    /// # Errors
    ///
    /// Returns an error, and leaves the graph as it is, if a vertex occurs
    /// twice in the ring of the face, or if an edge joins the first vertex
    /// of the ring to a vertex that is not next to it in the ring.
    pub fn triangulate(self) -> (faces: Result<Vec<FaceKey>, GraphError>)
        ensures
            final(self.storage())@.consistent(),
            match faces {
                Ok(faces) => {
                    let perimeter = ring_vertices(old(self.storage())@.ring_of(self.key()));
                    &&& fan_refusal(old(self.storage())@, self.key()) is None
                    &&& perimeter.len() == 3 ==> faces@.len() == 0 && *final(self.storage())
                        == *old(self.storage())
                    &&& perimeter.len() > 3 ==> {
                        &&& faces@.len() == perimeter.len() - 2
                        &&& final(self.storage())@ == old(self.storage())@.without_face(
                            self.key(),
                        ).with_fan(perimeter, faces@, faces@.len())
                    }
                    &&& faces@.no_duplicates()
                    &&& forall|i: int|
                        0 <= i < faces@.len() ==> !old(self.storage())@.faces.contains_key(
                            #[trigger] faces@[i],
                        )
                    &&& forall|i: int|
                        0 <= i < faces@.len() ==> final(self.storage())@.is_face_ring(
                            #[trigger] faces@[i],
                            perimeter_arcs(fan_triangle(perimeter, i + 1)),
                        )
                    &&& forall|other: FaceKey, ring: Seq<ArcKey>|
                        other != self.key() && #[trigger] old(self.storage())@.is_face_ring(
                            other,
                            ring,
                        ) ==> final(self.storage())@.is_face_ring(other, ring)
                    &&& final(self.storage())@.faces.dom().len() == old(
                        self.storage(),
                    )@.faces.dom().len() + fan_growth(old(self.storage())@, self.key())
                    &&& final(self.storage())@.arcs.dom().len() == old(
                        self.storage(),
                    )@.arcs.dom().len() + 2 * fan_growth(old(self.storage())@, self.key())
                    &&& final(self.storage())@.vertices.dom() == old(
                        self.storage(),
                    )@.vertices.dom()
                    &&& final(self.storage()).storage().keeps_geometry_of(
                        &old(self.storage()).storage(),
                    )
                    &&& final(self.storage()).storage().furnishes(&old(self.storage()).storage())
                    &&& forall|i: int|
                        0 <= i < faces@.len() ==> vstd::pervasive::cloned(
                            old(self.storage()).face_geometry(self.key()),
                            final(self.storage()).face_geometry(#[trigger] faces@[i]),
                        )
                },
                Err(error) => {
                    &&& fan_refusal(old(self.storage())@, self.key()) == Some(error)
                    &&& *final(self.storage()) == *old(self.storage())
                },
            },
    {
        proof {
            use_type_invariant(&self);
        }
        let FaceView { storage, key, phantom: _ } = self;
        storage.triangulate_face(key)
    }

    /// Removes the face and returns its geometry. The arcs of its ring
    /// become boundary arcs.
    pub fn remove(self) -> (geometry: G::Face)
        ensures
            final(self.storage())@.consistent(),
            geometry == old(self.storage()).face_geometry(self.key()),
            final(self.storage())@ == old(self.storage())@.without_face(self.key()),
            final(self.storage()).storage().keeps_geometry_of(&old(self.storage()).storage()),
    {
        proof {
            use_type_invariant(&self);
        }
        let FaceView { storage, key, phantom: _ } = self;
        storage.remove_face(key).unwrap()
    }

    /// Converts the view into an orphan view of the face.
    pub fn into_orphan(self) -> (orphan: FaceOrphan<'a, G>)
        ensures
            *orphan.storage() == *old(self.storage()),
            *final(orphan.storage()) == *final(self.storage()),
            orphan.key() == self.key(),
    {
        proof {
            use_type_invariant(&self);
        }
        let FaceView { storage, key, phantom: _ } = self;
        FaceOrphan { storage, key }
    }
}

impl<'a, G: GraphGeometry> RingView<&'a mut MeshGraph<G>, G> {
    /// Converts a mutable view into an immutable view.
    pub fn into_ref(self) -> (view: RingView<&'a MeshGraph<G>, G>)
        ensures
            *view.storage() == *old(self.storage()),
            *final(self.storage()) == *old(self.storage()),
            view.spec_arc() == self.spec_arc(),
    {
        proof {
            use_type_invariant(&self);
        }
        let RingView { storage, arc, phantom: _ } = self;
        RingView::bind(&*storage, arc)
    }
}

/// Orphan view of a face: the key of the face and its geometry, to read and
/// to replace, and no way to traverse the graph.
pub struct FaceOrphan<'a, G: GraphGeometry> {
    storage: &'a mut MeshGraph<G>,
    key: FaceKey,
}

impl<'a, G: GraphGeometry> FaceOrphan<'a, G> {
    #[verifier::type_invariant]
    spec fn bound(self) -> bool {
        self.storage@.faces.contains_key(self.key)
    }

    /// The reference to the graph that the view holds.
    pub closed spec fn storage(&self) -> &'a mut MeshGraph<G> {
        self.storage
    }

    pub closed spec fn spec_key(&self) -> FaceKey {
        self.key
    }

    /// Binds an orphan view to a face of a graph.
    pub(crate) fn bind(storage: &'a mut MeshGraph<G>, key: FaceKey) -> (orphan: Self)
        requires
            old(storage)@.faces.contains_key(key),
        ensures
            *orphan.storage() == *old(storage),
            *final(orphan.storage()) == *final(storage),
            orphan.key() == key,
    {
        FaceOrphan { storage, key }
    }

    /// Gets the key of the face.
    #[verifier::when_used_as_spec(spec_key)]
    pub fn key(&self) -> (key: FaceKey)
        ensures
            key == self.spec_key(),
            self.storage()@.faces.contains_key(key),
    {
        proof {
            use_type_invariant(self);
        }
        self.key
    }

    /// Gets the geometry of the face.
    pub fn geometry(&self) -> (geometry: &G::Face)
        ensures
            *geometry == self.storage().face_geometry(self.key()),
    {
        proof {
            use_type_invariant(self);
        }
        &self.storage.binder().faces.get(self.key).unwrap().geometry
    }

    /// Lets go of the face and leaves the graph as it is.
    pub fn release(self)
        ensures
            *final(self.storage()) == *old(self.storage()),
    {
    }

    /// Replaces the geometry of the face and hands back the geometry it had.
    /// Nothing else in the graph changes.
    pub fn replace(self, geometry: G::Face) -> (previous: G::Face)
        ensures
            previous == old(self.storage()).face_geometry(self.key()),
            final(self.storage())@ == old(self.storage())@,
            final(self.storage()).storage().faces@ == old(self.storage()).storage().faces@.insert(
                self.key(),
                FacePayload { geometry, ..old(self.storage()).storage().faces@[self.key()] },
            ),
            final(self.storage()).storage().vertices == old(self.storage()).storage().vertices,
            final(self.storage()).storage().arcs == old(self.storage()).storage().arcs,
            final(self.storage()).storage().edges == old(self.storage()).storage().edges,
    {
        proof {
            use_type_invariant(&self);
        }
        let FaceOrphan { storage, key } = self;
        storage.replace_face_geometry(key, geometry).unwrap()
    }
}

/// The orphan views of some faces of a graph, one at a time. Each view
/// borrows the graph until it is dropped, so no two of them live at once.
pub struct FaceOrphans<'a, G: GraphGeometry> {
    storage: &'a mut MeshGraph<G>,
    keys: Vec<FaceKey>,
    position: usize,
}

impl<'a, G: GraphGeometry> FaceOrphans<'a, G> {
    /// The reference to the graph that the views are bound to.
    pub closed spec fn storage(&self) -> &'a mut MeshGraph<G> {
        self.storage
    }

    /// The keys of the faces that are still to come.
    pub closed spec fn remaining(&self) -> Seq<FaceKey> {
        if self.position <= self.keys@.len() {
            self.keys@.subrange(self.position as int, self.keys@.len() as int)
        } else {
            Seq::empty()
        }
    }

    /// Binds the orphan views of the given faces of a graph.
    pub(crate) fn bind(storage: &'a mut MeshGraph<G>, keys: Vec<FaceKey>) -> (orphans: Self)
        ensures
            *orphans.storage() == *old(storage),
            *final(orphans.storage()) == *final(storage),
            orphans.remaining() == keys@,
    {
        let orphans = FaceOrphans { storage, keys, position: 0 };
        orphans
    }

    /// Gets the orphan view of the next face, or nothing once no face is
    /// left or where the next key is not in the graph.
    pub fn next(&mut self) -> (orphan: Option<FaceOrphan<'_, G>>)
        ensures
            *final(final(self).storage()) == *final(old(self).storage()),
            match orphan {
                Some(orphan) => {
                    &&& old(self).remaining().len() > 0
                    &&& orphan.key() == old(self).remaining()[0]
                    &&& *orphan.storage() == *old(self).storage()
                    &&& final(self).remaining() == old(self).remaining().drop_first()
                    &&& *final(orphan.storage()) == *final(self).storage()
                },
                None => {
                    &&& old(self).remaining().len() == 0 || !old(
                        self,
                    ).storage()@.faces.contains_key(old(self).remaining()[0])
                    &&& *final(self).storage() == *old(self).storage()
                },
            },
    {
        if self.position < self.keys.len() {
            let key = self.keys[self.position];
            self.position = self.position + 1;
            if self.storage.binder().faces.contains_key(key) {
                Some(FaceOrphan::bind(&mut *self.storage, key))
            } else {
                None
            }
        } else {
            None
        }
    }
}

impl<'a, G: GraphGeometry> FaceOrphans<'a, G> {
    /// Ends the walk and gives the graph back as the views have left it.
    pub fn finish(self)
        ensures
            *final(self.storage()) == *old(self.storage()),
    {
    }
}

impl<G: GraphGeometry> MeshGraph<G> {
    /// Gets an immutable view of the face with the given key.
    pub fn face(&self, key: FaceKey) -> (view: Option<FaceView<&Self, G>>)
        ensures
            match view {
                Some(view) => self@.faces.contains_key(key) && view.key() == key
                    && *view.storage() == *self,
                None => !self@.faces.contains_key(key),
            },
    {
        if self.binder().faces.contains_key(key) {
            Some(FaceView::bind(self, key))
        } else {
            None
        }
    }

    /// Gets a mutable view of the face with the given key.
    pub fn face_mut(&mut self, key: FaceKey) -> (view: Option<FaceView<&mut Self, G>>)
        ensures
            match view {
                Some(view) => {
                    &&& old(self)@.faces.contains_key(key)
                    &&& view.key() == key
                    &&& *view.storage() == *old(self)
                    &&& *final(view.storage()) == *final(self)
                },
                None => !old(self)@.faces.contains_key(key) && *final(self) == *old(self),
            },
    {
        if self.binder().faces.contains_key(key) {
            Some(FaceView::bind(self, key))
        } else {
            None
        }
    }

    /// Gets immutable views over the faces in the graph, in the order in which the faces were inserted.
    pub fn faces(&self) -> (views: Vec<FaceView<&Self, G>>)
        ensures
            views@.len() == self@.faces.dom().len(),
            forall|i: int| 0 <= i < views@.len() ==> *(#[trigger] views@[i]).storage() == *self,
            forall|i: int|
                0 <= i < views@.len() ==> self@.faces.contains_key((#[trigger] views@[i]).key()),
            forall|i: int, j: int|
                0 <= i < j < views@.len() ==> (#[trigger] views@[i]).key().0 < (
                #[trigger] views@[j]).key().0,
            forall|key: FaceKey|
                self@.faces.contains_key(key) ==> exists|i: int|
                    0 <= i < views@.len() && (#[trigger] views@[i]).key() == key,
    {
        let keys = self.face_keys();
        proof {
            keys@.unique_seq_to_set();
        }
        let mut views: Vec<FaceView<&Self, G>> = Vec::new();
        let mut i: usize = 0;
        while i < keys.len()
            invariant
                i <= keys@.len(),
                in_issue_order(keys@, self@.faces.dom()),
                views@.len() == i,
                forall|j: int| 0 <= j < i ==> *(#[trigger] views@[j]).storage() == *self,
                forall|j: int| 0 <= j < i ==> (#[trigger] views@[j]).key() == keys@[j],
            decreases keys@.len() - i,
        {
            views.push(FaceView::bind(self, keys[i]));
            i = i + 1;
        }
        proof {
            assert forall|key: FaceKey| self@.faces.contains_key(key) implies exists|i: int|
                0 <= i < views@.len() && (#[trigger] views@[i]).key() == key by {
                let i = choose|i: int| 0 <= i < keys@.len() && keys@[i] == key;
                assert(views@[i].key() == key);
            }
        }
        views
    }

    /// Gets the orphan views of the faces in the graph, one at a time.
    ///
    /// Because these are orphan views, only geometry can be written. For
    /// edits of the connectivity, collect the keys and use `face_mut`.
    pub fn orphan_faces(&mut self) -> (orphans: FaceOrphans<'_, G>)
        ensures
            *orphans.storage() == *old(self),
            *final(orphans.storage()) == *final(self),
            orphans.remaining().no_duplicates(),
            orphans.remaining().to_set() == old(self)@.faces.dom(),
    {
        let keys = self.face_keys();
        FaceOrphans::bind(self, keys)
    }
}

} // verus!
