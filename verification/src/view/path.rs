//! Views of paths.

use crate::graph::MeshGraph;
use crate::key::{ArcKey, VertexKey};
use crate::payload::GraphGeometry;
use crate::view::Reborrow;
use std::marker::PhantomData;
use vstd::prelude::*;

verus! {

/// The arcs along a path over the given vertices: from each vertex to the
/// next.
pub open spec fn path_arcs(keys: Seq<VertexKey>) -> Seq<ArcKey> {
    Seq::new((keys.len() - 1) as nat, |i: int| ArcKey(keys[i], keys[i + 1]))
}

/// View of a path in a graph: a walk over vertices along arcs, which need
/// not follow each other in a ring.
pub struct PathView<M: Reborrow<G>, G: GraphGeometry> {
    storage: M,
    keys: Vec<VertexKey>,
    phantom: PhantomData<G>,
}

impl<M: Reborrow<G>, G: GraphGeometry> PathView<M, G> {
    #[verifier::type_invariant]
    spec fn bound(self) -> bool {
        &&& self.keys@.len() >= 2
        &&& forall|i: int|
            0 <= i < self.keys@.len() - 1 ==> self.storage.graph()@.arcs.contains_key(
                #[trigger] path_arcs(self.keys@)[i],
            )
    }

    /// The reference to the graph that the view holds.
    pub closed spec fn storage(&self) -> M {
        self.storage
    }

    /// The vertices of the path, in order.
    pub closed spec fn spec_keys(&self) -> Seq<VertexKey> {
        self.keys@
    }

    /// The graph of the view.
    pub open spec fn graph(&self) -> MeshGraph<G> {
        self.storage().graph()
    }

    /// The path along one arc of a graph.
    pub(crate) fn from_arc(storage: M, arc: ArcKey) -> (path: Self)
        requires
            storage.graph()@.arcs.contains_key(arc),
        ensures
            path.storage() == storage,
            path.spec_keys() == seq![arc.0, arc.1],
    {
        let mut keys: Vec<VertexKey> = Vec::new();
        keys.push(arc.source());
        keys.push(arc.destination());
        PathView { storage, keys, phantom: PhantomData }
    }

    /// The path over the given vertices of a graph, if there is an arc from
    /// each of them to the next and they are two at least.
    pub fn try_from_keys(storage: M, keys: &[VertexKey]) -> (path: Option<Self>)
        ensures
            match path {
                Some(path) => {
                    &&& path.storage() == storage
                    &&& path.spec_keys() == keys@
                    &&& keys@.len() >= 2
                    &&& forall|i: int|
                        0 <= i < keys@.len() - 1 ==> storage.graph()@.arcs.contains_key(
                            #[trigger] path_arcs(keys@)[i],
                        )
                },
                None => {
                    &&& keys@.len() < 2 || exists|i: int|
                        0 <= i < keys@.len() - 1 && !storage.graph()@.arcs.contains_key(
                            #[trigger] path_arcs(keys@)[i],
                        )
                    &&& has_resolved(storage)
                },
            },
    {
        if keys.len() < 2 {
            return None;
        }
        let mut kept: Vec<VertexKey> = Vec::new();
        kept.push(keys[0]);
        let mut i: usize = 0;
        while i < keys.len() - 1
            invariant
                keys@.len() >= 2,
                i <= keys@.len() - 1,
                kept@ == keys@.take(i as int + 1),
                forall|j: int|
                    0 <= j < i ==> storage.graph()@.arcs.contains_key(
                        #[trigger] path_arcs(keys@)[j],
                    ),
            decreases keys@.len() - i,
        {
            let arc = ArcKey::new(keys[i], keys[i + 1]);
            assert(arc == path_arcs(keys@)[i as int]);
            if !storage.reborrow().binder().arcs.contains_key(arc) {
                return None;
            }
            kept.push(keys[i + 1]);
            i = i + 1;
        }
        assert(kept@ =~= keys@);
        Some(PathView { storage, keys: kept, phantom: PhantomData })
    }

    /// Gets the keys of the vertices of the path, in order.
    pub fn vertices(&self) -> (keys: &Vec<VertexKey>)
        ensures
            keys@ == self.spec_keys(),
            keys@.len() >= 2,
    {
        proof {
            use_type_invariant(self);
        }
        &self.keys
    }

    /// Gets the keys of the arcs along the path, in order. Each of them is
    /// in the graph.
    pub fn arcs(&self) -> (arcs: Vec<ArcKey>)
        ensures
            arcs@ == path_arcs(self.spec_keys()),
            forall|i: int| 0 <= i < arcs@.len() ==> self.graph()@.arcs.contains_key(#[trigger] arcs@[i]),
    {
        proof {
            use_type_invariant(self);
        }
        let mut arcs: Vec<ArcKey> = Vec::new();
        let mut i: usize = 0;
        while i < self.keys.len() - 1
            invariant
                self.keys@.len() >= 2,
                i <= self.keys@.len() - 1,
                arcs@ == path_arcs(self.keys@).take(i as int),
            decreases self.keys@.len() - i,
        {
            arcs.push(ArcKey::new(self.keys[i], self.keys[i + 1]));
            i = i + 1;
        }
        arcs
    }
}

impl<'a, G: GraphGeometry> PathView<&'a mut MeshGraph<G>, G> {
    /// Converts a mutable view into an immutable view.
    pub fn into_ref(self) -> (view: PathView<&'a MeshGraph<G>, G>)
        ensures
            *view.storage() == *old(self.storage()),
            *final(self.storage()) == *old(self.storage()),
            view.spec_keys() == self.spec_keys(),
    {
        proof {
            use_type_invariant(&self);
        }
        let PathView { storage, keys, phantom: _ } = self;
        PathView { storage: &*storage, keys, phantom: PhantomData }
    }
}

} // verus!
