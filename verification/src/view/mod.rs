//! Views of the elements of a graph.
//!
//! A view is a key together with a reference to the graph that holds the
//! element. Over a shared reference it reads and traverses; over an exclusive
//! reference it also edits, and while it lives nothing else can reach the
//! graph. An orphan view reaches the geometry of its element and nothing
//! else.

pub mod edge;
pub mod face;
pub mod path;
pub mod vertex;

use crate::graph::MeshGraph;
use crate::payload::GraphGeometry;
use vstd::prelude::*;

verus! {

/// A reference to a graph, shared or exclusive.
pub trait Reborrow<G: GraphGeometry> {
    /// The graph that is referred to.
    spec fn graph(&self) -> MeshGraph<G>;

    /// A shared reference to the graph.
    fn reborrow(&self) -> (graph: &MeshGraph<G>)
        ensures
            *graph == self.graph(),
    ;
}

impl<'a, G: GraphGeometry> Reborrow<G> for &'a MeshGraph<G> {
    open spec fn graph(&self) -> MeshGraph<G> {
        **self
    }

    fn reborrow(&self) -> (graph: &MeshGraph<G>) {
        *self
    }
}

impl<'a, G: GraphGeometry> Reborrow<G> for &'a mut MeshGraph<G> {
    open spec fn graph(&self) -> MeshGraph<G> {
        **self
    }

    fn reborrow(&self) -> (graph: &MeshGraph<G>) {
        &**self
    }
}

} // verus!
