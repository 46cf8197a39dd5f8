//! Keys that identify the elements of a graph.
//!
//! Vertices and faces are named by the slot they were inserted into. An arc is
//! named by the ordered pair of vertices it connects, so its opposite arc is
//! found by swapping the pair. An edge is named by the same pair in canonical
//! order, so both arcs of a composite edge agree on the edge's key.

use vstd::prelude::*;

verus! {

/// Key of a vertex.
#[derive(Clone, Copy, Debug, PartialEq, Eq, Structural, Hash, PartialOrd, Ord)]
pub struct VertexKey(pub u64);

/// Key of a face.
#[derive(Clone, Copy, Debug, PartialEq, Eq, Structural, Hash, PartialOrd, Ord)]
pub struct FaceKey(pub u64);

/// Key of an arc: the source vertex followed by the destination vertex.
#[derive(Clone, Copy, Debug, PartialEq, Eq, Structural, Hash, PartialOrd, Ord)]
pub struct ArcKey(pub VertexKey, pub VertexKey);

/// Key of an edge: the two vertices it joins, the smaller key first.
#[derive(Clone, Copy, Debug, PartialEq, Eq, Structural, Hash, PartialOrd, Ord)]
pub struct EdgeKey(pub VertexKey, pub VertexKey);

/// Number of distinct values of a vertex key; two of them pack into a `u128`.
pub const RADIX: u128 = 0x1_0000_0000_0000_0000u128;

/// A key of an element of a graph.
pub trait OpaqueKey: Copy {

}

impl OpaqueKey for VertexKey {

}

impl OpaqueKey for ArcKey {

}

impl OpaqueKey for EdgeKey {

}

impl OpaqueKey for FaceKey {

}

/// A key that names a slot of a `SlotStorage`.
pub trait SlotKey: OpaqueKey {
    /// The slot that the key names.
    spec fn slot(self) -> u64;

    /// The key that names a slot.
    spec fn at(slot: u64) -> Self;

    proof fn lemma_slot_of_at(slot: u64)
        ensures
            Self::at(slot).slot() == slot,
    ;

    proof fn lemma_at_of_slot(key: Self)
        ensures
            Self::at(key.slot()) == key,
    ;

    fn into_slot(self) -> (slot: u64)
        ensures
            slot == self.slot(),
    ;

    fn from_slot(slot: u64) -> (key: Self)
        ensures
            key == Self::at(slot),
    ;
}

/// A key that is a pair of vertex keys and names an entry of a `PairStorage`.
pub trait PairKey: OpaqueKey {
    /// The pair packed into one integer: the first vertex in the high half.
    spec fn packed(self) -> u128;

    /// The key that a packed pair stands for.
    spec fn unpacked(packed: u128) -> Self;

    proof fn lemma_packed_of_unpacked(packed: u128)
        ensures
            Self::unpacked(packed).packed() == packed,
    ;

    proof fn lemma_unpacked_of_packed(key: Self)
        ensures
            Self::unpacked(key.packed()) == key,
    ;

    fn pack(self) -> (packed: u128)
        ensures
            packed == self.packed(),
    ;

    fn unpack(packed: u128) -> (key: Self)
        ensures
            key == Self::unpacked(packed),
    ;
}

/// Packs two vertex slots into one integer.
pub open spec fn pack_pair(high: u64, low: u64) -> u128 {
    (high as int * RADIX as int + low as int) as u128
}

fn pack_slots(high: u64, low: u64) -> (packed: u128)
    ensures
        packed == pack_pair(high, low),
{
    let wide: u128 = high as u128;
    wide * RADIX + low as u128
}

fn high_slot(packed: u128) -> (high: u64)
    ensures
        high as int == packed as int / RADIX as int,
{
    (packed / RADIX) as u64
}

fn low_slot(packed: u128) -> (low: u64)
    ensures
        low as int == packed as int % RADIX as int,
{
    (packed % RADIX) as u64
}

impl SlotKey for VertexKey {
    open spec fn slot(self) -> u64 {
        self.0
    }

    open spec fn at(slot: u64) -> Self {
        VertexKey(slot)
    }

    proof fn lemma_slot_of_at(slot: u64) {
    }

    proof fn lemma_at_of_slot(key: Self) {
    }

    fn into_slot(self) -> (slot: u64) {
        self.0
    }

    fn from_slot(slot: u64) -> (key: Self) {
        VertexKey(slot)
    }
}

impl SlotKey for FaceKey {
    open spec fn slot(self) -> u64 {
        self.0
    }

    open spec fn at(slot: u64) -> Self {
        FaceKey(slot)
    }

    proof fn lemma_slot_of_at(slot: u64) {
    }

    proof fn lemma_at_of_slot(key: Self) {
    }

    fn into_slot(self) -> (slot: u64) {
        self.0
    }

    fn from_slot(slot: u64) -> (key: Self) {
        FaceKey(slot)
    }
}

impl ArcKey {
    /// The arc from `source` to `destination`.
    pub fn new(source: VertexKey, destination: VertexKey) -> (key: Self)
        ensures
            key == ArcKey(source, destination),
    {
        ArcKey(source, destination)
    }

    pub open spec fn spec_source(self) -> VertexKey {
        self.0
    }

    pub open spec fn spec_destination(self) -> VertexKey {
        self.1
    }

    pub open spec fn opposite(self) -> ArcKey {
        ArcKey(self.1, self.0)
    }

    /// The edge that this arc and its opposite form.
    pub open spec fn spec_edge(self) -> EdgeKey {
        if self.0.0 <= self.1.0 {
            EdgeKey(self.0, self.1)
        } else {
            EdgeKey(self.1, self.0)
        }
    }

    /// The vertex that the arc leaves.
    #[verifier::when_used_as_spec(spec_source)]
    pub fn source(self) -> (vertex: VertexKey)
        ensures
            vertex == self.0,
    {
        self.0
    }

    /// The vertex that the arc enters.
    #[verifier::when_used_as_spec(spec_destination)]
    pub fn destination(self) -> (vertex: VertexKey)
        ensures
            vertex == self.1,
    {
        self.1
    }

    /// The key of the arc that runs the other way. No storage is consulted.
    pub fn into_opposite(self) -> (key: Self)
        ensures
            key == self.opposite(),
    {
        ArcKey(self.1, self.0)
    }

    /// The key of the edge that this arc belongs to.
    #[verifier::when_used_as_spec(spec_edge)]
    pub fn edge(self) -> (key: EdgeKey)
        ensures
            key == self.spec_edge(),
    {
        if self.0.0 <= self.1.0 {
            EdgeKey(self.0, self.1)
        } else {
            EdgeKey(self.1, self.0)
        }
    }
}

impl EdgeKey {
    pub open spec fn spec_arc(self) -> ArcKey {
        ArcKey(self.0, self.1)
    }

    /// One of the two arcs of the edge: the one that leaves the smaller vertex.
    #[verifier::when_used_as_spec(spec_arc)]
    pub fn arc(self) -> (key: ArcKey)
        ensures
            key == self.spec_arc(),
    {
        ArcKey(self.0, self.1)
    }
}

impl PairKey for ArcKey {
    open spec fn packed(self) -> u128 {
        pack_pair(self.0.0, self.1.0)
    }

    open spec fn unpacked(packed: u128) -> Self {
        ArcKey(
            VertexKey((packed as int / RADIX as int) as u64),
            VertexKey((packed as int % RADIX as int) as u64),
        )
    }

    proof fn lemma_packed_of_unpacked(packed: u128) {
    }

    proof fn lemma_unpacked_of_packed(key: Self) {
    }

    fn pack(self) -> (packed: u128) {
        pack_slots(self.0.0, self.1.0)
    }

    fn unpack(packed: u128) -> (key: Self) {
        ArcKey(VertexKey(high_slot(packed)), VertexKey(low_slot(packed)))
    }
}

impl PairKey for EdgeKey {
    open spec fn packed(self) -> u128 {
        pack_pair(self.0.0, self.1.0)
    }

    open spec fn unpacked(packed: u128) -> Self {
        EdgeKey(
            VertexKey((packed as int / RADIX as int) as u64),
            VertexKey((packed as int % RADIX as int) as u64),
        )
    }

    proof fn lemma_packed_of_unpacked(packed: u128) {
    }

    proof fn lemma_unpacked_of_packed(key: Self) {
    }

    fn pack(self) -> (packed: u128) {
        pack_slots(self.0.0, self.1.0)
    }

    fn unpack(packed: u128) -> (key: Self) {
        EdgeKey(VertexKey(high_slot(packed)), VertexKey(low_slot(packed)))
    }
}

} // verus!
