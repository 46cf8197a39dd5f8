//! What the library takes from other crates. The contracts in this file are
//! not proved: each states what the documentation or the source of the crate
//! says of the function that is called.

use crate::key::VertexKey;
use arrayvec::ArrayVec;
use fool::BoolExt;
use itertools::{Itertools, MinMaxResult};
use num::NumCast;
use smallvec::SmallVec;
use vstd::prelude::*;

verus! {

/// `arrayvec::ArrayVec`: a vector with a fixed capacity, stored inline.
#[verifier::external_type_specification]
#[verifier::external_body]
#[verifier::reject_recursive_types(T)]
pub struct ExArrayVec<T, const CAP: usize>(ArrayVec<T, CAP>);

/// The vertices around a face, in a `smallvec::SmallVec` that keeps up to
/// four of them inline.
#[verifier::external_body]
pub struct Perimeter {
    keys: SmallVec<[VertexKey; 4]>,
}

/// The slots of the keys that an `ArrayVec` of capacity two holds, in order.
pub uninterp spec fn held_keys(keys: ArrayVec<u64, 2>) -> Seq<u64>;

/// The vertex keys that the `SmallVec` of a perimeter holds, in order.
pub uninterp spec fn held_perimeter(perimeter: Perimeter) -> Seq<VertexKey>;

/// `fool::BoolExt::then_some_ext`: the value if the condition holds, else
/// nothing.
#[verifier::external_body]
pub(crate) fn some_if<T>(condition: bool, value: T) -> (chosen: Option<T>)
    ensures
        chosen == if condition { Some(value) } else { None },
{
    condition.then_some_ext(value)
}

/// `ArrayVec::from` an array of two: the vector holds the two items in the
/// order of the array.
#[verifier::external_body]
pub(crate) fn pair_of_keys(first: u64, second: u64) -> (keys: ArrayVec<u64, 2>)
    ensures
        held_keys(keys) == seq![first, second],
{
    ArrayVec::from([first, second])
}

/// `ArrayVec::new`: a vector that holds nothing.
#[verifier::external_body]
pub(crate) fn no_keys() -> (keys: ArrayVec<u64, 2>)
    ensures
        held_keys(keys) == Seq::<u64>::empty(),
{
    ArrayVec::new()
}

/// `ArrayVec::push`: appends an item to a vector that is not full. The call
/// panics on a full vector, so that is left out.
#[verifier::external_body]
pub(crate) fn push_key(keys: &mut ArrayVec<u64, 2>, key: u64)
    requires
        held_keys(*old(keys)).len() < 2,
    ensures
        held_keys(*final(keys)) == held_keys(*old(keys)).push(key),
{
    keys.push(key)
}

/// `ArrayVec::as_slice`: the items of the vector, in order.
#[verifier::external_body]
pub(crate) fn keys_as_slice(keys: &ArrayVec<u64, 2>) -> (slice: &[u64])
    ensures
        slice@ == held_keys(*keys),
{
    keys.as_slice()
}

/// `SmallVec::from_slice`: a vector that holds copies of the items of the
/// slice, in order.
#[verifier::external_body]
pub(crate) fn perimeter_of(keys: &[VertexKey]) -> (perimeter: Perimeter)
    ensures
        held_perimeter(perimeter) == keys@,
{
    Perimeter { keys: SmallVec::from_slice(keys) }
}

/// `SmallVec::as_slice`: the items of the vector, in order.
#[verifier::external_body]
pub(crate) fn perimeter_as_slice(perimeter: &Perimeter) -> (slice: &[VertexKey])
    ensures
        slice@ == held_perimeter(*perimeter),
{
    perimeter.keys.as_slice()
}

/// The least and the greatest of some numbers.
#[derive(Clone, Copy, Debug, PartialEq, Eq, Structural)]
pub enum Extent {
    NoElements,
    OneElement(usize),
    MinMax(usize, usize),
}

/// What `Extent` is that of the numbers.
pub open spec fn is_extent_of(extent: Extent, values: Seq<usize>) -> bool {
    match extent {
        Extent::NoElements => values.len() == 0,
        Extent::OneElement(only) => values.len() == 1 && values[0] == only,
        Extent::MinMax(least, greatest) => {
            &&& values.len() >= 2
            &&& values.contains(least)
            &&& values.contains(greatest)
            &&& forall|i: int| 0 <= i < values.len() ==> least <= #[trigger] values[i] <= greatest
        },
    }
}

/// `itertools::Itertools::minmax`: nothing for no numbers, the number for
/// one, and the least and the greatest of them for more.
#[verifier::external_body]
pub(crate) fn minmax_of(values: &Vec<usize>) -> (extent: Extent)
    ensures
        is_extent_of(extent, values@),
{
    match values.iter().copied().minmax() {
        MinMaxResult::NoElements => Extent::NoElements,
        MinMaxResult::OneElement(only) => Extent::OneElement(only),
        MinMaxResult::MinMax(least, greatest) => Extent::MinMax(least, greatest),
    }
}

/// The number of chunks of `size` items that `len` items make, the last of
/// which may be short.
pub open spec fn chunk_count(len: nat, size: nat) -> nat {
    ((len + size - 1) / size as int) as nat
}

/// The chunk at `i` of a sequence cut into chunks of `size` items.
pub open spec fn chunk_at(items: Seq<u64>, size: nat, i: int) -> Seq<u64> {
    items.subrange(
        i * size,
        if (i + 1) * size <= items.len() {
            (i + 1) * size
        } else {
            items.len() as int
        },
    )
}

/// `itertools::Itertools::chunks`: the items in order, cut into chunks of
/// `size` items; the last chunk holds what is left. The call panics for a
/// size of zero, so that is left out.
#[verifier::external_body]
pub(crate) fn chunks_of(items: &Vec<u64>, size: usize) -> (chunks: Vec<Vec<u64>>)
    requires
        size > 0,
    ensures
        chunks@.len() == chunk_count(items@.len(), size as nat),
        forall|i: int| 0 <= i < chunks@.len() ==> (#[trigger] chunks@[i])@ == chunk_at(items@, size as nat, i),
{
    let mut chunks = Vec::new();
    for chunk in &items.iter().copied().chunks(size) {
        chunks.push(chunk.collect());
    }
    chunks
}

/// `num::NumCast::from` for `usize`: the number as a `usize` if it can be
/// represented as one, else nothing.
#[verifier::external_body]
pub(crate) fn index_of(raw: u64) -> (index: Option<usize>)
    ensures
        index == if raw <= usize::MAX {
            Some(raw as usize)
        } else {
            None
        },
{
    <usize as NumCast>::from(raw)
}

} // verus!
