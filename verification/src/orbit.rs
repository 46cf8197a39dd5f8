//! Orbits of a function that maps a finite set into itself one to one: every
//! walk from an element of the set comes back to it.

use vstd::prelude::*;

verus! {

/// The element reached from `start` by `steps` applications of `step`.
pub open spec fn iterate<A>(step: spec_fn(A) -> A, start: A, steps: nat) -> A
    decreases steps,
{
    if steps == 0 {
        start
    } else {
        step(iterate(step, start, (steps - 1) as nat))
    }
}

/// `step` maps the set into itself, and no two elements of the set to the
/// same element.
pub open spec fn permutes<A>(step: spec_fn(A) -> A, domain: Set<A>) -> bool {
    &&& forall|a: A| domain.contains(a) ==> domain.contains(#[trigger] step(a))
    &&& forall|a: A, b: A|
        domain.contains(a) && domain.contains(b) && #[trigger] step(a) == #[trigger] step(b)
            ==> a == b
}

/// `period` steps from `start` lead back to it, and fewer do not.
pub open spec fn is_period<A>(step: spec_fn(A) -> A, start: A, period: nat) -> bool {
    &&& period >= 1
    &&& iterate(step, start, period) == start
    &&& forall|fewer: nat| 1 <= fewer < period ==> #[trigger] iterate(step, start, fewer) != start
}

/// A walk from an element of the set stays in the set.
pub proof fn lemma_iterate_stays<A>(step: spec_fn(A) -> A, domain: Set<A>, start: A, steps: nat)
    requires
        permutes(step, domain),
        domain.contains(start),
    ensures
        domain.contains(iterate(step, start, steps)),
    decreases steps,
{
    if steps > 0 {
        lemma_iterate_stays(step, domain, start, (steps - 1) as nat);
    }
}

/// If a walk meets an element twice, it has come back to its start between
/// the two.
pub proof fn lemma_iterate_back<A>(
    step: spec_fn(A) -> A,
    domain: Set<A>,
    start: A,
    first: nat,
    second: nat,
)
    requires
        permutes(step, domain),
        domain.contains(start),
        first <= second,
        iterate(step, start, first) == iterate(step, start, second),
    ensures
        iterate(step, start, (second - first) as nat) == start,
    decreases first,
{
    if first > 0 {
        lemma_iterate_stays(step, domain, start, (first - 1) as nat);
        lemma_iterate_stays(step, domain, start, (second - 1) as nat);
        lemma_iterate_back(step, domain, start, (first - 1) as nat, (second - 1) as nat);
    }
}

/// A walk from an element of a finite set comes back to it within as many
/// steps as the set has elements.
pub proof fn lemma_orbit_closes<A>(step: spec_fn(A) -> A, domain: Set<A>, start: A)
    requires
        permutes(step, domain),
        domain.finite(),
        domain.contains(start),
    ensures
        exists|steps: nat| 1 <= steps <= domain.len() && #[trigger] iterate(step, start, steps) == start,
{
    let size = domain.len();
    if forall|steps: nat| 1 <= steps <= size ==> #[trigger] iterate(step, start, steps) != start {
        let walk = Seq::new(size + 1, |i: int| iterate(step, start, i as nat));
        assert forall|i: int, j: int| 0 <= i < walk.len() && 0 <= j < walk.len() && i
            != j implies walk[i] != walk[j] by {
            if walk[i] == walk[j] {
                if i < j {
                    lemma_iterate_back(step, domain, start, i as nat, j as nat);
                } else {
                    lemma_iterate_back(step, domain, start, j as nat, i as nat);
                }
            }
        }
        walk.unique_seq_to_set();
        assert forall|a: A| walk.to_set().contains(a) implies domain.contains(a) by {
            let i = choose|i: int| 0 <= i < walk.len() && walk[i] == a;
            lemma_iterate_stays(step, domain, start, i as nat);
        }
        vstd::set_lib::lemma_len_subset(walk.to_set(), domain);
    }
}

} // verus!
