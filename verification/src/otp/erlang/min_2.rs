//! `erlang:min/2`.
use vstd::prelude::*;
use crate::digits::Order;
use crate::term::{SpecTerm, Term};
use crate::term_order::{compare, compare_terms, lemma_compare_antisymmetric, lemma_compare_reflexive};

verus! {

/// The smaller of two terms in the term order; the first when they compare equal.
pub open spec fn spec_min(first: SpecTerm, second: SpecTerm) -> SpecTerm {
    if compare_terms(second, first) == Order::Less {
        second
    } else {
        first
    }
}

/// `min(first, second)`: the smaller of the two terms; `first` when they compare
/// equal.
pub fn native(first: Term, second: Term) -> (min: Term)
    ensures
        min@ == spec_min(first@, second@),
{
    match compare(&second, &first) {
        Order::Less => second,
        _ => first,
    }
}

/// The minimum of two terms is one of them, and neither is smaller than it.
pub proof fn lemma_min_is_least(first: SpecTerm, second: SpecTerm)
    ensures
        spec_min(first, second) == first || spec_min(first, second) == second,
        compare_terms(spec_min(first, second), first) != Order::Greater,
        compare_terms(spec_min(first, second), second) != Order::Greater,
        compare_terms(first, second) != Order::Greater ==> spec_min(first, second) == first,
{
    lemma_compare_reflexive(first);
    lemma_compare_reflexive(second);
    lemma_compare_antisymmetric(first, second);
}

} // verus!
