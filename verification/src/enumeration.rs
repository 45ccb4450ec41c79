//! Walking through every visiting order, one at a time, with
//! `itertools::Permutations`.

use vstd::prelude::*;
use itertools::Itertools;
use itertools::Permutations;
use std::vec::IntoIter;
use crate::orders::is_identity_order;
use crate::orders::is_visiting_order;
use crate::orders::lex_less;

verus! {

/// `itertools::Permutations`, the iterator that `Itertools::permutations`
/// returns. Nothing of its inside is known here.
#[verifier::external_type_specification]
#[verifier::external_body]
#[verifier::reject_recursive_types(I)]
pub struct ExPermutations<I: Iterator>(Permutations<I>);

/// The orders that the iterator has still to hand out before it first
/// reports its end, in the order in which they come.
pub uninterp spec fn pending_orders(it: Permutations<IntoIter<u16>>) -> Seq<Seq<u16>>;

/// `all` holds every visiting order of `n` cities, each once, in the order of
/// a dictionary.
pub open spec fn lists_all_orders(all: Seq<Seq<u16>>, n: nat) -> bool {
    &&& forall|k: int| 0 <= k < all.len() ==> is_visiting_order(#[trigger] all[k], n)
    &&& forall|order: Seq<u16>| #[trigger] is_visiting_order(order, n) ==> all.contains(order)
    &&& forall|i: int, j: int| 0 <= i < j < all.len() ==> lex_less(#[trigger] all[i], #[trigger] all[j])
}

/// Calls `Itertools::permutations` on the cities, with their number as the
/// length of each permutation. Not proved: that for cities `0, 1, .., n - 1`
/// given in this order the iterator hands out every arrangement of them once,
/// and in the order of a dictionary.
#[verifier::external_body]
pub(crate) fn permutations_of(cities: Vec<u16>) -> (it: Permutations<IntoIter<u16>>)
    requires
        is_identity_order(cities@),
    ensures
        lists_all_orders(pending_orders(it), cities@.len()),
{
    let length = cities.len();
    cities.into_iter().permutations(length)
}

/// Calls `Iterator::next` of `itertools::Permutations`. Not proved: that it
/// hands out the first of the pending orders and leaves the rest pending, and
/// that it reports the end when none is pending.
#[verifier::external_body]
pub(crate) fn next_order(it: &mut Permutations<IntoIter<u16>>) -> (order: Option<Vec<u16>>)
    ensures
        pending_orders(*old(it)).len() == 0 ==> order is None,
        pending_orders(*old(it)).len() > 0 ==> order is Some && order->0@ == pending_orders(
            *old(it),
        )[0] && pending_orders(*final(it)) == pending_orders(*old(it)).skip(1),
{
    it.next()
}

} // verus!
