//! Sorting levels by price.

use vstd::prelude::*;
use itertools::Itertools;

use crate::models::LevelRecord;

verus! {

/// Some entry of `perm` is `k`.
pub open spec fn takes_index(perm: Seq<int>, k: int) -> bool {
    exists|i: int| 0 <= i < perm.len() && perm[i] == k
}

/// Every entry of `perm` is an index of a sequence of length `n`, each index once.
pub open spec fn is_permutation(perm: Seq<int>, n: nat) -> bool {
    &&& perm.len() == n
    &&& forall|i: int| 0 <= i < n ==> 0 <= #[trigger] perm[i] < n
    &&& forall|i: int, j: int| 0 <= i < j < n ==> perm[i] != perm[j]
    &&& forall|k: int| 0 <= k < n ==> #[trigger] takes_index(perm, k)
}

/// `output` holds the levels of `input` in ascending order of price, levels of
/// equal price in the order they had in `input`.
pub open spec fn is_stable_sort_by_price(input: Seq<LevelRecord>, output: Seq<LevelRecord>) -> bool {
    &&& output.len() == input.len()
    &&& forall|i: int, j: int| 0 <= i < j < output.len() ==> output[i].price <= output[j].price
    &&& exists|perm: Seq<int>|
        {
            &&& is_permutation(perm, input.len())
            &&& forall|i: int| 0 <= i < output.len() ==> output[i] == input[#[trigger] perm[i]]
            &&& forall|i: int, j: int|
                0 <= i < j < output.len() && output[i].price == output[j].price ==> perm[i]
                    < perm[j]
        }
}

/// Sorts levels by ascending price with `itertools::Itertools::sorted_by_key`,
/// the key being the price.
///
/// Trusted: `sorted_by_key` collects the items into a `Vec` and sorts it with
/// the standard library's `sort_by_key`, which its documentation calls stable;
/// the contract states exactly that the result is a stable sort of the input.
#[verifier::external_body]
pub(crate) fn sort_by_price(levels: Vec<LevelRecord>) -> (sorted: Vec<LevelRecord>)
    ensures
        is_stable_sort_by_price(levels@, sorted@),
{
    levels.into_iter().sorted_by_key(|level| level.price).collect()
}

} // verus!
