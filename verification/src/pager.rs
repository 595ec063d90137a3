//! Pagination arithmetic and offset/limit windowing over listings.

use vstd::prelude::*;

use vstd::arithmetic::div_mod::lemma_fundamental_div_mod;
use vstd::arithmetic::div_mod::lemma_mod_bound;

use crate::verified_contract::VerifiedContract;

verus! {

/// Number of pages needed to show `total` items at `limit` items per page:
/// the rounding-up division `(total + limit - 1) / limit`.
pub open spec fn spec_page_count(total: int, limit: int) -> int
    recommends
        limit > 0,
{
    (total + limit - 1) / limit
}

/// LAW (page count): for every `total >= 0` and `limit > 0` the page count
/// is exactly the ceiling of `total / limit`: the least `p >= 0` whose `p`
/// pages of `limit` items hold all `total` items.
pub proof fn lemma_page_count_is_ceil(total: int, limit: int)
    requires
        total >= 0,
        limit > 0,
    ensures
        spec_page_count(total, limit) >= 0,
        spec_page_count(total, limit) * limit >= total,
        (spec_page_count(total, limit) - 1) * limit < total,
{
    let p = spec_page_count(total, limit);
    lemma_fundamental_div_mod(total + limit - 1, limit);
    lemma_mod_bound(total + limit - 1, limit);
    let r = (total + limit - 1) % limit;
    assert(total + limit - 1 == limit * p + r);
    assert(p >= 0 && p * limit >= total && (p - 1) * limit < total) by (nonlinear_arith)
        requires
            total >= 0,
            limit > 0,
            0 <= r < limit,
            total + limit - 1 == limit * p + r,
    ;
}

/// The page an offset/limit pair selects from a listing: drop the first
/// `from_index` entries, then keep at most `limit` of what is left.
pub open spec fn window<T>(s: Seq<T>, from_index: int, limit: int) -> Seq<T>
    recommends
        0 <= from_index,
        0 <= limit,
{
    let lo = if from_index > s.len() { s.len() as int } else { from_index };
    let hi = if from_index + limit > s.len() { s.len() as int } else { from_index + limit };
    s.subrange(lo, hi)
}

/// Copies the page `window` selects out of a full listing.
pub(crate) fn window_contracts(
    list: &Vec<(String, VerifiedContract)>,
    from_index: usize,
    limit: usize,
) -> (res: Vec<(String, VerifiedContract)>)
    ensures
        res.deep_view() == window(list.deep_view(), from_index as int, limit as int),
{
    let lo = if from_index > list.len() { list.len() } else { from_index };
    let remaining = list.len() - lo;
    let take = if limit > remaining { remaining } else { limit };
    let hi = lo + take;
    let mut res: Vec<(String, VerifiedContract)> = Vec::new();
    let mut i = lo;
    while i < hi
        invariant
            lo <= i <= hi <= list@.len(),
            res@.len() == i - lo,
            forall|k: int| 0 <= k < res@.len() ==> #[trigger] res.deep_view()[k]
                == list.deep_view()[lo + k],
        decreases hi - i,
    {
        let entry = (list[i].0.clone(), list[i].1.clone());
        proof {
            assert(entry.deep_view() == list.deep_view()[i as int]);
        }
        let ghost pre = res;
        res.push(entry);
        proof {
            assert forall|k: int| 0 <= k < res@.len() implies #[trigger] res.deep_view()[k]
                == list.deep_view()[lo + k] by {
                if k < pre@.len() {
                    assert(res@[k] == pre@[k]);
                    assert(pre.deep_view()[k] == list.deep_view()[lo + k]);
                } else {
                    assert(res@[k] == entry);
                }
            }
        }
        i = i + 1;
    }
    proof {
        assert(res.deep_view() =~= window(list.deep_view(), from_index as int, limit as int));
    }
    res
}

} // verus!
