//! A confidential-ledger runtime: contracts that transfer value and run
//! governance while amounts, senders and recipients stay hidden behind
//! commitments and zero-knowledge proofs.

use vstd::prelude::*;

pub mod client;
pub mod consensus;
pub mod dao_mint;
pub mod dao_propose;
pub mod entrypoint;
pub mod field;
pub mod objstore;
pub mod shape;
pub mod store;
pub mod util;
pub mod metadata;
pub mod zk;
pub mod merkle;
pub mod model;

verus! {

/// The smallest task id not yet taken, starting the search at 1.
pub fn find_free_id(task_ids: &Vec<u32>) -> (r: u32)
    requires
        task_ids@.len() < u32::MAX - 1,
    ensures
        r >= 1,
        !task_ids@.contains(r),
        forall|j: u32| 1 <= j < r ==> task_ids@.contains(j),
{
    let mut i: u32 = 1;
    loop
        invariant
            task_ids@.len() < u32::MAX - 1,
            1 <= i <= task_ids@.len() + 1,
            forall|j: u32| 1 <= j < i ==> task_ids@.contains(j),
        decreases task_ids@.len() + 2 - i,
    {
        let mut found = false;
        let mut k: usize = 0;
        while k < task_ids.len()
            invariant
                0 <= k <= task_ids@.len(),
                found <==> exists|m: int| 0 <= m < k && task_ids@[m] == i,
            decreases task_ids@.len() - k,
        {
            if task_ids[k] == i {
                found = true;
            }
            k = k + 1;
        }
        if !found {
            assert(!task_ids@.contains(i));
            return i;
        }
        assert(task_ids@.contains(i));
        i = i + 1;
        proof {
            if i > task_ids@.len() + 1 {
                lemma_taken_ids_bound(task_ids@, (i - 1) as u32);
            }
        }
    }
}

/// Among any `n` distinct required values 1..=n, a list shorter than `n`
/// cannot contain them all.
proof fn lemma_taken_ids_bound(ids: Seq<u32>, n: u32)
    requires
        forall|j: u32| 1 <= j <= n ==> ids.contains(j),
    ensures
        ids.len() >= n,
    decreases n,
{
    if n > 0 {
        assert(ids.contains(n));
        let idx = choose|m: int| 0 <= m < ids.len() && ids[m] == n;
        assert(0 <= idx < ids.len() && ids[idx] == n);
        let rest = ids.remove(idx);
        assert(rest.len() == ids.len() - 1);
        assert forall|j: u32| 1 <= j <= n - 1 implies rest.contains(j) by {
            assert(ids.contains(j));
            let mj = choose|m: int| 0 <= m < ids.len() && ids[m] == j;
            assert(0 <= mj < ids.len() && ids[mj] == j);
            if mj < idx {
                assert(rest[mj] == j);
                assert(rest.contains(j));
            } else {
                assert(mj > idx);
                assert(rest[mj - 1] == j);
                assert(rest.contains(j));
            }
        }
        lemma_taken_ids_bound(rest, (n - 1) as u32);
    }
}

} // verus!
