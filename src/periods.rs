use crate::activity::{
    acts_valid, has_activity, PeriodActivity,
};
use crate::calendar::period_in_range;
use vstd::prelude::*;

verus! {

/// Each element is smaller than the next.
pub open spec fn strictly_increasing(s: Seq<i64>) -> bool {
    forall|i: int, j: int| 0 <= i < j < s.len() ==> s[i] < s[j]
}

/// Adds `x` to a strictly increasing list of periods, unless it is there.
pub fn insert_sorted(v: &mut Vec<i64>, x: i64)
    requires
        strictly_increasing(old(v)@),
    ensures
        strictly_increasing(final(v)@),
        forall|y: i64| #[trigger] final(v)@.contains(y) <==> (old(v)@.contains(y) || y == x),
{
    let mut k: usize = 0;
    while k < v.len() && v[k] < x
        invariant
            k <= v@.len(),
            forall|j: int| 0 <= j < k ==> v@[j] < x,
        decreases v@.len() - k,
    {
        k += 1;
    }
    if k < v.len() && v[k] == x {
        return;
    }
    let ghost old_v = v@;
    v.insert(k, x);
    assert forall|i: int, j: int| 0 <= i < j < v@.len() implies v@[i] < v@[j] by {
        if j < k {
            assert(v@[i] == old_v[i] && v@[j] == old_v[j]);
        } else if j == k {
            assert(v@[i] == old_v[i]);
        } else if i < k {
            assert(v@[j] == old_v[j - 1]);
            assert(v@[i] == old_v[i]);
            assert(old_v[k as int] > x);
            if j - 1 > k {
                assert(old_v[k as int] < old_v[j - 1]);
            }
        } else if i == k {
            assert(v@[j] == old_v[j - 1]);
            assert(old_v[k as int] > x);
            if j - 1 > k {
                assert(old_v[k as int] < old_v[j - 1]);
            }
        } else {
            assert(v@[j] == old_v[j - 1] && v@[i] == old_v[i - 1]);
        }
    }
    assert forall|y: i64| #[trigger] v@.contains(y) <==> (old_v.contains(y) || y == x) by {
        if v@.contains(y) {
            let j = choose|j: int| 0 <= j < v@.len() && v@[j] == y;
            if j < k {
                assert(old_v[j] == y);
            } else if j > k {
                assert(old_v[j - 1] == y);
            }
        }
        if old_v.contains(y) {
            let j = choose|j: int| 0 <= j < old_v.len() && old_v[j] == y;
            if j < k {
                assert(v@[j] == y);
            } else {
                assert(v@[j + 1] == y);
            }
        }
        if y == x {
            assert(v@[k as int] == x);
        }
    }
}

/// The periods in which some user is active, in increasing order.
pub fn active_periods(acts: &Vec<PeriodActivity>) -> (r: Vec<i64>)
    requires
        acts_valid(acts@),
    ensures
        strictly_increasing(r@),
        forall|p: i64| #[trigger] r@.contains(p) <==> has_activity(acts@, p as int),
        forall|i: int| 0 <= i < r@.len() ==> period_in_range(#[trigger] r@[i] as int),
{
    let mut r: Vec<i64> = Vec::new();
    let mut i: usize = 0;
    while i < acts.len()
        invariant
            i <= acts@.len(),
            acts_valid(acts@),
            strictly_increasing(r@),
            forall|p: i64|
                #[trigger] r@.contains(p) <==> exists|j: int|
                    0 <= j < i && acts@[j].amount > 0 && #[trigger] acts@[j].period == p,
        decreases acts@.len() - i,
    {
        if acts[i].amount > 0 {
            insert_sorted(&mut r, acts[i].period);
        }
        proof {
            assert forall|p: i64|
                #[trigger] r@.contains(p) <==> exists|j: int|
                    0 <= j < i + 1 && acts@[j].amount > 0 && #[trigger] acts@[j].period == p by {
                if r@.contains(p) && !(acts@[i as int].amount > 0 && acts@[i as int].period == p) {
                    let j = choose|j: int| 0 <= j < i && acts@[j].amount > 0 && #[trigger] acts@[j].period == p;
                }
                if exists|j: int| 0 <= j < i + 1 && acts@[j].amount > 0 && #[trigger] acts@[j].period == p {
                    let j = choose|j: int| 0 <= j < i + 1 && acts@[j].amount > 0 && #[trigger] acts@[j].period == p;
                    if j < i {
                        assert(exists|j: int| 0 <= j < i && acts@[j].amount > 0 && #[trigger] acts@[j].period == p);
                    }
                }
            }
        }
        i += 1;
    }
    assert forall|p: i64| #[trigger] r@.contains(p) <==> has_activity(acts@, p as int) by {
        if r@.contains(p) {
            let j = choose|j: int| 0 <= j < acts@.len() && acts@[j].amount > 0 && #[trigger] acts@[j].period == p;
        }
        if has_activity(acts@, p as int) {
            let j = choose|j: int|
                0 <= j < acts@.len() && acts@[j].amount > 0 && #[trigger] acts@[j].period as int == p;
        }
    }
    assert forall|i: int| 0 <= i < r@.len() implies period_in_range(#[trigger] r@[i] as int) by {
        assert(r@.contains(r@[i]));
        let j = choose|j: int| 0 <= j < acts@.len() && acts@[j].amount > 0 && #[trigger] acts@[j].period == r@[i];
    }
    r
}

} // verus!
