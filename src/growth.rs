use crate::activity::{
    active_in, acts_valid, amount_of, count_users, distinct_users, events_valid, first_period,
    has_activity, is_cohort_start, lemma_active_iff_event, lemma_count_none, lemma_count_nonneg,
    lemma_count_split, lemma_user_list, roll_up, roll_up_spec, user_list, ActivityEvent,
    PeriodActivity,
};
use crate::calendar::{period_in_range, Granularity};
use crate::periods::{active_periods, insert_sorted, strictly_increasing};
use vstd::prelude::*;

verus! {

/// One month of monthly-active-user accounting. `month` is a month index
/// (year * 12 + month - 1); `churned` is stored as a non-positive number.
#[derive(Clone, Copy, Debug, PartialEq, Eq, Structural)]
pub struct MAUGrowthAccountingResult {
    pub month: i64,
    pub mau: i64,
    pub retained: i64,
    pub new: i64,
    pub resurrected: i64,
    pub churned: i64,
}

/// Users active in period `t`.
pub open spec fn active_at(acts: Seq<PeriodActivity>, t: int) -> spec_fn(Seq<char>) -> bool {
    |u: Seq<char>| active_in(acts, u, t)
}

/// Users active in period `t` and in the period before.
pub open spec fn retained_at(acts: Seq<PeriodActivity>, t: int) -> spec_fn(Seq<char>) -> bool {
    |u: Seq<char>| active_in(acts, u, t) && active_in(acts, u, t - 1)
}

/// Users whose first active period is `t`.
pub open spec fn new_at(acts: Seq<PeriodActivity>, t: int) -> spec_fn(Seq<char>) -> bool {
    |u: Seq<char>| is_cohort_start(acts, u, t)
}

/// Users active in `t`, not for the first time, after an inactive period.
pub open spec fn resurrected_at(acts: Seq<PeriodActivity>, t: int) -> spec_fn(Seq<char>) -> bool {
    |u: Seq<char>|
        active_in(acts, u, t) && !is_cohort_start(acts, u, t) && !active_in(acts, u, t - 1)
}

/// Users active in the period before `t` and not in `t`.
pub open spec fn churned_at(acts: Seq<PeriodActivity>, t: int) -> spec_fn(Seq<char>) -> bool {
    |u: Seq<char>| active_in(acts, u, t - 1) && !active_in(acts, u, t)
}

/// The months that get a row: those with activity, and those right after one.
pub open spec fn mau_row_month(acts: Seq<PeriodActivity>, t: int) -> bool {
    has_activity(acts, t) || has_activity(acts, t - 1)
}

/// The counts of a row are those of its month.
pub open spec fn mau_row_matches(acts: Seq<PeriodActivity>, r: MAUGrowthAccountingResult) -> bool {
    let us = user_list(acts);
    let t = r.month as int;
    &&& r.mau == count_users(us, active_at(acts, t))
    &&& r.retained == count_users(us, retained_at(acts, t))
    &&& r.new == count_users(us, new_at(acts, t))
    &&& r.resurrected == count_users(us, resurrected_at(acts, t))
    &&& r.churned == -count_users(us, churned_at(acts, t))
}

/// `users` holds the stream's distinct users, in order.
pub open spec fn users_match(acts: Seq<PeriodActivity>, users: Seq<String>) -> bool {
    &&& users.len() == user_list(acts).len()
    &&& forall|k: int| 0 <= k < users.len() ==> #[trigger] users[k]@ == user_list(acts)[k]
}

/// `firsts` holds the first active period of each user of `users`.
pub open spec fn firsts_match(
    acts: Seq<PeriodActivity>, users: Seq<String>,
    firsts: Seq<Option<i64>>,
) -> bool {
    &&& firsts.len() == users.len()
    &&& forall|k: int|
        0 <= k < firsts.len() ==> (#[trigger] firsts[k] matches Some(p) ==> is_cohort_start(
            acts,
            users[k]@,
            p as int,
        ) && period_in_range(p as int))
    &&& forall|k: int|
        0 <= k < firsts.len() ==> (#[trigger] firsts[k] is None ==> forall|q: int|
            !#[trigger] active_in(acts, users[k]@, q))
}

/// A user has one first active period at most.
pub proof fn lemma_cohort_start_unique(acts: Seq<PeriodActivity>, u: Seq<char>, p: int, q: int)
    requires
        is_cohort_start(acts, u, p),
        is_cohort_start(acts, u, q),
    ensures
        p == q,
{
    if p < q {
        assert(!active_in(acts, u, p));
    } else if q < p {
        assert(!active_in(acts, u, q));
    }
}

/// The first active period of each user.
pub fn cohort_starts(acts: &Vec<PeriodActivity>, users: &Vec<String>) -> (r: Vec<Option<i64>>)
    requires
        acts_valid(acts@),
    ensures
        firsts_match(acts@, users@, r@),
{
    let mut r: Vec<Option<i64>> = Vec::new();
    let mut k: usize = 0;
    while k < users.len()
        invariant
            k <= users@.len(),
            acts_valid(acts@),
            r@.len() == k,
            forall|j: int|
                0 <= j < k ==> (#[trigger] r@[j] matches Some(p) ==> is_cohort_start(
                    acts@,
                    users@[j]@,
                    p as int,
                ) && period_in_range(p as int)),
            forall|j: int|
                0 <= j < k ==> (#[trigger] r@[j] is None ==> forall|q: int|
                    !#[trigger] active_in(acts@, users@[j]@, q)),
        decreases users@.len() - k,
    {
        let f = first_period(acts, &users[k]);
        r.push(f);
        k += 1;
    }
    r
}

/// Whether a user's first active period is `t`.
fn starts_at(first: Option<i64>, t: i64) -> (r: bool)
    ensures
        r == (first == Some(t)),
{
    match first {
        Some(p) => p == t,
        None => false,
    }
}

/// The accounting row of month `t`.
fn mau_row(
    acts: &Vec<PeriodActivity>,
    users: &Vec<String>,
    firsts: &Vec<Option<i64>>,
    t: i64,
) -> (r: MAUGrowthAccountingResult)
    requires
        acts_valid(acts@),
        users_match(acts@, users@),
        firsts_match(acts@, users@, firsts@),
        -0x10_0000_0002 <= t <= 0x10_0000_0002,
    ensures
        r.month == t,
        mau_row_matches(acts@, r),
{
    let ghost us = user_list(acts@);
    let ghost ti = t as int;
    proof {
        lemma_user_list(acts@);
    }
    let mut mau: i64 = 0;
    let mut retained: i64 = 0;
    let mut new: i64 = 0;
    let mut resurrected: i64 = 0;
    let mut churned: i64 = 0;
    let mut k: usize = 0;
    while k < users.len()
        invariant
            k <= users@.len(),
            acts_valid(acts@),
            users_match(acts@, users@),
            firsts_match(acts@, users@, firsts@),
            us == user_list(acts@),
            us.len() <= acts@.len(),
            ti == t,
            -0x10_0000_0002 <= t <= 0x10_0000_0002,
            mau == count_users(us.take(k as int), active_at(acts@, ti)),
            retained == count_users(us.take(k as int), retained_at(acts@, ti)),
            new == count_users(us.take(k as int), new_at(acts@, ti)),
            resurrected == count_users(us.take(k as int), resurrected_at(acts@, ti)),
            churned == -count_users(us.take(k as int), churned_at(acts@, ti)),
        decreases users@.len() - k,
    {
        let ghost pre = us.take(k as int);
        let ghost next = us.take(k as int + 1);
        let ghost u = us[k as int];
        assert(next.drop_last() =~= pre);
        assert(next.last() == u);
        assert(users@[k as int]@ == u);
        proof {
            lemma_count_nonneg(pre, active_at(acts@, ti));
            lemma_count_nonneg(pre, retained_at(acts@, ti));
            lemma_count_nonneg(pre, new_at(acts@, ti));
            lemma_count_nonneg(pre, resurrected_at(acts@, ti));
            lemma_count_nonneg(pre, churned_at(acts@, ti));
        }
        let now = amount_of(acts, &users[k], t) > 0;
        let before = amount_of(acts, &users[k], t - 1) > 0;
        let starts = starts_at(firsts[k], t);
        proof {
            if starts {
                assert(is_cohort_start(acts@, u, ti));
            } else {
                if is_cohort_start(acts@, u, ti) {
                    match firsts@[k as int] {
                        Some(p) => {
                            lemma_cohort_start_unique(acts@, u, p as int, ti);
                        },
                        None => {
                            assert(!active_in(acts@, u, ti));
                        },
                    }
                }
            }
        }
        if now {
            mau = mau + 1;
        }
        if now && before {
            retained = retained + 1;
        }
        if starts {
            new = new + 1;
        }
        if now && !starts && !before {
            resurrected = resurrected + 1;
        }
        if before && !now {
            churned = churned - 1;
        }
        k += 1;
    }
    assert(us.take(us.len() as int) =~= us);
    MAUGrowthAccountingResult { month: t, mau, retained, new, resurrected, churned }
}

/// The months that get a row, in increasing order.
pub fn mau_row_months(acts: &Vec<PeriodActivity>) -> (r: Vec<i64>)
    requires
        acts_valid(acts@),
    ensures
        strictly_increasing(r@),
        forall|t: int| (exists|i: int| 0 <= i < r@.len() && r@[i] == t) <==> #[trigger] mau_row_month(acts@, t),
        forall|i: int| 0 <= i < r@.len() ==> -0x10_0000_0002 <= #[trigger] r@[i] <= 0x10_0000_0002,
{
    let act = active_periods(acts);
    let mut r: Vec<i64> = Vec::new();
    let mut i: usize = 0;
    while i < act.len()
        invariant
            i <= act@.len(),
            strictly_increasing(r@),
            forall|j: int| 0 <= j < act@.len() ==> period_in_range(#[trigger] act@[j] as int),
            forall|y: i64|
                #[trigger] r@.contains(y) <==> exists|j: int|
                    0 <= j < i && (act@[j] == y || act@[j] + 1 == y),
        decreases act@.len() - i,
    {
        let m = act[i];
        assert(period_in_range(act@[i as int] as int));
        insert_sorted(&mut r, m);
        insert_sorted(&mut r, m + 1);
        proof {
            assert forall|y: i64|
                #[trigger] r@.contains(y) <==> exists|j: int|
                    0 <= j < i + 1 && (act@[j] == y || act@[j] + 1 == y) by {
                if r@.contains(y) && y != m && y != m + 1 {
                    let j = choose|j: int| 0 <= j < i && (act@[j] == y || act@[j] + 1 == y);
                }
                if exists|j: int| 0 <= j < i + 1 && (act@[j] == y || act@[j] + 1 == y) {
                    let j = choose|j: int| 0 <= j < i + 1 && (act@[j] == y || act@[j] + 1 == y);
                    if j < i {
                        assert(exists|j: int| 0 <= j < i && (act@[j] == y || act@[j] + 1 == y));
                    }
                }
            }
        }
        i += 1;
    }
    assert forall|t: int| (exists|i: int| 0 <= i < r@.len() && r@[i] == t) <==> #[trigger] mau_row_month(acts@, t) by {
        if exists|i: int| 0 <= i < r@.len() && r@[i] == t {
            let i = choose|i: int| 0 <= i < r@.len() && r@[i] == t;
            assert(r@.contains(r@[i]));
            let j = choose|j: int| 0 <= j < act@.len() && (act@[j] == r@[i] || act@[j] + 1 == r@[i]);
            assert(act@.contains(act@[j]));
        }
        if has_activity(acts@, t) {
            let e = choose|e: int|
                0 <= e < acts@.len() && acts@[e].amount > 0 && #[trigger] acts@[e].period as int == t;
            let y = acts@[e].period;
            assert(act@.contains(y));
            let j = choose|j: int| 0 <= j < act@.len() && act@[j] == y;
            assert(r@.contains(y));
            let i = choose|i: int| 0 <= i < r@.len() && r@[i] == y;
        } else if has_activity(acts@, t - 1) {
            let e = choose|e: int|
                0 <= e < acts@.len() && acts@[e].amount > 0 && #[trigger] acts@[e].period as int == t - 1;
            let x = acts@[e].period;
            assert(act@.contains(x));
            let j = choose|j: int| 0 <= j < act@.len() && act@[j] == x;
            let y = (x + 1) as i64;
            assert(act@[j] + 1 == y);
            assert(r@.contains(y));
            let i = choose|i: int| 0 <= i < r@.len() && r@[i] == y;
        }
    }
    assert forall|i: int| 0 <= i < r@.len() implies -0x10_0000_0002 <= #[trigger] r@[i] <= 0x10_0000_0002 by {
        assert(r@.contains(r@[i]));
        let j = choose|j: int| 0 <= j < act@.len() && (act@[j] == r@[i] || act@[j] + 1 == r@[i]);
        assert(period_in_range(act@[j] as int));
    }
    r
}

/// The rows are ordered, cover exactly the periods that get one, and each
/// holds the figures of its period.
pub open spec fn mau_rows_spec(acts: Seq<PeriodActivity>, rows: Seq<MAUGrowthAccountingResult>) -> bool {
    &&& forall|i: int, j: int| 0 <= i < j < rows.len() ==> rows[i].month < rows[j].month
    &&& forall|t: int|
        (exists|i: int| 0 <= i < rows.len() && rows[i].month == t) <==> #[trigger] mau_row_month(acts, t)
    &&& forall|i: int| 0 <= i < rows.len() ==> mau_row_matches(acts, #[trigger] rows[i])
}

/// Monthly-active-user accounting: one row per month with activity or
/// right after one, in increasing order of month.
pub fn mau_by_period(acts: &Vec<PeriodActivity>) -> (rows: Vec<MAUGrowthAccountingResult>)
    requires
        acts_valid(acts@),
    ensures
        mau_rows_spec(acts@, rows@),
{
    let users = distinct_users(acts);
    let firsts = cohort_starts(acts, &users);
    let months = mau_row_months(acts);
    let mut rows: Vec<MAUGrowthAccountingResult> = Vec::new();
    let mut i: usize = 0;
    while i < months.len()
        invariant
            i <= months@.len(),
            acts_valid(acts@),
            users_match(acts@, users@),
            firsts_match(acts@, users@, firsts@),
            forall|j: int| 0 <= j < months@.len() ==> -0x10_0000_0002 <= #[trigger] months@[j] <= 0x10_0000_0002,
            rows@.len() == i,
            forall|j: int| 0 <= j < i ==> #[trigger] rows@[j].month == months@[j],
            forall|j: int| 0 <= j < i ==> mau_row_matches(acts@, #[trigger] rows@[j]),
        decreases months@.len() - i,
    {
        let row = mau_row(acts, &users, &firsts, months[i]);
        rows.push(row);
        i += 1;
    }
    assert forall|t: int|
        (exists|i: int| 0 <= i < rows@.len() && rows@[i].month == t) <==> #[trigger] mau_row_month(acts@, t) by {
        if exists|i: int| 0 <= i < rows@.len() && rows@[i].month == t {
            let i = choose|i: int| 0 <= i < rows@.len() && rows@[i].month == t;
            assert(months@[i] == t);
        }
        if mau_row_month(acts@, t) {
            let i = choose|i: int| 0 <= i < months@.len() && months@[i] == t;
            assert(rows@[i].month == t);
        }
    }
    rows
}

/// Each user active in a month is exactly one of retained, new or
/// resurrected: in every row, `mau == retained + new + resurrected`.
pub proof fn lemma_mau_identity(acts: Seq<PeriodActivity>, r: MAUGrowthAccountingResult)
    requires
        mau_row_matches(acts, r),
    ensures
        r.mau == r.retained + r.new + r.resurrected,
{
    let t = r.month as int;
    let us = user_list(acts);
    let fresh = |u: Seq<char>|
        is_cohort_start(acts, u, t) || (active_in(acts, u, t) && !is_cohort_start(acts, u, t)
            && !active_in(acts, u, t - 1));
    assert forall|u: Seq<char>| #[trigger] active_at(acts, t)(u) == (retained_at(acts, t)(u) || fresh(u)) by {
        if is_cohort_start(acts, u, t) {
            assert(!active_in(acts, u, t - 1));
        }
    }
    assert forall|u: Seq<char>| !(#[trigger] retained_at(acts, t)(u) && fresh(u)) by {
        if is_cohort_start(acts, u, t) {
            assert(!active_in(acts, u, t - 1));
        }
    }
    lemma_count_split(us, active_at(acts, t), retained_at(acts, t), fresh);
    lemma_count_split(us, fresh, new_at(acts, t), resurrected_at(acts, t));
}

/// The users active in the month before a row are its retained users and
/// the users it lost: `active(t - 1) == retained(t) - churned(t)`. Where the
/// month before has a row of its own, that row's `mau` is this count; where
/// it has no activity, the row retains and loses no one.
pub proof fn lemma_churn_identity(
    acts: Seq<PeriodActivity>,
    prev: MAUGrowthAccountingResult,
    r: MAUGrowthAccountingResult,
)
    requires
        mau_row_matches(acts, r),
        mau_row_matches(acts, prev),
    ensures
        count_users(user_list(acts), active_at(acts, r.month - 1)) == r.retained
            + (-r.churned),
        prev.month == r.month - 1 ==> prev.mau == r.retained + (-r.churned),
        !has_activity(acts, r.month - 1) ==> r.retained == 0 && r.churned == 0,
{
    let t = r.month as int;
    let us = user_list(acts);
    assert forall|u: Seq<char>|
        #[trigger] active_at(acts, t - 1)(u) == (retained_at(acts, t)(u) || churned_at(acts, t)(u)) by {}
    lemma_count_split(us, active_at(acts, t - 1), retained_at(acts, t), churned_at(acts, t));
    if !has_activity(acts, t - 1) {
        assert forall|u: Seq<char>| !#[trigger] active_at(acts, t - 1)(u) by {
            lemma_active_iff_event(acts, u, t - 1);
            if active_in(acts, u, t - 1) {
                let i = choose|i: int|
                    0 <= i < acts.len() && acts[i].user_id@ == u && acts[i].amount > 0 && #[trigger] acts[i].period as int == t - 1;
                assert(has_activity(acts, t - 1));
            }
        }
        lemma_count_none(us, active_at(acts, t - 1));
        lemma_count_nonneg(us, retained_at(acts, t));
        lemma_count_nonneg(us, churned_at(acts, t));
    }
}

/// Monthly-active-user accounting of an event stream, by calendar month.
pub fn mau_growth_accounting(evs: &Vec<ActivityEvent>) -> (rows: Vec<MAUGrowthAccountingResult>)
    requires
        events_valid(evs@),
    ensures
        mau_rows_spec(roll_up_spec(evs@, Granularity::Month), rows@),
{
    let acts = roll_up(evs, Granularity::Month);
    mau_by_period(&acts)
}

} // verus!
