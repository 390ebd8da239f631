use crate::activity::{
    active_in, acts_valid, amount_in, amount_of, amount_upto, amount_upto_of, count_users,
    distinct_users, events_valid, has_activity, is_cohort_start, lemma_active_iff_event,
    lemma_amounts_bounded, lemma_count_none, lemma_count_nonneg, lemma_count_split,
    lemma_count_step, lemma_sum_bounded, lemma_sum_monotone, lemma_sum_step,
    lemma_upto_monotone, lemma_user_list, roll_up, roll_up_spec, sum_users, user_list,
    user_total, ActivityEvent, PeriodActivity,
};
use crate::calendar::{period_in_range, Granularity};
use crate::growth::{cohort_starts, firsts_match, lemma_cohort_start_unique, users_match};
use crate::periods::{active_periods, insert_sorted, strictly_increasing};
use vstd::prelude::*;

verus! {

/// An exact fraction with a positive denominator.
#[derive(Clone, Copy, Debug, PartialEq, Eq, Structural)]
pub struct Ratio {
    pub numerator: i64,
    pub denominator: i64,
}

/// `numerator / denominator`, or nothing where the denominator is not
/// positive (an empty cohort).
pub open spec fn ratio_spec(numerator: i64, denominator: i64) -> Option<Ratio> {
    if denominator > 0 {
        Some(Ratio { numerator, denominator })
    } else {
        None
    }
}

/// `numerator / denominator`, or `None` where the denominator is not positive.
pub fn ratio_of(numerator: i64, denominator: i64) -> (r: Option<Ratio>)
    ensures
        r == ratio_spec(numerator, denominator),
{
    if denominator > 0 {
        Some(Ratio { numerator, denominator })
    } else {
        None
    }
}

/// One cohort at one period of its life: who is still active, what the
/// cohort brought in that period, and what it has brought in so far.
#[derive(Clone, Copy, Debug, PartialEq, Eq)]
pub struct LTVCohortsCumulativeResult {
    pub cohort_period: i64,
    pub active_period: i64,
    pub periods_since_cohort_start: i64,
    pub active_users: i64,
    pub cohort_size: i64,
    pub retained_pct: Option<Ratio>,
    pub incremental_amount: i64,
    pub cumulative_amount: i64,
    pub cumulative_amount_per_user: Option<Ratio>,
}

impl LTVCohortsCumulativeResult {
    /// A row built from its counts and sums; the two fractions are left
    /// out where the cohort is empty.
    pub fn from_counts(
        cohort_period: i64,
        active_period: i64,
        active_users: i64,
        cohort_size: i64,
        incremental_amount: i64,
        cumulative_amount: i64,
    ) -> (r: Self)
        requires
            period_in_range(cohort_period as int),
            period_in_range(active_period as int),
        ensures
            r.cohort_period == cohort_period,
            r.active_period == active_period,
            r.periods_since_cohort_start == active_period - cohort_period,
            r.active_users == active_users,
            r.cohort_size == cohort_size,
            r.retained_pct == ratio_spec(active_users, cohort_size),
            r.incremental_amount == incremental_amount,
            r.cumulative_amount == cumulative_amount,
            r.cumulative_amount_per_user == ratio_spec(cumulative_amount, cohort_size),
    {
        LTVCohortsCumulativeResult {
            cohort_period,
            active_period,
            periods_since_cohort_start: active_period - cohort_period,
            active_users,
            cohort_size,
            retained_pct: ratio_of(active_users, cohort_size),
            incremental_amount,
            cumulative_amount,
            cumulative_amount_per_user: ratio_of(cumulative_amount, cohort_size),
        }
    }
}

/// Members of cohort `c`.
pub open spec fn member_of(acts: Seq<PeriodActivity>, c: int) -> spec_fn(Seq<char>) -> bool {
    |u: Seq<char>| is_cohort_start(acts, u, c)
}

/// Members of cohort `c` active in period `p`.
pub open spec fn member_active(acts: Seq<PeriodActivity>, c: int, p: int) -> spec_fn(Seq<char>) -> bool {
    |u: Seq<char>| is_cohort_start(acts, u, c) && active_in(acts, u, p)
}

/// A member's amount in period `p`.
pub open spec fn member_amount(acts: Seq<PeriodActivity>, c: int, p: int) -> spec_fn(Seq<char>) -> int {
    |u: Seq<char>| if is_cohort_start(acts, u, c) { amount_in(acts, u, p) } else { 0 }
}

/// A member's amount in all periods up to `p`.
pub open spec fn member_amount_upto(acts: Seq<PeriodActivity>, c: int, p: int) -> spec_fn(Seq<char>) -> int {
    |u: Seq<char>| if is_cohort_start(acts, u, c) { amount_upto(acts, u, p) } else { 0 }
}

/// Cohort `c` has a row at period `p`: some member is active then.
pub open spec fn ltv_key(acts: Seq<PeriodActivity>, c: int, p: int) -> bool {
    count_users(user_list(acts), member_active(acts, c, p)) > 0
}

/// The figures of a row are those of its cohort and period.
pub open spec fn ltv_row_matches(acts: Seq<PeriodActivity>, r: LTVCohortsCumulativeResult) -> bool {
    let us = user_list(acts);
    let c = r.cohort_period as int;
    let p = r.active_period as int;
    &&& r.periods_since_cohort_start == p - c
    &&& r.active_users == count_users(us, member_active(acts, c, p))
    &&& r.cohort_size == count_users(us, member_of(acts, c))
    &&& r.incremental_amount == sum_users(us, member_amount(acts, c, p))
    &&& r.cumulative_amount == sum_users(us, member_amount_upto(acts, c, p))
    &&& r.retained_pct == ratio_spec(r.active_users, r.cohort_size)
    &&& r.cumulative_amount_per_user == ratio_spec(r.cumulative_amount, r.cohort_size)
}

/// Row `a` comes before row `b`: by cohort, then by period.
pub open spec fn ltv_before(a: LTVCohortsCumulativeResult, b: LTVCohortsCumulativeResult) -> bool {
    a.cohort_period < b.cohort_period || (a.cohort_period == b.cohort_period && a.active_period
        < b.active_period)
}

pub open spec fn has_row(rows: Seq<LTVCohortsCumulativeResult>, c: int, p: int) -> bool {
    exists|i: int| 0 <= i < rows.len() && rows[i].cohort_period == c && #[trigger] rows[i].active_period == p
}

proof fn lemma_count_pos(us: Seq<Seq<char>>, f: spec_fn(Seq<char>) -> bool)
    requires
        count_users(us, f) > 0,
    ensures
        exists|k: int| 0 <= k < us.len() && #[trigger] f(us[k]),
    decreases us.len(),
{
    let pre = us.drop_last();
    if count_users(pre, f) > 0 {
        lemma_count_pos(pre, f);
        let k = choose|k: int| 0 <= k < pre.len() && #[trigger] f(pre[k]);
        assert(us[k] == pre[k]);
    } else {
        assert(f(us[us.len() - 1]));
    }
}

/// What a row's key says of the stream: the period has activity, it does
/// not precede the cohort, and some listed user starts the cohort.
proof fn lemma_key_facts(acts: Seq<PeriodActivity>, c: int, p: int)
    requires
        ltv_key(acts, c, p),
    ensures
        has_activity(acts, p),
        c <= p,
        exists|k: int| 0 <= k < user_list(acts).len() && is_cohort_start(acts, #[trigger] user_list(acts)[k], c),
{
    let us = user_list(acts);
    lemma_count_pos(us, member_active(acts, c, p));
    let k = choose|k: int| 0 <= k < us.len() && #[trigger] member_active(acts, c, p)(us[k]);
    let u = us[k];
    assert(is_cohort_start(acts, u, c) && active_in(acts, u, p));
    if p < c {
        assert(!active_in(acts, u, p));
    }
    lemma_active_iff_event(acts, u, p);
    let i = choose|i: int|
        0 <= i < acts.len() && acts[i].user_id@ == u && acts[i].amount > 0 && #[trigger] acts[i].period as int == p;
}

/// The cohorts that have members, in increasing order.
fn cohort_periods(firsts: &Vec<Option<i64>>) -> (r: Vec<i64>)
    requires
        forall|k: int| 0 <= k < firsts@.len() ==> (#[trigger] firsts@[k] matches Some(p) ==> period_in_range(p as int)),
    ensures
        strictly_increasing(r@),
        forall|c: i64| #[trigger] r@.contains(c) <==> exists|k: int| 0 <= k < firsts@.len() && firsts@[k] == Some(c),
        forall|i: int| 0 <= i < r@.len() ==> period_in_range(#[trigger] r@[i] as int),
{
    let mut r: Vec<i64> = Vec::new();
    let mut k: usize = 0;
    while k < firsts.len()
        invariant
            k <= firsts@.len(),
            strictly_increasing(r@),
            forall|k: int| 0 <= k < firsts@.len() ==> (#[trigger] firsts@[k] matches Some(p) ==> period_in_range(p as int)),
            forall|c: i64| #[trigger] r@.contains(c) <==> exists|j: int| 0 <= j < k && firsts@[j] == Some(c),
        decreases firsts@.len() - k,
    {
        match firsts[k] {
            Some(c) => {
                insert_sorted(&mut r, c);
            },
            None => {},
        }
        proof {
            assert forall|c: i64| #[trigger] r@.contains(c) <==> exists|j: int| 0 <= j < k + 1 && firsts@[j] == Some(c) by {
                if exists|j: int| 0 <= j < k + 1 && firsts@[j] == Some(c) {
                    let j = choose|j: int| 0 <= j < k + 1 && firsts@[j] == Some(c);
                    if j < k {
                        assert(exists|j: int| 0 <= j < k && firsts@[j] == Some(c));
                    }
                }
                if r@.contains(c) && firsts@[k as int] != Some(c) {
                    let j = choose|j: int| 0 <= j < k && firsts@[j] == Some(c);
                }
            }
        }
        k += 1;
    }
    assert forall|i: int| 0 <= i < r@.len() implies period_in_range(#[trigger] r@[i] as int) by {
        assert(r@.contains(r@[i]));
        let j = choose|j: int| 0 <= j < firsts@.len() && firsts@[j] == Some(r@[i]);
    }
    r
}

/// The size of cohort `c`, its active members, and its amounts at `p`.
fn cohort_figures(
    acts: &Vec<PeriodActivity>,
    users: &Vec<String>,
    firsts: &Vec<Option<i64>>,
    c: i64,
    p: i64,
) -> (r: (i64, i64, i64, i64))
    requires
        acts_valid(acts@),
        users_match(acts@, users@),
        firsts_match(acts@, users@, firsts@),
    ensures
        r.0 == count_users(user_list(acts@), member_of(acts@, c as int)),
        r.1 == count_users(user_list(acts@), member_active(acts@, c as int, p as int)),
        r.2 == sum_users(user_list(acts@), member_amount(acts@, c as int, p as int)),
        r.3 == sum_users(user_list(acts@), member_amount_upto(acts@, c as int, p as int)),
{
    let ghost e = acts@;
    let ghost us = user_list(acts@);
    let ghost ci = c as int;
    let ghost pi = p as int;
    proof {
        lemma_user_list(e);
        assert forall|u: Seq<char>| 0 <= #[trigger] member_amount(e, ci, pi)(u) <= user_total(e, u) by {
            lemma_amounts_bounded(e, u, pi);
        }
        assert forall|u: Seq<char>| 0 <= #[trigger] member_amount_upto(e, ci, pi)(u) <= user_total(e, u) by {
            lemma_amounts_bounded(e, u, pi);
        }
    }
    let mut size: i64 = 0;
    let mut active: i64 = 0;
    let mut incr: i64 = 0;
    let mut cum: i64 = 0;
    let mut k: usize = 0;
    while k < users.len()
        invariant
            k <= users@.len(),
            e == acts@,
            acts_valid(e),
            users_match(e, users@),
            firsts_match(e, users@, firsts@),
            us == user_list(e),
            us.len() <= e.len(),
            ci == c,
            pi == p,
            forall|u: Seq<char>| 0 <= #[trigger] member_amount(e, ci, pi)(u) <= user_total(e, u),
            forall|u: Seq<char>| 0 <= #[trigger] member_amount_upto(e, ci, pi)(u) <= user_total(e, u),
            size == count_users(us.take(k as int), member_of(e, ci)),
            active == count_users(us.take(k as int), member_active(e, ci, pi)),
            incr == sum_users(us.take(k as int), member_amount(e, ci, pi)),
            cum == sum_users(us.take(k as int), member_amount_upto(e, ci, pi)),
        decreases users@.len() - k,
    {
        let ghost ki = k as int;
        let ghost u = us[ki];
        assert(users@[ki]@ == u);
        proof {
            lemma_count_step(us, ki, member_of(e, ci));
            lemma_count_step(us, ki, member_active(e, ci, pi));
            lemma_sum_step(us, ki, member_amount(e, ci, pi));
            lemma_sum_step(us, ki, member_amount_upto(e, ci, pi));
            lemma_count_nonneg(us.take(ki), member_of(e, ci));
            lemma_count_nonneg(us.take(ki), member_active(e, ci, pi));
            lemma_sum_bounded(e, ki + 1, member_amount(e, ci, pi));
            lemma_sum_bounded(e, ki + 1, member_amount_upto(e, ci, pi));
            lemma_amounts_bounded(e, u, pi);
        }
        let member = match firsts[k] {
            Some(q) => q == c,
            None => false,
        };
        proof {
            if member {
                assert(is_cohort_start(e, u, ci));
            } else if is_cohort_start(e, u, ci) {
                match firsts@[ki] {
                    Some(q) => {
                        lemma_cohort_start_unique(e, u, q as int, ci);
                    },
                    None => {
                        assert(!active_in(e, u, ci));
                    },
                }
            }
        }
        if member {
            let a = amount_of(acts, &users[k], p);
            let b = amount_upto_of(acts, &users[k], p);
            size = size + 1;
            if a > 0 {
                active = active + 1;
            }
            incr = incr + a as i64;
            cum = cum + b as i64;
        }
        k += 1;
    }
    assert(us.take(us.len() as int) =~= us);
    (size, active, incr, cum)
}

/// The rows are ordered, cover exactly the periods that get one, and each
/// holds the figures of its period.
pub open spec fn ltv_rows_spec(acts: Seq<PeriodActivity>, rows: Seq<LTVCohortsCumulativeResult>) -> bool {
    &&& forall|i: int, j: int| 0 <= i < j < rows.len() ==> ltv_before(rows[i], rows[j])
    &&& forall|c: int, p: int| #[trigger] has_row(rows, c, p) <==> ltv_key(acts, c, p)
    &&& forall|i: int| 0 <= i < rows.len() ==> ltv_row_matches(acts, #[trigger] rows[i])
}

/// Cumulative value by cohort: one row for each cohort and each period in
/// which some of its members are active, ordered by cohort, then period.
pub fn ltv_by_period(acts: &Vec<PeriodActivity>) -> (rows: Vec<LTVCohortsCumulativeResult>)
    requires
        acts_valid(acts@),
    ensures
        ltv_rows_spec(acts@, rows@),
{
    let users = distinct_users(acts);
    let firsts = cohort_starts(acts, &users);
    let cohorts = cohort_periods(&firsts);
    let periods = active_periods(acts);
    let ghost e = acts@;
    let mut rows: Vec<LTVCohortsCumulativeResult> = Vec::new();
    let mut i: usize = 0;
    proof {
        assert forall|c: int, p: int| #[trigger] has_row(rows@, c, p) <==> (ltv_key(e, c, p) && (0 < cohorts@.len() ==> c < cohorts@[0])) by {
            if ltv_key(e, c, p) {
                lemma_key_facts(e, c, p);
                let k = choose|k: int| 0 <= k < user_list(e).len() && is_cohort_start(e, #[trigger] user_list(e)[k], c);
                assert(users@[k]@ == user_list(e)[k]);
                match firsts@[k] {
                    Some(f) => {
                        lemma_cohort_start_unique(e, user_list(e)[k], f as int, c);
                        assert(cohorts@.contains(f));
                        let b = choose|b: int| 0 <= b < cohorts@.len() && cohorts@[b] == f;
                        if b > 0 {
                            assert(cohorts@[0] < cohorts@[b]);
                        }
                    },
                    None => {
                        assert(!active_in(e, user_list(e)[k], c));
                    },
                }
            }
        }
    }
    while i < cohorts.len()
        invariant
            i <= cohorts@.len(),
            e == acts@,
            acts_valid(e),
            users_match(e, users@),
            firsts_match(e, users@, firsts@),
            strictly_increasing(cohorts@),
            forall|c: i64| #[trigger] cohorts@.contains(c) <==> exists|k: int| 0 <= k < firsts@.len() && firsts@[k] == Some(c),
            forall|j: int| 0 <= j < cohorts@.len() ==> period_in_range(#[trigger] cohorts@[j] as int),
            strictly_increasing(periods@),
            forall|p: i64| #[trigger] periods@.contains(p) <==> has_activity(e, p as int),
            forall|j: int| 0 <= j < periods@.len() ==> period_in_range(#[trigger] periods@[j] as int),
            forall|a: int, b: int| 0 <= a < b < rows@.len() ==> ltv_before(rows@[a], rows@[b]),
            forall|a: int| 0 <= a < rows@.len() ==> ltv_row_matches(e, #[trigger] rows@[a]),
            forall|a: int| 0 <= a < rows@.len() && i < cohorts@.len() ==> #[trigger] rows@[a].cohort_period < cohorts@[i as int],
            forall|c: int, p: int| #[trigger] has_row(rows@, c, p) <==> (ltv_key(e, c, p) && (i < cohorts@.len() ==> c < cohorts@[i as int])),
        decreases cohorts@.len() - i,
    {
        let c = cohorts[i];
        let ghost ci = c as int;
        let mut j: usize = 0;
        proof {
            assert forall|c2: int, p: int| #[trigger] has_row(rows@, c2, p) <==> (ltv_key(e, c2, p) && (c2 < ci || (c2
                == ci && (0 < periods@.len() ==> p < periods@[0])))) by {
                if ltv_key(e, c2, p) && c2 == ci {
                    lemma_key_facts(e, c2, p);
                    assert(periods@.contains(p as i64));
                    let b = choose|b: int| 0 <= b < periods@.len() && periods@[b] == p as i64;
                    if b > 0 {
                        assert(periods@[0] < periods@[b]);
                    }
                }
            }
        }
        while j < periods.len()
            invariant
                i < cohorts@.len(),
                j <= periods@.len(),
                c == cohorts@[i as int],
                ci == c,
                e == acts@,
                acts_valid(e),
                users_match(e, users@),
                firsts_match(e, users@, firsts@),
                strictly_increasing(cohorts@),
                forall|c: i64| #[trigger] cohorts@.contains(c) <==> exists|k: int| 0 <= k < firsts@.len() && firsts@[k] == Some(c),
                forall|j: int| 0 <= j < cohorts@.len() ==> period_in_range(#[trigger] cohorts@[j] as int),
                strictly_increasing(periods@),
                forall|p: i64| #[trigger] periods@.contains(p) <==> has_activity(e, p as int),
                forall|j: int| 0 <= j < periods@.len() ==> period_in_range(#[trigger] periods@[j] as int),
                forall|a: int, b: int| 0 <= a < b < rows@.len() ==> ltv_before(rows@[a], rows@[b]),
                forall|a: int| 0 <= a < rows@.len() ==> ltv_row_matches(e, #[trigger] rows@[a]),
                forall|a: int| 0 <= a < rows@.len() ==> #[trigger] rows@[a].cohort_period <= c,
                forall|a: int|
                    0 <= a < rows@.len() && #[trigger] rows@[a].cohort_period == c && j < periods@.len()
                        ==> rows@[a].active_period < periods@[j as int],
                forall|c2: int, p: int| #[trigger] has_row(rows@, c2, p) <==> (ltv_key(e, c2, p) && (c2 < ci || (c2
                    == ci && (j < periods@.len() ==> p < periods@[j as int])))),
            decreases periods@.len() - j,
        {
            let p = periods[j];
            let ghost pi = p as int;
            let ghost old_rows = rows@;
            let fig = cohort_figures(acts, &users, &firsts, c, p);
            let (size, active, incr, cum) = fig;
            if p >= c && active > 0 {
                let row = LTVCohortsCumulativeResult::from_counts(c, p, active, size, incr, cum);
                rows.push(row);
                proof {
                    assert(rows@[rows@.len() - 1] == row);
                    assert forall|a: int| 0 <= a < old_rows.len() implies #[trigger] rows@[a] == old_rows[a] by {}
                }
            } else {
                proof {
                    if p < c {
                        if ltv_key(e, ci, pi) {
                            lemma_key_facts(e, ci, pi);
                        }
                    }
                }
            }
            proof {
                let nj = j + 1;
                assert forall|c2: int, q: int| #[trigger] has_row(rows@, c2, q) <==> (ltv_key(e, c2, q) && (c2 < ci || (c2
                    == ci && (nj < periods@.len() ==> q < periods@[nj as int])))) by {
                    if has_row(rows@, c2, q) {
                        let a = choose|a: int| 0 <= a < rows@.len() && rows@[a].cohort_period == c2 && #[trigger] rows@[a].active_period == q;
                        if a < old_rows.len() {
                            assert(old_rows[a] == rows@[a]);
                            assert(has_row(old_rows, c2, q));
                        }
                        if c2 == ci && nj < periods@.len() {
                            assert(periods@[j as int] < periods@[nj as int]);
                        }
                    }
                    if ltv_key(e, c2, q) && (c2 < ci || (c2 == ci && (nj < periods@.len() ==> q < periods@[nj as int]))) {
                        if c2 < ci || q < pi {
                            if c2 == ci && j < periods@.len() {
                            }
                            assert(has_row(old_rows, c2, q));
                            let a = choose|a: int| 0 <= a < old_rows.len() && old_rows[a].cohort_period == c2 && #[trigger] old_rows[a].active_period == q;
                            assert(rows@[a] == old_rows[a]);
                        } else if q == pi {
                            lemma_key_facts(e, c2, q);
                            assert(rows@[rows@.len() - 1].active_period == q);
                        } else {
                            lemma_key_facts(e, c2, q);
                            assert(periods@.contains(q as i64));
                            let b = choose|b: int| 0 <= b < periods@.len() && periods@[b] == q as i64;
                            if b <= j {
                                if b < j {
                                    assert(periods@[b] < periods@[j as int]);
                                }
                            } else {
                                if b > nj {
                                    assert(periods@[nj as int] < periods@[b]);
                                }
                            }
                        }
                    }
                }
            }
            j += 1;
        }
        proof {
            let ni = i + 1;
            assert forall|a: int| 0 <= a < rows@.len() && ni < cohorts@.len() implies #[trigger] rows@[a].cohort_period < cohorts@[ni as int] by {
                assert(cohorts@[i as int] < cohorts@[ni as int]);
            }
            assert forall|c2: int, q: int| #[trigger] has_row(rows@, c2, q) <==> (ltv_key(e, c2, q) && (ni < cohorts@.len() ==> c2 < cohorts@[ni as int])) by {
                if has_row(rows@, c2, q) && ni < cohorts@.len() {
                    assert(cohorts@[i as int] < cohorts@[ni as int]);
                }
                if ltv_key(e, c2, q) && (ni < cohorts@.len() ==> c2 < cohorts@[ni as int]) {
                    lemma_key_facts(e, c2, q);
                    let k = choose|k: int| 0 <= k < user_list(e).len() && is_cohort_start(e, #[trigger] user_list(e)[k], c2);
                    assert(users@[k]@ == user_list(e)[k]);
                    match firsts@[k] {
                        Some(f) => {
                            lemma_cohort_start_unique(e, user_list(e)[k], f as int, c2);
                            assert(cohorts@.contains(f));
                            let b = choose|b: int| 0 <= b < cohorts@.len() && cohorts@[b] == f;
                            if b > i {
                                if ni < b {
                                    assert(cohorts@[ni as int] < cohorts@[b]);
                                }
                            } else if b < i {
                                assert(cohorts@[b] < cohorts@[i as int]);
                            }
                        },
                        None => {
                            assert(!active_in(e, user_list(e)[k], c2));
                        },
                    }
                }
            }
        }
        i += 1;
    }
    rows
}

/// A cohort's size is its number of active members at offset 0: every
/// member is active in the period its cohort starts.
pub proof fn lemma_cohort_size_at_start(acts: Seq<PeriodActivity>, c: int)
    ensures
        count_users(user_list(acts), member_of(acts, c)) == count_users(user_list(acts), member_active(acts, c, c)),
{
    let none = |u: Seq<char>| false;
    assert forall|u: Seq<char>| #[trigger] member_of(acts, c)(u) == (member_active(acts, c, c)(u) || none(u)) by {}
    lemma_count_split(user_list(acts), member_of(acts, c), member_active(acts, c, c), none);
    lemma_count_none(user_list(acts), none);
}

/// For a fixed cohort, the cumulative amount never decreases from one
/// period of its life to a later one.
pub proof fn lemma_ltv_monotone(
    acts: Seq<PeriodActivity>, r1: LTVCohortsCumulativeResult,
    r2: LTVCohortsCumulativeResult,
)
    requires
        ltv_row_matches(acts, r1),
        ltv_row_matches(acts, r2),
        r1.cohort_period == r2.cohort_period,
        r1.periods_since_cohort_start <= r2.periods_since_cohort_start,
    ensures
        r1.cumulative_amount <= r2.cumulative_amount,
{
    let c = r1.cohort_period as int;
    let p = r1.active_period as int;
    let q = r2.active_period as int;
    assert forall|u: Seq<char>| #[trigger] member_amount_upto(acts, c, p)(u) <= member_amount_upto(acts, c, q)(u) by {
        lemma_upto_monotone(acts, u, p, q);
    }
    lemma_sum_monotone(user_list(acts), member_amount_upto(acts, c, p), member_amount_upto(acts, c, q));
}

/// Cumulative value by cohort of an event stream, by week or by month.
pub fn ltv_cohorts_cumulative(evs: &Vec<ActivityEvent>, g: Granularity) -> (rows: Vec<LTVCohortsCumulativeResult>)
    requires
        events_valid(evs@),
    ensures
        ltv_rows_spec(roll_up_spec(evs@, g), rows@),
{
    let acts = roll_up(evs, g);
    ltv_by_period(&acts)
}

} // verus!
