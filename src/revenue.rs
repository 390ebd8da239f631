use crate::activity::{
    active_in, acts_valid, amount_in, amount_of, distinct_users, events_valid, is_cohort_start,
    lemma_amounts_bounded, lemma_sum_bounded, lemma_sum_step, lemma_total_fits, lemma_user_list,
    roll_up, roll_up_spec, sum_users, user_list, user_total, ActivityEvent, PeriodActivity,
};
use crate::calendar::Granularity;
use crate::growth::{cohort_starts, firsts_match, lemma_cohort_start_unique, mau_row_month, mau_row_months, users_match};
use vstd::prelude::*;

verus! {

/// One month of value-weighted growth accounting. `month` is a month index;
/// `contraction` and `churned` are stored as non-positive numbers.
#[derive(Clone, Copy, Debug, PartialEq, Eq, Structural)]
pub struct MRRGrowthAccountingResult {
    pub month: i64,
    pub rev: i64,
    pub retained: i64,
    pub new: i64,
    pub resurrected: i64,
    pub expansion: i64,
    pub churned: i64,
    pub contraction: i64,
}

pub open spec fn month_amount(acts: Seq<PeriodActivity>, u: Seq<char>, t: int) -> int {
    amount_in(acts, u, t)
}

pub open spec fn month_active(acts: Seq<PeriodActivity>, u: Seq<char>, t: int) -> bool {
    active_in(acts, u, t)
}

/// A user's amount in month `t`.
pub open spec fn rev_at(acts: Seq<PeriodActivity>, t: int) -> spec_fn(Seq<char>) -> int {
    |u: Seq<char>| month_amount(acts, u, t)
}

/// The part of a user's amount kept from the month before.
pub open spec fn kept_at(acts: Seq<PeriodActivity>, t: int) -> spec_fn(Seq<char>) -> int {
    |u: Seq<char>|
        if month_active(acts, u, t) && month_active(acts, u, t - 1) {
            if month_amount(acts, u, t) <= month_amount(acts, u, t - 1) {
                month_amount(acts, u, t)
            } else {
                month_amount(acts, u, t - 1)
            }
        } else {
            0
        }
}

/// The amount of a user whose cohort starts in month `t`.
pub open spec fn fresh_at(acts: Seq<PeriodActivity>, t: int) -> spec_fn(Seq<char>) -> int {
    |u: Seq<char>|
        if is_cohort_start(acts, u, t) {
            month_amount(acts, u, t)
        } else {
            0
        }
}

/// The amount of a returning user, absent the month before.
pub open spec fn returned_at(acts: Seq<PeriodActivity>, t: int) -> spec_fn(Seq<char>) -> int {
    |u: Seq<char>|
        if month_active(acts, u, t) && !month_active(acts, u, t - 1) && !is_cohort_start(
            acts,
            u,
            t,
        ) {
            month_amount(acts, u, t)
        } else {
            0
        }
}

/// The growth of a user present in both months.
pub open spec fn expansion_at(acts: Seq<PeriodActivity>, t: int) -> spec_fn(Seq<char>) -> int {
    |u: Seq<char>|
        if month_active(acts, u, t) && month_active(acts, u, t - 1) && !is_cohort_start(
            acts,
            u,
            t,
        ) && month_amount(acts, u, t) > month_amount(acts, u, t - 1) {
            month_amount(acts, u, t) - month_amount(acts, u, t - 1)
        } else {
            0
        }
}

/// The shrinkage of a user present in both months.
pub open spec fn contraction_at(acts: Seq<PeriodActivity>, t: int) -> spec_fn(Seq<char>) -> int {
    |u: Seq<char>|
        if month_active(acts, u, t) && month_active(acts, u, t - 1) && month_amount(acts, u, t)
            < month_amount(acts, u, t - 1) {
            month_amount(acts, u, t - 1) - month_amount(acts, u, t)
        } else {
            0
        }
}

/// The amount, the month before, of a user absent in month `t`.
pub open spec fn lost_at(acts: Seq<PeriodActivity>, t: int) -> spec_fn(Seq<char>) -> int {
    |u: Seq<char>|
        if month_active(acts, u, t - 1) && !month_active(acts, u, t) {
            month_amount(acts, u, t - 1)
        } else {
            0
        }
}

/// The sums of a row are those of its month.
pub open spec fn mrr_row_matches(acts: Seq<PeriodActivity>, r: MRRGrowthAccountingResult) -> bool {
    let us = user_list(acts);
    let t = r.month as int;
    &&& r.rev == sum_users(us, rev_at(acts, t))
    &&& r.retained == sum_users(us, kept_at(acts, t))
    &&& r.new == sum_users(us, fresh_at(acts, t))
    &&& r.resurrected == sum_users(us, returned_at(acts, t))
    &&& r.expansion == sum_users(us, expansion_at(acts, t))
    &&& r.contraction == -sum_users(us, contraction_at(acts, t))
    &&& r.churned == -sum_users(us, lost_at(acts, t))
}

/// Every summand of a row lies between zero and the user's total.
proof fn lemma_summands_bounded(e: Seq<PeriodActivity>, ti: int)
    ensures
        forall|u: Seq<char>| 0 <= #[trigger] rev_at(e, ti)(u) <= user_total(e, u),
        forall|u: Seq<char>| 0 <= #[trigger] kept_at(e, ti)(u) <= user_total(e, u),
        forall|u: Seq<char>| 0 <= #[trigger] fresh_at(e, ti)(u) <= user_total(e, u),
        forall|u: Seq<char>| 0 <= #[trigger] returned_at(e, ti)(u) <= user_total(e, u),
        forall|u: Seq<char>| 0 <= #[trigger] expansion_at(e, ti)(u) <= user_total(e, u),
        forall|u: Seq<char>| 0 <= #[trigger] contraction_at(e, ti)(u) <= user_total(e, u),
        forall|u: Seq<char>| 0 <= #[trigger] lost_at(e, ti)(u) <= user_total(e, u),
{
    assert forall|u: Seq<char>| 0 <= #[trigger] rev_at(e, ti)(u) <= user_total(e, u) by {
        lemma_amounts_bounded(e, u, ti);
        lemma_amounts_bounded(e, u, ti - 1);
    }
    assert forall|u: Seq<char>| 0 <= #[trigger] kept_at(e, ti)(u) <= user_total(e, u) by {
        lemma_amounts_bounded(e, u, ti);
        lemma_amounts_bounded(e, u, ti - 1);
    }
    assert forall|u: Seq<char>| 0 <= #[trigger] fresh_at(e, ti)(u) <= user_total(e, u) by {
        lemma_amounts_bounded(e, u, ti);
        lemma_amounts_bounded(e, u, ti - 1);
    }
    assert forall|u: Seq<char>| 0 <= #[trigger] returned_at(e, ti)(u) <= user_total(e, u) by {
        lemma_amounts_bounded(e, u, ti);
        lemma_amounts_bounded(e, u, ti - 1);
    }
    assert forall|u: Seq<char>| 0 <= #[trigger] expansion_at(e, ti)(u) <= user_total(e, u) by {
        lemma_amounts_bounded(e, u, ti);
        lemma_amounts_bounded(e, u, ti - 1);
    }
    assert forall|u: Seq<char>| 0 <= #[trigger] contraction_at(e, ti)(u) <= user_total(e, u) by {
        lemma_amounts_bounded(e, u, ti);
        lemma_amounts_bounded(e, u, ti - 1);
    }
    assert forall|u: Seq<char>| 0 <= #[trigger] lost_at(e, ti)(u) <= user_total(e, u) by {
        lemma_amounts_bounded(e, u, ti);
        lemma_amounts_bounded(e, u, ti - 1);
    }
}

/// The accounting row of month `t`.
fn mrr_row(
    acts: &Vec<PeriodActivity>,
    users: &Vec<String>,
    firsts: &Vec<Option<i64>>,
    t: i64,
) -> (r: MRRGrowthAccountingResult)
    requires
        acts_valid(acts@),
        users_match(acts@, users@),
        firsts_match(acts@, users@, firsts@),
        -0x10_0000_0002 <= t <= 0x10_0000_0002,
    ensures
        r.month == t,
        mrr_row_matches(acts@, r),
{
    let ghost e = acts@;
    let ghost us = user_list(acts@);
    let ghost ti = t as int;
    proof {
        lemma_user_list(acts@);
        lemma_total_fits(acts@);
        lemma_summands_bounded(e, ti);
    }
    let mut rev: i64 = 0;
    let mut retained: i64 = 0;
    let mut new: i64 = 0;
    let mut resurrected: i64 = 0;
    let mut expansion: i64 = 0;
    let mut contraction: i64 = 0;
    let mut churned: i64 = 0;
    let mut k: usize = 0;
    while k < users.len()
        invariant
            k <= users@.len(),
            e == acts@,
            acts_valid(e),
            users_match(e, users@),
            firsts_match(e, users@, firsts@),
            us == user_list(e),
            ti == t,
            -0x10_0000_0002 <= t <= 0x10_0000_0002,
            forall|u: Seq<char>| 0 <= #[trigger] rev_at(e, ti)(u) <= user_total(e, u),
            forall|u: Seq<char>| 0 <= #[trigger] kept_at(e, ti)(u) <= user_total(e, u),
            forall|u: Seq<char>| 0 <= #[trigger] fresh_at(e, ti)(u) <= user_total(e, u),
            forall|u: Seq<char>| 0 <= #[trigger] returned_at(e, ti)(u) <= user_total(e, u),
            forall|u: Seq<char>| 0 <= #[trigger] expansion_at(e, ti)(u) <= user_total(e, u),
            forall|u: Seq<char>| 0 <= #[trigger] contraction_at(e, ti)(u) <= user_total(e, u),
            forall|u: Seq<char>| 0 <= #[trigger] lost_at(e, ti)(u) <= user_total(e, u),
            rev == sum_users(us.take(k as int), rev_at(e, ti)),
            retained == sum_users(us.take(k as int), kept_at(e, ti)),
            new == sum_users(us.take(k as int), fresh_at(e, ti)),
            resurrected == sum_users(us.take(k as int), returned_at(e, ti)),
            expansion == sum_users(us.take(k as int), expansion_at(e, ti)),
            contraction == -sum_users(us.take(k as int), contraction_at(e, ti)),
            churned == -sum_users(us.take(k as int), lost_at(e, ti)),
        decreases users@.len() - k,
    {
        let ghost u = us[k as int];
        let ghost ki = k as int;
        assert(users@[ki]@ == u);
        proof {
            assert forall|f: spec_fn(Seq<char>) -> int|
                #![trigger sum_users(us.take(ki + 1), f)]
                sum_users(us.take(ki + 1), f) == sum_users(us.take(ki), f) + f(u) by {
                lemma_sum_step(us, ki, f);
            }
            lemma_sum_bounded(e, ki + 1, rev_at(e, ti));
            lemma_sum_bounded(e, ki + 1, kept_at(e, ti));
            lemma_sum_bounded(e, ki + 1, fresh_at(e, ti));
            lemma_sum_bounded(e, ki + 1, returned_at(e, ti));
            lemma_sum_bounded(e, ki + 1, expansion_at(e, ti));
            lemma_sum_bounded(e, ki + 1, contraction_at(e, ti));
            lemma_sum_bounded(e, ki + 1, lost_at(e, ti));
            lemma_amounts_bounded(e, u, ti);
            lemma_amounts_bounded(e, u, ti - 1);
        }
        let a = amount_of(acts, &users[k], t);
        let b = amount_of(acts, &users[k], t - 1);
        let starts = match firsts[k] {
            Some(p) => p == t,
            None => false,
        };
        proof {
            if starts {
                assert(is_cohort_start(e, u, ti));
            } else if is_cohort_start(e, u, ti) {
                match firsts@[ki] {
                    Some(p) => {
                        lemma_cohort_start_unique(e, u, p as int, ti);
                    },
                    None => {
                        assert(!active_in(e, u, ti));
                    },
                }
            }
        }
        let a = a as i64;
        let b = b as i64;
        rev = rev + a;
        if a > 0 && b > 0 {
            if a <= b {
                retained = retained + a;
            } else {
                retained = retained + b;
            }
        }
        if starts {
            new = new + a;
        }
        if a > 0 && b == 0 && !starts {
            resurrected = resurrected + a;
        }
        if a > 0 && b > 0 && !starts && a > b {
            expansion = expansion + (a - b);
        }
        if a > 0 && b > 0 && a < b {
            contraction = contraction - (b - a);
        }
        if b > 0 && a == 0 {
            churned = churned - b;
        }
        k += 1;
    }
    assert(us.take(us.len() as int) =~= us);
    MRRGrowthAccountingResult { month: t, rev, retained, new, resurrected, expansion, churned, contraction }
}

/// The rows are ordered, cover exactly the periods that get one, and each
/// holds the figures of its period.
pub open spec fn mrr_rows_spec(acts: Seq<PeriodActivity>, rows: Seq<MRRGrowthAccountingResult>) -> bool {
    &&& forall|i: int, j: int| 0 <= i < j < rows.len() ==> rows[i].month < rows[j].month
    &&& forall|t: int|
        (exists|i: int| 0 <= i < rows.len() && rows[i].month == t) <==> #[trigger] mau_row_month(acts, t)
    &&& forall|i: int| 0 <= i < rows.len() ==> mrr_row_matches(acts, #[trigger] rows[i])
}

/// Value-weighted growth accounting: one row per month with activity or
/// right after one, in increasing order of month.
pub fn mrr_by_period(acts: &Vec<PeriodActivity>) -> (rows: Vec<MRRGrowthAccountingResult>)
    requires
        acts_valid(acts@),
    ensures
        mrr_rows_spec(acts@, rows@),
{
    let users = distinct_users(acts);
    let firsts = cohort_starts(acts, &users);
    let months = mau_row_months(acts);
    let mut rows: Vec<MRRGrowthAccountingResult> = Vec::new();
    let mut i: usize = 0;
    while i < months.len()
        invariant
            i <= months@.len(),
            acts_valid(acts@),
            users_match(acts@, users@),
            firsts_match(acts@, users@, firsts@),
            forall|j: int| 0 <= j < months@.len() ==> -0x10_0000_0002 <= #[trigger] months@[j] <= 0x10_0000_0002,
            rows@.len() == i,
            forall|j: int| 0 <= j < i ==> #[trigger] rows@[j].month == months@[j],
            forall|j: int| 0 <= j < i ==> mrr_row_matches(acts@, #[trigger] rows@[j]),
        decreases months@.len() - i,
    {
        let row = mrr_row(acts, &users, &firsts, months[i]);
        rows.push(row);
        i += 1;
    }
    assert forall|t: int|
        (exists|i: int| 0 <= i < rows@.len() && rows@[i].month == t) <==> #[trigger] mau_row_month(acts@, t) by {
        if exists|i: int| 0 <= i < rows@.len() && rows@[i].month == t {
            let i = choose|i: int| 0 <= i < rows@.len() && rows@[i].month == t;
            assert(months@[i] == t);
        }
        if mau_row_month(acts@, t) {
            let i = choose|i: int| 0 <= i < months@.len() && months@[i] == t;
            assert(rows@[i].month == t);
        }
    }
    rows
}

/// Value-weighted growth accounting of an event stream, by calendar month.
pub fn mrr_growth_accounting(evs: &Vec<ActivityEvent>) -> (rows: Vec<MRRGrowthAccountingResult>)
    requires
        events_valid(evs@),
    ensures
        mrr_rows_spec(roll_up_spec(evs@, Granularity::Month), rows@),
{
    let acts = roll_up(evs, Granularity::Month);
    mrr_by_period(&acts)
}

} // verus!
