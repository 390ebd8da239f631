use crate::activity::{
    events_valid, roll_up_spec, ActivityEvent, MAX_EVENTS,
};
use crate::calendar::Granularity;
use crate::cohort::{ltv_cohorts_cumulative, ltv_rows_spec, LTVCohortsCumulativeResult};
use crate::growth::{mau_growth_accounting, mau_rows_spec, MAUGrowthAccountingResult};
use crate::revenue::{mrr_growth_accounting, mrr_rows_spec, MRRGrowthAccountingResult};
use crate::store::{activity_spec, CommitStore};
use vstd::prelude::*;

verus! {

/// The three analyses of one scope: monthly active users, the value-weighted
/// decomposition by month, and cumulative value of weekly cohorts.
#[derive(Debug)]
pub struct GrowthAccountingResult {
    pub mau_growth_accounting: Vec<MAUGrowthAccountingResult>,
    pub mrr_growth_accounting: Vec<MRRGrowthAccountingResult>,
    pub ltv_cumulative_cohort: Vec<LTVCohortsCumulativeResult>,
}

/// The result holds the three analyses of the events.
pub open spec fn report_matches(evs: Seq<ActivityEvent>, r: GrowthAccountingResult) -> bool {
    &&& mau_rows_spec(roll_up_spec(evs, Granularity::Month), r.mau_growth_accounting@)
    &&& mrr_rows_spec(roll_up_spec(evs, Granularity::Month), r.mrr_growth_accounting@)
    &&& ltv_rows_spec(roll_up_spec(evs, Granularity::Week), r.ltv_cumulative_cohort@)
}

/// What the analyses run over: one repository, or the repositories of a
/// collection.
#[derive(Clone, Debug)]
pub enum Scope {
    Repository(i32),
    Collection(Vec<i32>),
}

pub open spec fn scope_ids(scope: Scope) -> Seq<i32> {
    match scope {
        Scope::Repository(id) => seq![id],
        Scope::Collection(ids) => ids@,
    }
}

/// The three analyses of an event stream.
pub fn growth_accounting_query(evs: &Vec<ActivityEvent>) -> (r: GrowthAccountingResult)
    requires
        events_valid(evs@),
    ensures
        report_matches(evs@, r),
{
    GrowthAccountingResult {
        mau_growth_accounting: mau_growth_accounting(evs),
        mrr_growth_accounting: mrr_growth_accounting(evs),
        ltv_cumulative_cohort: ltv_cohorts_cumulative(evs, Granularity::Week),
    }
}

/// The repository ids of a scope.
pub fn scope_repositories(scope: &Scope) -> (r: Vec<i32>)
    ensures
        r@ == scope_ids(*scope),
{
    match scope {
        Scope::Repository(id) => {
            let mut r: Vec<i32> = Vec::new();
            r.push(*id);
            assert(r@ =~= seq![*id]);
            r
        },
        Scope::Collection(ids) => {
            let mut r: Vec<i32> = Vec::new();
            let mut k: usize = 0;
            while k < ids.len()
                invariant
                    k <= ids@.len(),
                    r@ == ids@.take(k as int),
                decreases ids@.len() - k,
            {
                r.push(ids[k]);
                assert(ids@.take(k as int + 1) =~= ids@.take(k as int).push(ids@[k as int]));
                k += 1;
            }
            assert(ids@.take(ids@.len() as int) =~= ids@);
            r
        },
    }
}

/// The three analyses of the stored commits of a scope.
pub fn fetch_growth_accounting(store: &CommitStore, scope: &Scope) -> (r: GrowthAccountingResult)
    requires
        store.wf(),
        store@.len() <= MAX_EVENTS,
    ensures
        report_matches(activity_spec(store@, scope_ids(*scope)), r),
{
    let ids = scope_repositories(scope);
    let evs = store.activity(&ids);
    growth_accounting_query(&evs)
}

} // verus!
