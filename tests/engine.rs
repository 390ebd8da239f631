use repo_growth::{
    ltv_by_period, mau_by_period, mrr_by_period, roll_up, PeriodActivity,
    distinct_users, growth_accounting_query, ltv_cohorts_cumulative, mau_growth_accounting,
    mrr_growth_accounting, period_of_day, ratio_of, ActivityEvent, Granularity,
    LTVCohortsCumulativeResult, MAUGrowthAccountingResult, MRRGrowthAccountingResult, Ratio,
};

// Days counted from 1970-01-01.
const JAN_05_2024: i32 = 19727;
const FEB_10_2024: i32 = 19763;
const FEB_15_2024: i32 = 19768;
const MAR_01_2024: i32 = 19783;
// Month index of January 2024: 2024 * 12 + 0.
const JAN_2024: i64 = 24288;

fn ev(user: &str, day: i32, amount: u32) -> ActivityEvent {
    ActivityEvent { user_id: user.to_string(), day, amount }
}

fn two_users() -> Vec<ActivityEvent> {
    vec![
        ev("A", JAN_05_2024, 1),
        ev("A", FEB_10_2024, 1),
        ev("A", MAR_01_2024, 1),
        ev("B", FEB_15_2024, 1),
    ]
}

fn mau(month: i64, mau: i64, retained: i64, new: i64, resurrected: i64, churned: i64) -> MAUGrowthAccountingResult {
    MAUGrowthAccountingResult { month, mau, retained, new, resurrected, churned }
}

#[test]
fn months_and_weeks_of_days() {
    assert_eq!(period_of_day(Granularity::Month, JAN_05_2024), JAN_2024);
    assert_eq!(period_of_day(Granularity::Month, FEB_15_2024), JAN_2024 + 1);
    assert_eq!(period_of_day(Granularity::Month, MAR_01_2024), JAN_2024 + 2);
    assert_eq!(period_of_day(Granularity::Month, 0), 1970 * 12);
    assert_eq!(period_of_day(Granularity::Month, -1), 1969 * 12 + 11);
    // 1970-01-01 is a Thursday: its week starts on Monday 1969-12-29.
    assert_eq!(period_of_day(Granularity::Week, -3), 0);
    assert_eq!(period_of_day(Granularity::Week, 3), 0);
    assert_eq!(period_of_day(Granularity::Week, 4), 1);
    assert_eq!(period_of_day(Granularity::Week, -4), -1);
}

#[test]
fn mau_two_users_over_three_months() {
    let rows = mau_growth_accounting(&two_users());
    assert_eq!(rows.len(), 4);
    assert_eq!(rows[0], mau(JAN_2024, 1, 0, 1, 0, 0));
    assert_eq!(rows[1], mau(JAN_2024 + 1, 2, 1, 1, 0, 0));
    assert_eq!(rows[2], mau(JAN_2024 + 2, 1, 1, 0, 0, -1));
    // The month after the last activity records who was lost.
    assert_eq!(rows[3], mau(JAN_2024 + 3, 0, 0, 0, 0, -1));
}

#[test]
fn mau_identities_hold_on_every_row() {
    let mut evs = two_users();
    evs.push(ev("C", JAN_05_2024, 2));
    evs.push(ev("C", MAR_01_2024, 1));
    evs.push(ev("D", MAR_01_2024, 0));
    let rows = mau_growth_accounting(&evs);
    for (i, r) in rows.iter().enumerate() {
        assert_eq!(r.mau, r.retained + r.new + r.resurrected);
        let before = if i > 0 && rows[i - 1].month == r.month - 1 { rows[i - 1].mau } else { 0 };
        assert_eq!(before, r.retained - r.churned);
    }
    let march = rows.iter().find(|r| r.month == JAN_2024 + 2).unwrap();
    assert_eq!(*march, mau(JAN_2024 + 2, 2, 1, 0, 1, -1));
    let february = rows.iter().find(|r| r.month == JAN_2024 + 1).unwrap();
    assert_eq!(*february, mau(JAN_2024 + 1, 2, 1, 1, 0, -1));
}

#[test]
fn mau_gap_gives_churn_then_resurrection() {
    let evs = vec![ev("A", JAN_05_2024, 1), ev("A", MAR_01_2024, 1)];
    let rows = mau_growth_accounting(&evs);
    assert_eq!(
        rows,
        vec![
            mau(JAN_2024, 1, 0, 1, 0, 0),
            mau(JAN_2024 + 1, 0, 0, 0, 0, -1),
            mau(JAN_2024 + 2, 1, 0, 0, 1, 0),
            mau(JAN_2024 + 3, 0, 0, 0, 0, -1),
        ]
    );
}

#[test]
fn mrr_with_amounts() {
    let evs = vec![
        ev("A", JAN_05_2024, 2),
        ev("A", FEB_10_2024, 5),
        ev("B", FEB_15_2024, 4),
        ev("A", MAR_01_2024, 3),
    ];
    let rows = mrr_growth_accounting(&evs);
    let row = |month, rev, retained, new, resurrected, expansion, churned, contraction| MRRGrowthAccountingResult {
        month,
        rev,
        retained,
        new,
        resurrected,
        expansion,
        churned,
        contraction,
    };
    assert_eq!(
        rows,
        vec![
            row(JAN_2024, 2, 0, 2, 0, 0, 0, 0),
            row(JAN_2024 + 1, 9, 2, 4, 0, 3, 0, 0),
            row(JAN_2024 + 2, 3, 3, 0, 0, 0, -4, -2),
            row(JAN_2024 + 3, 0, 0, 0, 0, 0, -3, 0),
        ]
    );
}

#[test]
fn mrr_resurrected_amount() {
    let evs = vec![ev("A", JAN_05_2024, 2), ev("A", MAR_01_2024, 7), ev("A", MAR_01_2024, 1)];
    let rows = mrr_growth_accounting(&evs);
    assert_eq!(rows.len(), 4);
    assert_eq!(rows[1].churned, -2);
    assert_eq!(rows[2].rev, 8);
    assert_eq!(rows[2].resurrected, 8);
    assert_eq!(rows[2].new, 0);
}

#[test]
fn ltv_weekly_cohorts_of_two_users() {
    let rows = ltv_cohorts_cumulative(&two_users(), Granularity::Week);
    let keys: Vec<(i64, i64, i64)> = rows
        .iter()
        .map(|r| (r.cohort_period, r.active_period, r.periods_since_cohort_start))
        .collect();
    assert_eq!(keys, vec![(2818, 2818, 0), (2818, 2823, 5), (2818, 2826, 8), (2824, 2824, 0)]);
    let cumulative: Vec<i64> = rows.iter().map(|r| r.cumulative_amount).collect();
    assert_eq!(cumulative, vec![1, 2, 3, 1]);
    for r in &rows {
        assert_eq!(r.active_users, 1);
        assert_eq!(r.cohort_size, 1);
        assert_eq!(r.incremental_amount, 1);
        assert_eq!(r.retained_pct, Some(Ratio { numerator: 1, denominator: 1 }));
    }
    assert_eq!(rows[2].cumulative_amount_per_user, Some(Ratio { numerator: 3, denominator: 1 }));
}

#[test]
fn ltv_cumulative_never_decreases_within_a_cohort() {
    let evs = vec![
        ev("A", JAN_05_2024, 3),
        ev("B", JAN_05_2024 + 1, 1),
        ev("A", JAN_05_2024 + 7, 0),
        ev("B", JAN_05_2024 + 8, 4),
        ev("A", JAN_05_2024 + 21, 2),
    ];
    let rows = ltv_cohorts_cumulative(&evs, Granularity::Week);
    assert_eq!(rows.len(), 3);
    assert_eq!(rows[0].cohort_size, 2);
    assert_eq!(rows[0].active_users, 2);
    assert_eq!(rows[1].active_users, 1);
    assert_eq!(rows[1].retained_pct, Some(Ratio { numerator: 1, denominator: 2 }));
    let cumulative: Vec<i64> = rows.iter().map(|r| r.cumulative_amount).collect();
    assert_eq!(cumulative, vec![4, 8, 10]);
    for w in rows.windows(2) {
        if w[0].cohort_period == w[1].cohort_period {
            assert!(w[0].cumulative_amount <= w[1].cumulative_amount);
        }
    }
}

#[test]
fn ltv_monthly_cohorts() {
    let rows = ltv_cohorts_cumulative(&two_users(), Granularity::Month);
    let keys: Vec<(i64, i64)> = rows.iter().map(|r| (r.cohort_period, r.active_period)).collect();
    assert_eq!(
        keys,
        vec![(JAN_2024, JAN_2024), (JAN_2024, JAN_2024 + 1), (JAN_2024, JAN_2024 + 2), (JAN_2024 + 1, JAN_2024 + 1)]
    );
}

#[test]
fn empty_cohort_row_has_no_fractions() {
    let r = LTVCohortsCumulativeResult::from_counts(10, 12, 0, 0, 0, 5);
    assert_eq!(r.periods_since_cohort_start, 2);
    assert_eq!(r.retained_pct, None);
    assert_eq!(r.cumulative_amount_per_user, None);
    assert_eq!(ratio_of(3, 0), None);
    assert_eq!(ratio_of(3, 4), Some(Ratio { numerator: 3, denominator: 4 }));
}

#[test]
fn empty_stream_gives_empty_results() {
    let r = growth_accounting_query(&Vec::new());
    assert!(r.mau_growth_accounting.is_empty());
    assert!(r.mrr_growth_accounting.is_empty());
    assert!(r.ltv_cumulative_cohort.is_empty());
}

#[test]
fn zero_amounts_are_not_activity() {
    let evs = vec![ev("A", JAN_05_2024, 0)];
    let r = growth_accounting_query(&evs);
    assert!(r.mau_growth_accounting.is_empty());
    assert!(r.mrr_growth_accounting.is_empty());
    assert!(r.ltv_cumulative_cohort.is_empty());
}

#[test]
fn users_in_order_of_first_appearance() {
    let acts = vec![act("B", 1, 1), act("A", 2, 1), act("B", 3, 1)];
    assert_eq!(distinct_users(&acts), vec!["B".to_string(), "A".to_string()]);
}

#[test]
fn month_indices() {
    assert_eq!(repo_growth::month_index(2024, 1), JAN_2024);
    assert_eq!(repo_growth::month_index(1969, 12), 1969 * 12 + 11);
    assert_eq!(repo_growth::month_index(-1, 1), -12);
}

fn act(user: &str, period: i64, amount: u32) -> PeriodActivity {
    PeriodActivity { user_id: user.to_string(), period, amount }
}

#[test]
fn accounting_over_labelled_periods() {
    let acts = vec![act("A", 1, 1), act("A", 2, 1), act("A", 3, 1), act("B", 2, 1)];
    let rows = mau_by_period(&acts);
    assert_eq!(
        rows,
        vec![mau(1, 1, 0, 1, 0, 0), mau(2, 2, 1, 1, 0, 0), mau(3, 1, 1, 0, 0, -1), mau(4, 0, 0, 0, 0, -1)]
    );
    let rev = mrr_by_period(&acts);
    assert_eq!(rev.iter().map(|r| r.rev).collect::<Vec<_>>(), vec![1, 2, 1, 0]);
    assert_eq!(rev[2].churned, -1);
    let ltv = ltv_by_period(&acts);
    let keys: Vec<(i64, i64, i64)> = ltv.iter().map(|r| (r.cohort_period, r.active_period, r.cumulative_amount)).collect();
    assert_eq!(keys, vec![(1, 1, 1), (1, 2, 2), (1, 3, 3), (2, 2, 1)]);
}

#[test]
fn roll_up_labels_each_event() {
    let acts = roll_up(&two_users(), Granularity::Month);
    let periods: Vec<i64> = acts.iter().map(|a| a.period).collect();
    assert_eq!(periods, vec![JAN_2024, JAN_2024 + 1, JAN_2024 + 2, JAN_2024 + 1]);
    assert_eq!(acts[3].user_id, "B");
}
