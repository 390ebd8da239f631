use crate::calendar::{day_in_range, period_in_range, period_of, period_of_day, Granularity};
use vstd::prelude::*;

verus! {

/// Largest number of events one computation accepts, so that every sum of
/// amounts fits in an `i64`.
pub const MAX_EVENTS: usize = 0x7fff_ffff;

/// One unit of activity: a user, the day it happened on (counted from
/// 1970-01-01) and an increment amount (1 per commit).
#[derive(Clone, Debug)]
pub struct ActivityEvent {
    pub user_id: String,
    pub day: i32,
    pub amount: u32,
}

/// A stream of events that the engine accepts.
pub open spec fn events_valid(evs: Seq<ActivityEvent>) -> bool {
    &&& evs.len() <= MAX_EVENTS
    &&& forall|i: int| 0 <= i < evs.len() ==> day_in_range(#[trigger] evs[i].day as int)
}

/// Activity rolled up to a period: a user, a week or month index, and an
/// increment amount.
#[derive(Clone, Debug)]
pub struct PeriodActivity {
    pub user_id: String,
    pub period: i64,
    pub amount: u32,
}

/// A stream of period activity that the engine accepts.
pub open spec fn acts_valid(acts: Seq<PeriodActivity>) -> bool {
    &&& acts.len() <= MAX_EVENTS
    &&& forall|i: int| 0 <= i < acts.len() ==> period_in_range(#[trigger] acts[i].period as int)
}

/// The period activity of an event.
pub open spec fn rolled_up(e: ActivityEvent, g: Granularity) -> PeriodActivity {
    PeriodActivity { user_id: e.user_id, period: period_of(g, e.day as int) as i64, amount: e.amount }
}

/// Each event labelled with its week or month.
pub open spec fn roll_up_spec(evs: Seq<ActivityEvent>, g: Granularity) -> Seq<PeriodActivity> {
    evs.map_values(|e: ActivityEvent| rolled_up(e, g))
}

/// Sum of the amounts of `u` in period `p`.
pub open spec fn amount_in(acts: Seq<PeriodActivity>, u: Seq<char>, p: int) -> int
    decreases acts.len(),
{
    if acts.len() == 0 {
        0
    } else {
        let e = acts.last();
        amount_in(acts.drop_last(), u, p) + if e.user_id@ == u && e.period as int
            == p {
            e.amount as int
        } else {
            0
        }
    }
}

/// Sum of the amounts of `u` in all periods up to and including `p`.
pub open spec fn amount_upto(acts: Seq<PeriodActivity>, u: Seq<char>, p: int) -> int
    decreases acts.len(),
{
    if acts.len() == 0 {
        0
    } else {
        let e = acts.last();
        amount_upto(acts.drop_last(), u, p) + if e.user_id@ == u && e.period as int
            <= p {
            e.amount as int
        } else {
            0
        }
    }
}

/// Sum of all the amounts of `u`.
pub open spec fn user_total(acts: Seq<PeriodActivity>, u: Seq<char>) -> int
    decreases acts.len(),
{
    if acts.len() == 0 {
        0
    } else {
        user_total(acts.drop_last(), u) + if acts.last().user_id@ == u {
            acts.last().amount as int
        } else {
            0
        }
    }
}

/// Sum of all the amounts.
pub open spec fn total_amount(acts: Seq<PeriodActivity>) -> int
    decreases acts.len(),
{
    if acts.len() == 0 {
        0
    } else {
        total_amount(acts.drop_last()) + acts.last().amount as int
    }
}

/// `u` has a positive amount in period `p`.
pub open spec fn active_in(acts: Seq<PeriodActivity>, u: Seq<char>, p: int) -> bool {
    amount_in(acts, u, p) > 0
}

/// `p` is the first period in which `u` is active: the user's cohort.
pub open spec fn is_cohort_start(acts: Seq<PeriodActivity>, u: Seq<char>, p: int) -> bool {
    &&& active_in(acts, u, p)
    &&& forall|q: int| q < p ==> !#[trigger] active_in(acts, u, q)
}

/// Some user is active in period `p`.
pub open spec fn has_activity(acts: Seq<PeriodActivity>, p: int) -> bool {
    exists|i: int|
        0 <= i < acts.len() && acts[i].amount > 0 && #[trigger] acts[i].period as int == p
}

/// The distinct users of the stream, in order of first appearance.
pub open spec fn user_list(acts: Seq<PeriodActivity>) -> Seq<Seq<char>>
    decreases acts.len(),
{
    if acts.len() == 0 {
        seq![]
    } else {
        let us = user_list(acts.drop_last());
        if us.contains(acts.last().user_id@) {
            us
        } else {
            us.push(acts.last().user_id@)
        }
    }
}

/// Number of users of `us` for which `f` holds.
pub open spec fn count_users(us: Seq<Seq<char>>, f: spec_fn(Seq<char>) -> bool) -> int
    decreases us.len(),
{
    if us.len() == 0 {
        0
    } else {
        count_users(us.drop_last(), f) + if f(us.last()) {
            1int
        } else {
            0int
        }
    }
}

/// Sum of `f` over the users of `us`.
pub open spec fn sum_users(us: Seq<Seq<char>>, f: spec_fn(Seq<char>) -> int) -> int
    decreases us.len(),
{
    if us.len() == 0 {
        0
    } else {
        sum_users(us.drop_last(), f) + f(us.last())
    }
}

pub proof fn lemma_amounts_bounded(acts: Seq<PeriodActivity>, u: Seq<char>, p: int)
    ensures
        0 <= amount_in(acts, u, p) <= user_total(acts, u),
        0 <= amount_upto(acts, u, p) <= user_total(acts, u),
        amount_in(acts, u, p) <= amount_upto(acts, u, p),
        0 <= user_total(acts, u) <= total_amount(acts),
        total_amount(acts) <= acts.len() * 0xffff_ffff,
    decreases acts.len(),
{
    if acts.len() > 0 {
        lemma_amounts_bounded(acts.drop_last(), u, p);
    }
}

pub proof fn lemma_upto_monotone(acts: Seq<PeriodActivity>, u: Seq<char>, p: int, q: int)
    requires
        p <= q,
    ensures
        amount_upto(acts, u, p) <= amount_upto(acts, u, q),
    decreases acts.len(),
{
    if acts.len() > 0 {
        lemma_upto_monotone(acts.drop_last(), u, p, q);
    }
}

/// A user is active in a period exactly when one of its events there has a
/// positive amount.
pub proof fn lemma_active_iff_event(acts: Seq<PeriodActivity>, u: Seq<char>, p: int)
    ensures
        active_in(acts, u, p) <==> exists|i: int|
            0 <= i < acts.len() && acts[i].user_id@ == u && acts[i].amount > 0 && #[trigger] acts[i].period as int == p,
    decreases acts.len(),
{
    if acts.len() > 0 {
        let pre = acts.drop_last();
        lemma_active_iff_event(pre, u, p);
        lemma_amounts_bounded(pre, u, p);
        if active_in(acts, u, p) {
            if !active_in(pre, u, p) {
                let i = acts.len() - 1;
                assert(acts[i].user_id@ == u && acts[i].amount > 0 && acts[i].period as int
                    == p);
            } else {
                let i = choose|i: int|
                    0 <= i < pre.len() && pre[i].user_id@ == u && pre[i].amount > 0
                        && #[trigger] pre[i].period as int == p;
                assert(acts[i] == pre[i]);
            }
        } else {
            assert forall|i: int|
                0 <= i < acts.len() && acts[i].user_id@ == u && acts[i].amount > 0 implies #[trigger] acts[i].period as int != p by {
                if i < pre.len() {
                    assert(acts[i] == pre[i]);
                }
            }
        }
    }
}

/// The users of the list are distinct and are exactly the stream's users.
pub proof fn lemma_user_list(acts: Seq<PeriodActivity>)
    ensures
        user_list(acts).no_duplicates(),
        user_list(acts).len() <= acts.len(),
        forall|u: Seq<char>|
            #[trigger] user_list(acts).contains(u) <==> exists|i: int|
                0 <= i < acts.len() && acts[i].user_id@ == u,
    decreases acts.len(),
{
    if acts.len() > 0 {
        let pre = acts.drop_last();
        lemma_user_list(pre);
        let us = user_list(pre);
        let x = acts.last().user_id@;
        assert forall|u: Seq<char>|
            #[trigger] user_list(acts).contains(u) <==> exists|i: int|
                0 <= i < acts.len() && acts[i].user_id@ == u by {
            if user_list(acts).contains(u) {
                if us.contains(u) {
                    let i = choose|i: int| 0 <= i < pre.len() && pre[i].user_id@ == u;
                    assert(acts[i] == pre[i]);
                } else {
                    assert(u == x);
                    assert(acts[acts.len() - 1].user_id@ == u);
                }
            }
            if exists|i: int| 0 <= i < acts.len() && acts[i].user_id@ == u {
                let i = choose|i: int| 0 <= i < acts.len() && acts[i].user_id@ == u;
                if i < pre.len() {
                    assert(pre[i] == acts[i]);
                    assert(us.contains(u));
                } else {
                    assert(u == x);
                }
                if !us.contains(x) {
                    assert(us.push(x)[us.len() as int] == x);
                }
                if us.contains(u) && !us.contains(x) {
                    let k = choose|k: int| 0 <= k < us.len() && us[k] == u;
                    assert(us.push(x)[k] == u);
                }
            }
        }
    }
}

/// A count splits over a predicate that is the disjoint union of two others.
pub proof fn lemma_count_split(
    us: Seq<Seq<char>>,
    f: spec_fn(Seq<char>) -> bool,
    a: spec_fn(Seq<char>) -> bool,
    b: spec_fn(Seq<char>) -> bool,
)
    requires
        forall|u: Seq<char>| #[trigger] f(u) == (a(u) || b(u)),
        forall|u: Seq<char>| !(#[trigger] a(u) && b(u)),
    ensures
        count_users(us, f) == count_users(us, a) + count_users(us, b),
    decreases us.len(),
{
    if us.len() > 0 {
        lemma_count_split(us.drop_last(), f, a, b);
        assert(f(us.last()) == (a(us.last()) || b(us.last())));
        assert(!(a(us.last()) && b(us.last())));
    }
}

/// A count over a predicate that holds of no user is zero.
pub proof fn lemma_count_none(us: Seq<Seq<char>>, f: spec_fn(Seq<char>) -> bool)
    requires
        forall|u: Seq<char>| !#[trigger] f(u),
    ensures
        count_users(us, f) == 0,
    decreases us.len(),
{
    if us.len() > 0 {
        lemma_count_none(us.drop_last(), f);
        assert(!f(us.last()));
    }
}

/// Counts are never negative.
pub proof fn lemma_count_nonneg(us: Seq<Seq<char>>, f: spec_fn(Seq<char>) -> bool)
    ensures
        0 <= count_users(us, f) <= us.len(),
    decreases us.len(),
{
    if us.len() > 0 {
        lemma_count_nonneg(us.drop_last(), f);
    }
}

/// A sum is monotone in its summand.
pub proof fn lemma_sum_monotone(us: Seq<Seq<char>>, f: spec_fn(Seq<char>) -> int, h: spec_fn(Seq<char>) -> int)
    requires
        forall|u: Seq<char>| #[trigger] f(u) <= h(u),
    ensures
        sum_users(us, f) <= sum_users(us, h),
    decreases us.len(),
{
    if us.len() > 0 {
        lemma_sum_monotone(us.drop_last(), f, h);
        assert(f(us.last()) <= h(us.last()));
    }
}

pub open spec fn user_totals(acts: Seq<PeriodActivity>) -> spec_fn(Seq<char>) -> int {
    |u: Seq<char>| user_total(acts, u)
}

pub open spec fn zero_sum() -> spec_fn(Seq<char>) -> int {
    |u: Seq<char>| 0int
}

proof fn lemma_sum_single(us: Seq<Seq<char>>, x: Seq<char>, a: int)
    requires
        us.no_duplicates(),
        a >= 0,
    ensures
        sum_users(us, |u: Seq<char>| if u == x { a } else { 0int }) <= a,
        sum_users(us, |u: Seq<char>| if u == x { a } else { 0int }) >= 0,
        !us.contains(x) ==> sum_users(us, |u: Seq<char>| if u == x { a } else { 0int }) == 0,
    decreases us.len(),
{
    if us.len() > 0 {
        let pre = us.drop_last();
        assert(pre.no_duplicates());
        lemma_sum_single(pre, x, a);
        if us.last() == x {
            assert(!pre.contains(x)) by {
                if pre.contains(x) {
                    let k = choose|k: int| 0 <= k < pre.len() && pre[k] == x;
                    assert(us[k] == us[us.len() - 1]);
                }
            }
        }
        if !us.contains(x) {
            assert(!pre.contains(x)) by {
                if pre.contains(x) {
                    let k = choose|k: int| 0 <= k < pre.len() && pre[k] == x;
                    assert(us[k] == x);
                }
            }
            assert(us[us.len() - 1] != x);
        }
    }
}

proof fn lemma_sum_add(us: Seq<Seq<char>>, f: spec_fn(Seq<char>) -> int, h: spec_fn(Seq<char>) -> int, k: spec_fn(Seq<char>) -> int)
    requires
        forall|u: Seq<char>| #[trigger] k(u) == f(u) + h(u),
    ensures
        sum_users(us, k) == sum_users(us, f) + sum_users(us, h),
    decreases us.len(),
{
    if us.len() > 0 {
        lemma_sum_add(us.drop_last(), f, h, k);
        assert(k(us.last()) == f(us.last()) + h(us.last()));
    }
}

/// Summed over distinct users, the users' totals never exceed the stream's
/// total amount.
pub proof fn lemma_user_totals_bounded(acts: Seq<PeriodActivity>, us: Seq<Seq<char>>)
    requires
        us.no_duplicates(),
    ensures
        0 <= sum_users(us, user_totals(acts)) <= total_amount(acts),
    decreases acts.len(),
{
    if acts.len() == 0 {
        lemma_sum_monotone(us, user_totals(acts), zero_sum());
        lemma_sum_monotone(us, zero_sum(), user_totals(acts));
        lemma_sum_zero(us);
    } else {
        let pre = acts.drop_last();
        lemma_user_totals_bounded(pre, us);
        let x = acts.last().user_id@;
        let a = acts.last().amount as int;
        let single = |u: Seq<char>| if u == x { a } else { 0int };
        lemma_sum_single(us, x, a);
        lemma_sum_add(us, user_totals(pre), single, user_totals(acts));
    }
}

pub proof fn lemma_sum_zero(us: Seq<Seq<char>>)
    ensures
        sum_users(us, zero_sum()) == 0,
    decreases us.len(),
{
    if us.len() > 0 {
        lemma_sum_zero(us.drop_last());
    }
}

/// The largest total amount of an accepted stream.
pub const MAX_TOTAL: u64 = 0x7fff_fffe_8000_0001;

/// The total amount of an accepted stream fits in an `i64`.
pub proof fn lemma_total_fits(acts: Seq<PeriodActivity>)
    requires
        acts_valid(acts),
    ensures
        0 <= total_amount(acts) <= MAX_TOTAL,
{
    lemma_amounts_bounded(acts, seq![], 0);
    let n = acts.len();
    assert(n * 0xffff_ffff <= 0x7fff_ffff * 0xffff_ffff) by (nonlinear_arith)
        requires
            n <= 0x7fff_ffff,
    ;
}

/// One more user adds its summand.
pub proof fn lemma_sum_step(us: Seq<Seq<char>>, k: int, f: spec_fn(Seq<char>) -> int)
    requires
        0 <= k < us.len(),
    ensures
        sum_users(us.take(k + 1), f) == sum_users(us.take(k), f) + f(us[k]),
{
    assert(us.take(k + 1).drop_last() =~= us.take(k));
}

/// One more user adds one to the count when it satisfies the predicate.
pub proof fn lemma_count_step(us: Seq<Seq<char>>, k: int, f: spec_fn(Seq<char>) -> bool)
    requires
        0 <= k < us.len(),
    ensures
        count_users(us.take(k + 1), f) == count_users(us.take(k), f) + if f(us[k]) { 1int } else { 0int },
{
    assert(us.take(k + 1).drop_last() =~= us.take(k));
}

/// A sum over a prefix of the users, of a summand bounded by each user's
/// total, lies between zero and the stream's total.
pub proof fn lemma_sum_bounded(acts: Seq<PeriodActivity>, k: int, f: spec_fn(Seq<char>) -> int)
    requires
        acts_valid(acts),
        0 <= k <= user_list(acts).len(),
        forall|u: Seq<char>| 0 <= #[trigger] f(u) <= user_total(acts, u),
    ensures
        0 <= sum_users(user_list(acts).take(k), f) <= MAX_TOTAL,
{
    let us = user_list(acts).take(k);
    lemma_user_list(acts);
    assert(us.no_duplicates()) by {
        assert forall|i: int, j: int| 0 <= i < us.len() && 0 <= j < us.len() && i != j implies us[i] != us[j] by {
            assert(us[i] == user_list(acts)[i] && us[j] == user_list(acts)[j]);
        }
    }
    lemma_user_totals_bounded(acts, us);
    lemma_sum_monotone(us, f, user_totals(acts));
    lemma_sum_monotone(us, zero_sum(), f);
    lemma_sum_zero(us);
    lemma_total_fits(acts);
}

/// Whether `us` already holds a string equal to `u`.
fn contains_user(us: &Vec<String>, u: &String) -> (r: bool)
    ensures
        r == exists|k: int| 0 <= k < us@.len() && us@[k]@ == u@,
{
    let mut k: usize = 0;
    while k < us.len()
        invariant
            k <= us@.len(),
            forall|j: int| 0 <= j < k ==> us@[j]@ != u@,
        decreases us@.len() - k,
    {
        if us[k] == *u {
            return true;
        }
        k += 1;
    }
    false
}

/// The distinct users of the stream, in order of first appearance.
pub fn distinct_users(acts: &Vec<PeriodActivity>) -> (us: Vec<String>)
    ensures
        us@.len() == user_list(acts@).len(),
        forall|k: int| 0 <= k < us@.len() ==> #[trigger] us@[k]@ == user_list(acts@)[k],
{
    let mut us: Vec<String> = Vec::new();
    let mut i: usize = 0;
    while i < acts.len()
        invariant
            i <= acts@.len(),
            us@.len() == user_list(acts@.take(i as int)).len(),
            forall|k: int| 0 <= k < us@.len() ==> #[trigger] us@[k]@ == user_list(acts@.take(i as int))[k],
        decreases acts@.len() - i,
    {
        let ghost pre = user_list(acts@.take(i as int));
        assert(acts@.take(i as int + 1).drop_last() =~= acts@.take(i as int));
        let found = contains_user(&us, &acts[i].user_id);
        proof {
            if found {
                let k = choose|k: int| 0 <= k < us@.len() && us@[k]@ == acts@[i as int].user_id@;
                assert(pre[k] == acts@[i as int].user_id@);
                assert(pre.contains(acts@[i as int].user_id@));
            } else {
                assert(!pre.contains(acts@[i as int].user_id@)) by {
                    if pre.contains(acts@[i as int].user_id@) {
                        let k = choose|k: int| 0 <= k < pre.len() && pre[k] == acts@[i as int].user_id@;
                        assert(us@[k]@ == pre[k]);
                    }
                }
            }
        }
        if !found {
            us.push(acts[i].user_id.clone());
        }
        i += 1;
    }
    assert(acts@.take(acts@.len() as int) =~= acts@);
    us
}

/// Each event labelled with its week or month.
pub fn roll_up(evs: &Vec<ActivityEvent>, g: Granularity) -> (acts: Vec<PeriodActivity>)
    requires
        events_valid(evs@),
    ensures
        acts@ == roll_up_spec(evs@, g),
        acts_valid(acts@),
{
    let mut acts: Vec<PeriodActivity> = Vec::new();
    let mut i: usize = 0;
    while i < evs.len()
        invariant
            i <= evs@.len(),
            events_valid(evs@),
            acts@ == roll_up_spec(evs@.take(i as int), g),
            forall|j: int| 0 <= j < i ==> period_in_range(#[trigger] acts@[j].period as int),
        decreases evs@.len() - i,
    {
        assert(day_in_range(evs@[i as int].day as int));
        let p = period_of_day(g, evs[i].day);
        let a = PeriodActivity { user_id: evs[i].user_id.clone(), period: p, amount: evs[i].amount };
        acts.push(a);
        assert(roll_up_spec(evs@.take(i as int + 1), g) =~= roll_up_spec(evs@.take(i as int), g).push(a));
        i += 1;
    }
    assert(evs@.take(evs@.len() as int) =~= evs@);
    acts
}

/// Sum of the amounts of `u` in period `p`.
pub fn amount_of(acts: &Vec<PeriodActivity>, u: &String, p: i64) -> (r: u64)
    requires
        acts_valid(acts@),
    ensures
        r as int == amount_in(acts@, u@, p as int),
{
    let mut r: u64 = 0;
    let mut i: usize = 0;
    while i < acts.len()
        invariant
            i <= acts@.len(),
            acts_valid(acts@),
            r as int == amount_in(acts@.take(i as int), u@, p as int),
        decreases acts@.len() - i,
    {
        let ghost pre = acts@.take(i as int);
        let ghost next = acts@.take(i as int + 1);
        assert(next.drop_last() =~= pre);
        proof {
            lemma_amounts_bounded(next, u@, p as int);
        }
        if acts[i].user_id == *u && acts[i].period == p {
            r = r + acts[i].amount as u64;
        }
        i += 1;
    }
    assert(acts@.take(acts@.len() as int) =~= acts@);
    r
}

/// Sum of the amounts of `u` in all periods up to and including `p`.
pub fn amount_upto_of(acts: &Vec<PeriodActivity>, u: &String, p: i64) -> (r: u64)
    requires
        acts_valid(acts@),
    ensures
        r as int == amount_upto(acts@, u@, p as int),
{
    let mut r: u64 = 0;
    let mut i: usize = 0;
    while i < acts.len()
        invariant
            i <= acts@.len(),
            acts_valid(acts@),
            r as int == amount_upto(acts@.take(i as int), u@, p as int),
        decreases acts@.len() - i,
    {
        let ghost pre = acts@.take(i as int);
        let ghost next = acts@.take(i as int + 1);
        assert(next.drop_last() =~= pre);
        proof {
            lemma_amounts_bounded(next, u@, p as int);
        }
        if acts[i].user_id == *u && acts[i].period <= p {
            r = r + acts[i].amount as u64;
        }
        i += 1;
    }
    assert(acts@.take(acts@.len() as int) =~= acts@);
    r
}

/// The first period in which `u` is active, if any.
pub fn first_period(acts: &Vec<PeriodActivity>, u: &String) -> (r: Option<i64>)
    requires
        acts_valid(acts@),
    ensures
        r matches Some(p) ==> is_cohort_start(acts@, u@, p as int),
        r matches Some(p) ==> period_in_range(p as int),
        r is None ==> forall|q: int| !#[trigger] active_in(acts@, u@, q),
{
    let mut r: Option<i64> = None;
    let mut i: usize = 0;
    while i < acts.len()
        invariant
            i <= acts@.len(),
            acts_valid(acts@),
            r is None ==> forall|j: int|
                0 <= j < i ==> !(#[trigger] acts@[j].user_id@ == u@ && acts@[j].amount > 0),
            r matches Some(p) ==> exists|j: int|
                0 <= j < i && acts@[j].user_id@ == u@ && acts@[j].amount > 0 && #[trigger] acts@[j].period == p,
            r matches Some(p) ==> forall|j: int|
                0 <= j < i && #[trigger] acts@[j].user_id@ == u@ && acts@[j].amount > 0 ==> p <= acts@[j].period,
            r matches Some(p) ==> period_in_range(p as int),
        decreases acts@.len() - i,
    {
        if acts[i].user_id == *u && acts[i].amount > 0 {
            match r {
                None => {
                    r = Some(acts[i].period);
                },
                Some(p) => {
                    if acts[i].period < p {
                        r = Some(acts[i].period);
                    }
                },
            }
        }
        i += 1;
    }
    proof {
        match r {
            Some(p) => {
                lemma_active_iff_event(acts@, u@, p as int);
                let j = choose|j: int|
                    0 <= j < acts@.len() && acts@[j].user_id@ == u@ && acts@[j].amount > 0 && #[trigger] acts@[j].period == p;
                assert forall|q: int| q < p implies !#[trigger] active_in(acts@, u@, q) by {
                    lemma_active_iff_event(acts@, u@, q);
                    if active_in(acts@, u@, q) {
                        let k = choose|k: int|
                            0 <= k < acts@.len() && acts@[k].user_id@ == u@ && acts@[k].amount > 0
                                && #[trigger] acts@[k].period as int == q;
                        assert(acts@[k].period == q);
                    }
                }
            },
            None => {
                assert forall|q: int| !#[trigger] active_in(acts@, u@, q) by {
                    lemma_active_iff_event(acts@, u@, q);
                    if active_in(acts@, u@, q) {
                        let k = choose|k: int|
                            0 <= k < acts@.len() && acts@[k].user_id@ == u@ && acts@[k].amount > 0
                                && #[trigger] acts@[k].period as int == q;
                        assert(acts@[k].user_id@ == u@ && acts@[k].amount > 0);
                    }
                }
            },
        }
    }
    r
}

} // verus!
