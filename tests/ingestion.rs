use repo_growth::{
    classify_fetch_error, contains_text, day_of_timestamp, fetch_growth_accounting, scope_repositories,
    BackoffPolicy, Commit, CommitStore, FetchErrorKind, Job, JobQueue, Scope, SourceCommit,
    SyncSession, SyncStep,
};

const RATE_LIMITED: &str = "API rate limit exceeded for user ID 1.";

fn src(rev: &str, author: Option<&str>, at: Option<i64>) -> SourceCommit {
    SourceCommit {
        revision_id: rev.to_string(),
        message: format!("change {}", rev),
        author_name: author.map(|a| a.to_string()),
        authored_at: at,
    }
}

fn source_pages() -> Vec<(Vec<SourceCommit>, bool)> {
    vec![
        (vec![src("c4", Some("ann"), Some(4_000_000)), src("c3", Some("bob"), Some(3_000_000))], true),
        (vec![src("c2", Some("ann"), Some(2_000_000)), src("c1", None, Some(1_000_000))], false),
    ]
}

/// Runs one sync of repository 7 against the given pages into the store.
fn run_sync(store: &mut CommitStore, pages: &[(Vec<SourceCommit>, bool)]) -> usize {
    let policy = BackoffPolicy::default_policy();
    let (mut session, mut step) = SyncSession::start(7, store.watermark(7), policy);
    let mut stored = 0;
    loop {
        match step {
            SyncStep::Fetch { page } => {
                let (items, has_next) = pages[(page - 1) as usize].clone();
                let out = session.on_page(items, has_next, 9_000_000);
                stored += store.ingest(out.to_store);
                step = out.next;
            }
            SyncStep::Done | SyncStep::Abort => return stored,
            SyncStep::Wait { .. } => unreachable!(),
        }
    }
}

#[test]
fn rate_limit_messages_are_transient() {
    assert_eq!(classify_fetch_error(RATE_LIMITED), FetchErrorKind::Transient);
    assert_eq!(classify_fetch_error("API rate limit exceeded"), FetchErrorKind::Transient);
    assert_eq!(classify_fetch_error("Not Found"), FetchErrorKind::Permanent);
    assert_eq!(classify_fetch_error("API rate limit"), FetchErrorKind::Permanent);
    assert_eq!(classify_fetch_error(""), FetchErrorKind::Permanent);
    assert!(contains_text("abcabd", "abd"));
    assert!(!contains_text("abcab", "abd"));
}

#[test]
fn three_rate_limits_then_success() {
    let (mut session, step) = SyncSession::start(7, None, BackoffPolicy::default_policy());
    assert_eq!(step, SyncStep::Fetch { page: 1 });
    let mut delays = Vec::new();
    for jitter in [999u64, 0, 7] {
        match session.on_error(RATE_LIMITED, jitter) {
            SyncStep::Wait { page, delay_ms } => {
                assert_eq!(page, 1);
                delays.push(delay_ms);
            }
            other => panic!("expected a wait, got {:?}", other),
        }
    }
    assert_eq!(delays.len(), 3);
    assert!(delays.windows(2).all(|w| w[0] <= w[1]));
    // Bases 500, 1000, 2000 with up to half of each as jitter.
    assert_eq!(delays, vec![500 + 999 % 251, 1000, 2000 + 7]);
    let out = session.on_page(vec![src("c1", Some("ann"), Some(10))], false, 99);
    assert_eq!(out.next, SyncStep::Done);
    assert_eq!(out.to_store.len(), 1);
    let mut store = CommitStore::new();
    assert_eq!(store.ingest(out.to_store), 1);
    assert_eq!(store.len(), 1);
    assert_eq!(session.retries, 0);
}

#[test]
fn delays_never_decrease_at_the_cap() {
    let policy = BackoffPolicy { initial_delay_ms: 100, max_delay_ms: 300, max_retries: 6 };
    let (mut session, _) = SyncSession::start(1, None, policy);
    let mut last = 0;
    for jitter in [1000u64, 149, 0, 151, 0, 3] {
        match session.on_error(RATE_LIMITED, jitter) {
            SyncStep::Wait { delay_ms, .. } => {
                assert!(delay_ms >= last);
                assert!(delay_ms <= 450);
                last = delay_ms;
            }
            other => panic!("expected a wait, got {:?}", other),
        }
    }
    assert_eq!(session.on_error(RATE_LIMITED, 0), SyncStep::Abort);
}

#[test]
fn permanent_error_aborts() {
    let (mut session, _) = SyncSession::start(1, None, BackoffPolicy::default_policy());
    let before = session;
    assert_eq!(session.on_error("Bad credentials", 5), SyncStep::Abort);
    assert_eq!(session, before);
}

#[test]
fn backoff_bases_double_up_to_the_cap() {
    let p = BackoffPolicy { initial_delay_ms: 500, max_delay_ms: 3000, max_retries: 9 };
    let bases: Vec<u64> = (0..5).map(|k| p.base_delay_ms(k)).collect();
    assert_eq!(bases, vec![500, 1000, 2000, 3000, 3000]);
    assert_eq!(p.retry_delay_ms(1, 0, 501), 1000);
    assert_eq!(p.retry_delay_ms(1, 5000, 3), 5000);
}

#[test]
fn page_step_filters_by_watermark() {
    let (mut session, _) = SyncSession::start(3, Some(2_000), BackoffPolicy::default_policy());
    let items = vec![
        src("new", None, Some(2_001)),
        src("same", Some("x"), Some(2_000)),
        src("undated", Some("y"), None),
        src("old", Some("z"), Some(5)),
    ];
    let out = session.on_page(items, true, 50_000);
    assert_eq!(out.next, SyncStep::Fetch { page: 2 });
    assert_eq!(session.page, 2);
    let kept: Vec<(String, String, i64, i32)> = out
        .to_store
        .iter()
        .map(|c| (c.revision_id.clone(), c.author_name.clone(), c.authored_at, c.repository_id))
        .collect();
    assert_eq!(
        kept,
        vec![
            ("new".to_string(), "Unknown".to_string(), 2_001, 3),
            ("undated".to_string(), "y".to_string(), 50_000, 3),
        ]
    );
    let out = session.on_page(vec![src("older", Some("z"), Some(1))], true, 50_000);
    assert!(out.to_store.is_empty());
    assert_eq!(out.next, SyncStep::Done);
}

#[test]
fn sync_twice_keeps_the_commit_count() {
    let mut store = CommitStore::new();
    let pages = source_pages();
    assert_eq!(run_sync(&mut store, &pages), 4);
    assert_eq!(store.len(), 4);
    assert_eq!(store.watermark(7), Some(4_000_000));
    assert_eq!(run_sync(&mut store, &pages), 0);
    assert_eq!(store.len(), 4);
}

#[test]
fn ingesting_a_batch_twice_stores_it_once() {
    let mut store = CommitStore::new();
    let batch = || {
        vec![
            Commit { repository_id: 1, revision_id: "a".into(), message: "m".into(), author_name: "x".into(), authored_at: 10 },
            Commit { repository_id: 1, revision_id: "b".into(), message: "m".into(), author_name: "x".into(), authored_at: 20 },
            Commit { repository_id: 2, revision_id: "a".into(), message: "m".into(), author_name: "y".into(), authored_at: 30 },
            Commit { repository_id: 1, revision_id: "a".into(), message: "again".into(), author_name: "z".into(), authored_at: 40 },
        ]
    };
    assert_eq!(store.ingest(batch()), 3);
    assert_eq!(store.ingest(batch()), 0);
    assert_eq!(store.len(), 3);
    assert_eq!(store.watermark(1), Some(20));
    assert_eq!(store.watermark(2), Some(30));
    assert_eq!(store.watermark(3), None);
}

#[test]
fn timestamps_outside_the_calendar_are_refused() {
    let mut store = CommitStore::new();
    let far = Commit { repository_id: 1, revision_id: "a".into(), message: String::new(), author_name: "x".into(), authored_at: i64::MAX };
    assert!(!store.insert(far));
    assert_eq!(store.len(), 0);
}

#[test]
fn days_of_timestamps_round_down() {
    assert_eq!(day_of_timestamp(0), 0);
    assert_eq!(day_of_timestamp(86_399), 0);
    assert_eq!(day_of_timestamp(86_400), 1);
    assert_eq!(day_of_timestamp(-1), -1);
    assert_eq!(day_of_timestamp(-86_400), -1);
    assert_eq!(day_of_timestamp(-86_401), -2);
}

#[test]
fn growth_accounting_over_a_collection() {
    let mut store = CommitStore::new();
    let day = 86_400i64;
    let c = |repo: i32, rev: &str, author: &str, d: i64| Commit {
        repository_id: repo,
        revision_id: rev.to_string(),
        message: String::new(),
        author_name: author.to_string(),
        authored_at: d * day + 3600,
    };
    store.ingest(vec![c(1, "a", "ann", 19727), c(2, "b", "bob", 19768), c(3, "c", "cat", 19768)]);
    let one = fetch_growth_accounting(&store, &Scope::Repository(1));
    assert_eq!(one.mau_growth_accounting.len(), 2);
    assert_eq!(one.mau_growth_accounting[0].mau, 1);
    let both = fetch_growth_accounting(&store, &Scope::Collection(vec![1, 2]));
    assert_eq!(both.mau_growth_accounting[1].mau, 1);
    assert_eq!(both.mau_growth_accounting[1].new, 1);
    assert_eq!(both.mau_growth_accounting[1].churned, -1);
    assert_eq!(both.ltv_cumulative_cohort.len(), 2);
    let none = fetch_growth_accounting(&store, &Scope::Collection(vec![]));
    assert!(none.mau_growth_accounting.is_empty());
    assert!(none.mrr_growth_accounting.is_empty());
    assert!(none.ltv_cumulative_cohort.is_empty());
    assert_eq!(scope_repositories(&Scope::Repository(9)), vec![9]);
}

#[test]
fn empty_repository_yields_empty_results() {
    let store = CommitStore::new();
    let r = fetch_growth_accounting(&store, &Scope::Repository(1));
    assert!(r.mau_growth_accounting.is_empty());
    assert!(r.mrr_growth_accounting.is_empty());
    assert!(r.ltv_cumulative_cohort.is_empty());
}

#[test]
fn queue_is_first_in_first_out_and_collapses_repeats() {
    let job = |id: i32| Job { repository_id: id, owner: "o".into(), name: format!("r{}", id), github_token: "t".into() };
    let mut q = JobQueue::new();
    assert!(q.push(job(1)));
    assert!(q.push(job(2)));
    assert!(!q.push(job(1)));
    assert_eq!(q.len(), 2);
    assert_eq!(q.pop().map(|j| j.repository_id), Some(1));
    assert!(q.push(job(1)));
    assert_eq!(q.pop().map(|j| j.repository_id), Some(2));
    assert_eq!(q.pop().map(|j| j.repository_id), Some(1));
    assert!(q.pop().is_none());
}
