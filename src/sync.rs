use crate::store::{commits_view, Commit, CommitView};
use vstd::prelude::*;

verus! {

/// How a failed page fetch is treated.
#[derive(Clone, Copy, Debug, PartialEq, Eq, Structural)]
pub enum FetchErrorKind {
    /// Rate limited: the same page is fetched again after a delay.
    Transient,
    /// Anything else: the sync stops.
    Permanent,
}

/// `n` occurs in `h` as a contiguous run.
pub open spec fn occurs_in(h: Seq<char>, n: Seq<char>) -> bool {
    exists|i: int| 0 <= i && i + n.len() <= h.len() && #[trigger] h.subrange(i, i + n.len()) == n
}

/// Whether `n` occurs in `h` starting at position `i`.
fn occurs_at(h: &str, hl: usize, n: &str, nl: usize, i: usize) -> (r: bool)
    requires
        hl == h@.len(),
        nl == n@.len(),
        i + nl <= hl,
    ensures
        r == (h@.subrange(i as int, i + nl) == n@),
{
    let mut k: usize = 0;
    while k < nl
        invariant
            hl == h@.len(),
            nl == n@.len(),
            i + nl <= hl,
            k <= nl,
            forall|j: int| 0 <= j < k ==> h@[i + j] == n@[j],
        decreases nl - k,
    {
        if h.get_char(i + k) != n.get_char(k) {
            assert(h@.subrange(i as int, i + nl)[k as int] != n@[k as int]);
            return false;
        }
        k += 1;
    }
    assert(h@.subrange(i as int, i + nl) =~= n@);
    true
}

/// Whether `n` occurs in `h`.
pub fn contains_text(h: &str, n: &str) -> (r: bool)
    ensures
        r == occurs_in(h@, n@),
{
    let hl = h.unicode_len();
    let nl = n.unicode_len();
    if nl > hl {
        return false;
    }
    if nl == 0 {
        assert(h@.subrange(0, 0 + n@.len() as int) =~= n@);
        assert(occurs_in(h@, n@));
        return true;
    }
    let mut i: usize = 0;
    while i <= hl - nl
        invariant
            hl == h@.len(),
            nl == n@.len(),
            0 < nl <= hl,
            i <= hl - nl + 1,
            forall|j: int| 0 <= j < i ==> #[trigger] h@.subrange(j, j + nl) != n@,
        decreases hl - nl + 1 - i,
    {
        if occurs_at(h, hl, n, nl, i) {
            return true;
        }
        i += 1;
    }
    false
}

/// The message by which the source reports a rate limit.
pub open spec fn rate_limit_signal() -> Seq<char> {
    "API rate limit exceeded"@
}

/// A fetch error is transient exactly when its message reports a rate limit.
pub fn classify_fetch_error(message: &str) -> (r: FetchErrorKind)
    ensures
        r == FetchErrorKind::Transient <==> occurs_in(message@, rate_limit_signal()),
{
    if contains_text(message, "API rate limit exceeded") {
        FetchErrorKind::Transient
    } else {
        FetchErrorKind::Permanent
    }
}

/// Largest delay a policy may name, so that a delay and its jitter fit.
pub const MAX_DELAY_MS: u64 = 0x4000_0000_0000_0000;

/// Exponential backoff: the first retry waits about `initial_delay_ms`, each
/// later one about twice the one before, never more than `max_delay_ms`
/// before jitter; at most `max_retries` retries of one page.
#[derive(Clone, Copy, Debug, PartialEq, Eq, Structural)]
pub struct BackoffPolicy {
    pub initial_delay_ms: u64,
    pub max_delay_ms: u64,
    pub max_retries: u32,
}

pub open spec fn min_int(a: int, b: int) -> int {
    if a <= b { a } else { b }
}

/// The delay before jitter of retry number `k` (counted from 0).
pub open spec fn base_delay(p: BackoffPolicy, k: nat) -> int
    decreases k,
{
    if k == 0 {
        min_int(p.initial_delay_ms as int, p.max_delay_ms as int)
    } else {
        min_int(2 * base_delay(p, (k - 1) as nat), p.max_delay_ms as int)
    }
}

/// The delay of retry `k`: its base delay plus up to half of it drawn from
/// `jitter`, and never less than the delay before it.
pub open spec fn retry_delay(p: BackoffPolicy, k: nat, previous: int, jitter: int) -> int {
    let b = base_delay(p, k);
    let d = b + jitter % (b / 2 + 1);
    if d < previous { previous } else { d }
}

impl BackoffPolicy {
    pub open spec fn wf(&self) -> bool {
        self.max_delay_ms <= MAX_DELAY_MS
    }

    /// Half a second at first, at most half a minute, ten retries.
    pub fn default_policy() -> (r: Self)
        ensures
            r.wf(),
            r.initial_delay_ms == 500,
            r.max_delay_ms == 30_000,
            r.max_retries == 10,
    {
        BackoffPolicy { initial_delay_ms: 500, max_delay_ms: 30_000, max_retries: 10 }
    }

    /// The delay before jitter of retry number `k`.
    pub fn base_delay_ms(&self, k: u32) -> (r: u64)
        requires
            self.wf(),
        ensures
            r as int == base_delay(*self, k as nat),
            r <= self.max_delay_ms,
    {
        let mut b: u64 = if self.initial_delay_ms <= self.max_delay_ms {
            self.initial_delay_ms
        } else {
            self.max_delay_ms
        };
        let mut i: u32 = 0;
        while i < k
            invariant
                i <= k,
                self.wf(),
                b as int == base_delay(*self, i as nat),
                b <= self.max_delay_ms,
            decreases k - i,
        {
            if b > self.max_delay_ms / 2 {
                b = self.max_delay_ms;
            } else {
                b = b * 2;
            }
            i += 1;
        }
        b
    }

    /// The delay of retry `k`, given the delay before it and a random draw.
    pub fn retry_delay_ms(&self, k: u32, previous: u64, jitter: u64) -> (r: u64)
        requires
            self.wf(),
        ensures
            r as int == retry_delay(*self, k as nat, previous as int, jitter as int),
            r >= previous,
    {
        let b = self.base_delay_ms(k);
        let d = b + jitter % (b / 2 + 1);
        if d < previous {
            previous
        } else {
            d
        }
    }
}

/// A commit as the source lists it; author and date may be missing.
#[derive(Clone, Debug)]
pub struct SourceCommit {
    pub revision_id: String,
    pub message: String,
    pub author_name: Option<String>,
    pub authored_at: Option<i64>,
}

/// What the worker does next.
#[derive(Clone, Copy, Debug, PartialEq, Eq, Structural)]
pub enum SyncStep {
    /// Fetch this page.
    Fetch { page: u32 },
    /// Wait, then fetch this page again.
    Wait { page: u32, delay_ms: u64 },
    /// The sync is complete.
    Done,
    /// The sync failed and is dropped.
    Abort,
}

/// The state of one sync of one repository.
#[derive(Clone, Copy, Debug, PartialEq, Eq, Structural)]
pub struct SyncSession {
    pub repository_id: i32,
    /// Latest authoring time stored before the sync began.
    pub watermark: Option<i64>,
    /// The page being fetched, from 1.
    pub page: u32,
    /// Retries of the current page so far.
    pub retries: u32,
    /// The delay before the last retry of the current page.
    pub last_delay_ms: u64,
    pub policy: BackoffPolicy,
}

/// A listed commit is new when no watermark exists or it is newer.
pub open spec fn is_newer(watermark: Option<i64>, date: int) -> bool {
    match watermark {
        None => true,
        Some(w) => date > w,
    }
}

/// The stored form of a listed commit: an unknown author is "Unknown", a
/// missing date is the time of the sync.
pub open spec fn stored_form(repository_id: i32, c: SourceCommit, now: i64) -> CommitView {
    CommitView {
        repository_id: repository_id as int,
        revision_id: c.revision_id@,
        message: c.message@,
        author_name: match c.author_name {
            Some(a) => a@,
            None => "Unknown"@,
        },
        authored_at: date_of(c, now),
    }
}

pub open spec fn date_of(c: SourceCommit, now: i64) -> int {
    match c.authored_at {
        Some(t) => t as int,
        None => now as int,
    }
}

/// The commits of a page that are newer than the watermark, in page order.
pub open spec fn new_commits(
    repository_id: i32,
    watermark: Option<i64>,
    items: Seq<SourceCommit>,
    now: i64,
) -> Seq<CommitView>
    decreases items.len(),
{
    if items.len() == 0 {
        seq![]
    } else {
        let pre = new_commits(repository_id, watermark, items.drop_last(), now);
        if is_newer(watermark, date_of(items.last(), now)) {
            pre.push(stored_form(repository_id, items.last(), now))
        } else {
            pre
        }
    }
}

/// The outcome of a fetched page: the commits to store, and the next step.
#[derive(Debug)]
pub struct PageOutcome {
    pub to_store: Vec<Commit>,
    pub next: SyncStep,
}

impl SyncSession {
    pub open spec fn wf(&self) -> bool {
        self.policy.wf() && self.page >= 1
    }

    /// A sync that starts at page 1 of the repository's history, newest
    /// first, storing only commits newer than `watermark`.
    pub fn start(repository_id: i32, watermark: Option<i64>, policy: BackoffPolicy) -> (r: (Self, SyncStep))
        requires
            policy.wf(),
        ensures
            r.0.wf(),
            r.0.repository_id == repository_id,
            r.0.watermark == watermark,
            r.0.page == 1,
            r.0.retries == 0,
            r.0.last_delay_ms == 0,
            r.0.policy == policy,
            r.1 == (SyncStep::Fetch { page: 1 }),
    {
        (SyncSession { repository_id, watermark, page: 1, retries: 0, last_delay_ms: 0, policy }, SyncStep::Fetch { page: 1 })
    }

    /// A fetch failed with `message`. A rate limit is retried after a delay
    /// while retries remain; anything else, or one retry too many, aborts.
    pub fn on_error(&mut self, message: &str, jitter: u64) -> (step: SyncStep)
        requires
            old(self).wf(),
        ensures
            final(self).wf(),
            ({
                let s = *old(self);
                if occurs_in(message@, rate_limit_signal()) && s.retries < s.policy.max_retries {
                    let d = retry_delay(s.policy, s.retries as nat, s.last_delay_ms as int, jitter as int);
                    &&& step == (SyncStep::Wait { page: s.page, delay_ms: d as u64 })
                    &&& *final(self) == (SyncSession { retries: (s.retries + 1) as u32, last_delay_ms: d as u64, ..s })
                } else {
                    &&& step == SyncStep::Abort
                    &&& *final(self) == s
                }
            }),
            step matches SyncStep::Wait { delay_ms, .. } ==> delay_ms >= old(self).last_delay_ms,
    {
        match classify_fetch_error(message) {
            FetchErrorKind::Transient => {
                if self.retries < self.policy.max_retries {
                    let d = self.policy.retry_delay_ms(self.retries, self.last_delay_ms, jitter);
                    self.retries = self.retries + 1;
                    self.last_delay_ms = d;
                    SyncStep::Wait { page: self.page, delay_ms: d }
                } else {
                    SyncStep::Abort
                }
            },
            FetchErrorKind::Permanent => SyncStep::Abort,
        }
    }

    /// A page arrived. Its commits newer than the watermark are handed out
    /// to be stored; the sync goes on to the next page while the source has
    /// one and this page held a new commit (pages come newest first).
    pub fn on_page(&mut self, items: Vec<SourceCommit>, has_next: bool, now: i64) -> (r: PageOutcome)
        requires
            old(self).wf(),
        ensures
            final(self).wf(),
            commits_view(r.to_store@) == new_commits(old(self).repository_id, old(self).watermark, items@, now),
            ({
                let s = *old(self);
                if has_next && r.to_store@.len() > 0 && s.page < u32::MAX {
                    &&& r.next == (SyncStep::Fetch { page: (s.page + 1) as u32 })
                    &&& *final(self) == (SyncSession { page: (s.page + 1) as u32, retries: 0, last_delay_ms: 0, ..s })
                } else {
                    &&& r.next == SyncStep::Done
                    &&& *final(self) == (SyncSession { retries: 0, last_delay_ms: 0, ..s })
                }
            }),
    {
        let ghost all = items@;
        let mut items = items;
        let mut to_store: Vec<Commit> = Vec::new();
        let n = items.len();
        let mut i: usize = 0;
        while i < n
            invariant
                n == all.len(),
                i <= n,
                items@ == all.subrange(i as int, n as int),
                commits_view(to_store@) == new_commits(self.repository_id, self.watermark, all.take(i as int), now),
            decreases n - i,
        {
            assert(all.take(i as int + 1).drop_last() =~= all.take(i as int));
            assert(items@[0] == all[i as int]);
            let c = items.remove(0);
            assert(items@ =~= all.subrange(i as int + 1, n as int));
            let date = match c.authored_at {
                Some(t) => t,
                None => now,
            };
            let newer = match self.watermark {
                None => true,
                Some(w) => date > w,
            };
            if newer {
                let author = match c.author_name {
                    Some(a) => a,
                    None => String::from_str("Unknown"),
                };
                let ghost before = to_store@;
                to_store.push(Commit {
                    repository_id: self.repository_id,
                    revision_id: c.revision_id,
                    message: c.message,
                    author_name: author,
                    authored_at: date,
                });
                assert(commits_view(to_store@) =~= commits_view(before).push(to_store@.last()@));
            }
            i += 1;
        }
        assert(all.take(n as int) =~= all);
        self.retries = 0;
        self.last_delay_ms = 0;
        if has_next && to_store.len() > 0 && self.page < u32::MAX {
            self.page = self.page + 1;
            PageOutcome { to_store, next: SyncStep::Fetch { page: self.page } }
        } else {
            PageOutcome { to_store, next: SyncStep::Done }
        }
    }
}

} // verus!
