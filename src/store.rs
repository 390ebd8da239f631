use crate::activity::{events_valid, ActivityEvent, MAX_EVENTS};
use crate::calendar::{day_in_range, MAX_EPOCH_DAY, MIN_EPOCH_DAY};
use vstd::prelude::*;

verus! {

/// Seconds in a day.
pub const SECONDS_PER_DAY: i64 = 86_400;

/// A commit as stored: its repository, its revision id (unique within the
/// repository), its message, its author and when it was authored, in
/// seconds since 1970-01-01T00:00:00Z.
#[derive(Clone, Debug)]
pub struct Commit {
    pub repository_id: i32,
    pub revision_id: String,
    pub message: String,
    pub author_name: String,
    pub authored_at: i64,
}

/// A commit as plain values.
pub struct CommitView {
    pub repository_id: int,
    pub revision_id: Seq<char>,
    pub message: Seq<char>,
    pub author_name: Seq<char>,
    pub authored_at: int,
}

impl View for Commit {
    type V = CommitView;

    open spec fn view(&self) -> CommitView {
        CommitView {
            repository_id: self.repository_id as int,
            revision_id: self.revision_id@,
            message: self.message@,
            author_name: self.author_name@,
            authored_at: self.authored_at as int,
        }
    }
}

pub open spec fn commits_view(s: Seq<Commit>) -> Seq<CommitView> {
    s.map_values(|c: Commit| c@)
}

/// The day (counted from 1970-01-01) that holds a timestamp.
pub open spec fn day_of(ts: int) -> int {
    ts / SECONDS_PER_DAY as int
}

/// The commit's day lies in the range the calendar covers.
pub open spec fn timestamp_ok(c: Commit) -> bool {
    day_in_range(day_of(c.authored_at as int))
}

/// The key that makes a commit unique in the store.
pub open spec fn key_of(c: Commit) -> (int, Seq<char>) {
    (c.repository_id as int, c.revision_id@)
}

pub open spec fn holds_key(s: Seq<Commit>, k: (int, Seq<char>)) -> bool {
    exists|i: int| 0 <= i < s.len() && #[trigger] key_of(s[i]) == k
}

/// Insertion that ignores a commit whose key is already stored, and one
/// whose timestamp the calendar does not cover.
pub open spec fn insert_spec(s: Seq<Commit>, c: Commit) -> Seq<Commit> {
    if holds_key(s, key_of(c)) || !timestamp_ok(c) {
        s
    } else {
        s.push(c)
    }
}

/// Inserting each commit of a batch in turn.
pub open spec fn ingest_spec(s: Seq<Commit>, b: Seq<Commit>) -> Seq<Commit>
    decreases b.len(),
{
    if b.len() == 0 {
        s
    } else {
        insert_spec(ingest_spec(s, b.drop_last()), b.last())
    }
}

/// Keys are unique and every timestamp is covered.
pub open spec fn store_wf(s: Seq<Commit>) -> bool {
    &&& forall|i: int, j: int| 0 <= i < j < s.len() ==> key_of(s[i]) != key_of(s[j])
    &&& forall|i: int| 0 <= i < s.len() ==> timestamp_ok(#[trigger] s[i])
}

/// The activity event of a commit: its author, its day, an amount of one.
pub open spec fn commit_event(c: Commit) -> ActivityEvent {
    ActivityEvent { user_id: c.author_name, day: day_of(c.authored_at as int) as i32, amount: 1 }
}

/// The events of the commits whose repository is in scope, in store order.
pub open spec fn activity_spec(s: Seq<Commit>, scope: Seq<i32>) -> Seq<ActivityEvent>
    decreases s.len(),
{
    if s.len() == 0 {
        seq![]
    } else if scope.contains(s.last().repository_id) {
        activity_spec(s.drop_last(), scope).push(commit_event(s.last()))
    } else {
        activity_spec(s.drop_last(), scope)
    }
}

/// An in-memory table of commits with a unique key on
/// (repository, revision id).
pub struct CommitStore {
    commits: Vec<Commit>,
}

impl View for CommitStore {
    type V = Seq<Commit>;

    closed spec fn view(&self) -> Seq<Commit> {
        self.commits@
    }
}

proof fn lemma_insert_keeps(s: Seq<Commit>, c: Commit, k: (int, Seq<char>))
    ensures
        holds_key(s, k) ==> holds_key(insert_spec(s, c), k),
        timestamp_ok(c) ==> holds_key(insert_spec(s, c), key_of(c)),
{
    let t = insert_spec(s, c);
    if holds_key(s, k) {
        let i = choose|i: int| 0 <= i < s.len() && #[trigger] key_of(s[i]) == k;
        assert(t[i] == s[i]);
    }
    if timestamp_ok(c) && !holds_key(s, key_of(c)) {
        assert(key_of(t[s.len() as int]) == key_of(c));
    }
}

/// Ingesting keeps every stored key and stores the key of every covered
/// commit of the batch.
proof fn lemma_ingest_holds(s: Seq<Commit>, b: Seq<Commit>)
    ensures
        forall|k: (int, Seq<char>)| holds_key(s, k) ==> #[trigger] holds_key(ingest_spec(s, b), k),
        forall|i: int|
            0 <= i < b.len() && timestamp_ok(#[trigger] b[i]) ==> holds_key(ingest_spec(s, b), key_of(b[i])),
    decreases b.len(),
{
    if b.len() > 0 {
        let pre = b.drop_last();
        lemma_ingest_holds(s, pre);
        let mid = ingest_spec(s, pre);
        assert forall|k: (int, Seq<char>)| holds_key(s, k) implies #[trigger] holds_key(ingest_spec(s, b), k) by {
            lemma_insert_keeps(mid, b.last(), k);
        }
        assert forall|i: int| 0 <= i < b.len() && timestamp_ok(#[trigger] b[i]) implies holds_key(
            ingest_spec(s, b),
            key_of(b[i]),
        ) by {
            lemma_insert_keeps(mid, b.last(), key_of(b[i]));
            if i < pre.len() {
                assert(pre[i] == b[i]);
            }
        }
    }
}

/// A batch whose commits are all stored already, or not covered, changes
/// nothing.
proof fn lemma_ingest_nothing_new(s: Seq<Commit>, b: Seq<Commit>)
    requires
        forall|i: int| 0 <= i < b.len() ==> holds_key(s, key_of(#[trigger] b[i])) || !timestamp_ok(b[i]),
    ensures
        ingest_spec(s, b) == s,
    decreases b.len(),
{
    if b.len() > 0 {
        let pre = b.drop_last();
        assert forall|i: int| 0 <= i < pre.len() implies holds_key(s, key_of(#[trigger] pre[i])) || !timestamp_ok(pre[i]) by {
            assert(pre[i] == b[i]);
        }
        lemma_ingest_nothing_new(s, pre);
        assert(holds_key(s, key_of(b[b.len() - 1])) || !timestamp_ok(b[b.len() - 1]));
    }
}

/// Ingestion is idempotent: once a batch is ingested, ingesting it again,
/// or any batch whose keys it already held (a later sync of the same
/// source, where a missing date may have been filled in differently),
/// leaves the store as it is, and so leaves the commit count unchanged.
pub proof fn lemma_ingest_idempotent(s: Seq<Commit>, first: Seq<Commit>, again: Seq<Commit>)
    requires
        forall|i: int|
            0 <= i < again.len() ==> exists|j: int|
                0 <= j < first.len() && #[trigger] key_of(first[j]) == key_of(#[trigger] again[i])
                    && (timestamp_ok(first[j]) || !timestamp_ok(again[i])),
    ensures
        ingest_spec(ingest_spec(s, first), again) == ingest_spec(s, first),
        ingest_spec(ingest_spec(s, first), again).len() == ingest_spec(s, first).len(),
{
    let once = ingest_spec(s, first);
    lemma_ingest_holds(s, first);
    assert forall|i: int| 0 <= i < again.len() implies holds_key(once, key_of(#[trigger] again[i])) || !timestamp_ok(again[i]) by {
        let j = choose|j: int|
            0 <= j < first.len() && #[trigger] key_of(first[j]) == key_of(again[i])
                && (timestamp_ok(first[j]) || !timestamp_ok(again[i]));
        if timestamp_ok(first[j]) {
            assert(holds_key(once, key_of(first[j])));
        }
    }
    lemma_ingest_nothing_new(once, again);
}

/// Ingesting the same batch twice stores it once.
pub proof fn lemma_ingest_twice(s: Seq<Commit>, batch: Seq<Commit>)
    ensures
        ingest_spec(ingest_spec(s, batch), batch) == ingest_spec(s, batch),
{
    let once = ingest_spec(s, batch);
    lemma_ingest_holds(s, batch);
    assert forall|i: int| 0 <= i < batch.len() implies holds_key(once, key_of(#[trigger] batch[i])) || !timestamp_ok(batch[i]) by {}
    lemma_ingest_nothing_new(once, batch);
}

/// The day that holds a timestamp.
pub fn day_of_timestamp(ts: i64) -> (r: i64)
    ensures
        r as int == day_of(ts as int),
{
    let q = ts / SECONDS_PER_DAY;
    if ts % SECONDS_PER_DAY < 0 {
        q - 1
    } else {
        q
    }
}

/// Whether a repository id is in scope.
fn in_scope(scope: &Vec<i32>, repository_id: i32) -> (r: bool)
    ensures
        r == scope@.contains(repository_id),
{
    let mut k: usize = 0;
    while k < scope.len()
        invariant
            k <= scope@.len(),
            forall|j: int| 0 <= j < k ==> scope@[j] != repository_id,
        decreases scope@.len() - k,
    {
        if scope[k] == repository_id {
            return true;
        }
        k += 1;
    }
    false
}

impl CommitStore {
    pub open spec fn wf(&self) -> bool {
        store_wf(self@)
    }

    /// An empty store.
    pub fn new() -> (r: Self)
        ensures
            r@ == Seq::<Commit>::empty(),
            r.wf(),
    {
        CommitStore { commits: Vec::new() }
    }

    /// Number of stored commits.
    pub fn len(&self) -> (r: usize)
        ensures
            r == self@.len(),
    {
        self.commits.len()
    }

    /// Whether a commit with this key is stored.
    fn holds(&self, repository_id: i32, revision_id: &String) -> (r: bool)
        ensures
            r == holds_key(self@, (repository_id as int, revision_id@)),
    {
        let mut k: usize = 0;
        while k < self.commits.len()
            invariant
                k <= self@.len(),
                forall|j: int| 0 <= j < k ==> #[trigger] key_of(self@[j]) != (repository_id as int, revision_id@),
            decreases self@.len() - k,
        {
            if self.commits[k].repository_id == repository_id && self.commits[k].revision_id == *revision_id {
                assert(key_of(self@[k as int]) == (repository_id as int, revision_id@));
                return true;
            }
            k += 1;
        }
        false
    }

    /// Stores a commit unless its key is stored already or its timestamp
    /// lies outside the calendar's range; says whether it was stored.
    pub fn insert(&mut self, c: Commit) -> (r: bool)
        requires
            old(self).wf(),
        ensures
            final(self).wf(),
            final(self)@ == insert_spec(old(self)@, c),
            r == (final(self)@.len() == old(self)@.len() + 1),
    {
        let day = day_of_timestamp(c.authored_at);
        if day < MIN_EPOCH_DAY as i64 || day > MAX_EPOCH_DAY as i64 {
            return false;
        }
        if self.holds(c.repository_id, &c.revision_id) {
            return false;
        }
        let ghost old_s = self@;
        self.commits.push(c);
        assert forall|i: int, j: int| 0 <= i < j < self@.len() implies key_of(self@[i]) != key_of(self@[j]) by {
            if j == old_s.len() {
                assert(self@[i] == old_s[i]);
            } else {
                assert(self@[i] == old_s[i] && self@[j] == old_s[j]);
            }
        }
        assert forall|i: int| 0 <= i < self@.len() implies timestamp_ok(#[trigger] self@[i]) by {
            if i < old_s.len() {
                assert(self@[i] == old_s[i]);
            }
        }
        true
    }

    /// Inserts each commit of a batch in turn; returns how many were new.
    pub fn ingest(&mut self, batch: Vec<Commit>) -> (r: usize)
        requires
            old(self).wf(),
        ensures
            final(self).wf(),
            final(self)@ == ingest_spec(old(self)@, batch@),
            r == final(self)@.len() - old(self)@.len(),
    {
        let ghost start = self@;
        let ghost b = batch@;
        let mut batch = batch;
        let start_len = self.commits.len();
        let mut i: usize = 0;
        let n = batch.len();
        while i < n
            invariant
                n == b.len(),
                i <= n,
                self.wf(),
                self@ == ingest_spec(start, b.take(i as int)),
                self@.len() >= start.len(),
                start_len == start.len(),
                batch@ == b.subrange(i as int, n as int),
            decreases n - i,
        {
            assert(b.take(i as int + 1).drop_last() =~= b.take(i as int));
            assert(batch@[0] == b[i as int]);
            let c = batch.remove(0);
            assert(batch@ =~= b.subrange(i as int + 1, n as int));
            self.insert(c);
            i += 1;
        }
        assert(b.take(n as int) =~= b);
        self.commits.len() - start_len
    }

    /// The latest authoring time stored for a repository, if any.
    pub fn watermark(&self, repository_id: i32) -> (r: Option<i64>)
        ensures
            r is None <==> forall|i: int| 0 <= i < self@.len() ==> #[trigger] self@[i].repository_id != repository_id,
            r matches Some(w) ==> exists|i: int|
                0 <= i < self@.len() && #[trigger] self@[i].repository_id == repository_id && self@[i].authored_at == w,
            r matches Some(w) ==> forall|i: int|
                0 <= i < self@.len() && #[trigger] self@[i].repository_id == repository_id ==> self@[i].authored_at <= w,
    {
        let mut r: Option<i64> = None;
        let mut k: usize = 0;
        while k < self.commits.len()
            invariant
                k <= self@.len(),
                r is None <==> forall|i: int| 0 <= i < k ==> #[trigger] self@[i].repository_id != repository_id,
                r matches Some(w) ==> exists|i: int|
                    0 <= i < k && #[trigger] self@[i].repository_id == repository_id && self@[i].authored_at == w,
                r matches Some(w) ==> forall|i: int|
                    0 <= i < k && #[trigger] self@[i].repository_id == repository_id ==> self@[i].authored_at <= w,
            decreases self@.len() - k,
        {
            let c = &self.commits[k];
            if c.repository_id == repository_id {
                match r {
                    None => {
                        r = Some(c.authored_at);
                    },
                    Some(w) => {
                        if c.authored_at > w {
                            r = Some(c.authored_at);
                        }
                    },
                }
            }
            k += 1;
        }
        r
    }

    /// The activity events of the commits whose repository is in scope.
    pub fn activity(&self, scope: &Vec<i32>) -> (evs: Vec<ActivityEvent>)
        requires
            self.wf(),
            self@.len() <= MAX_EVENTS,
        ensures
            evs@ == activity_spec(self@, scope@),
            events_valid(evs@),
    {
        let mut evs: Vec<ActivityEvent> = Vec::new();
        let mut k: usize = 0;
        while k < self.commits.len()
            invariant
                k <= self@.len(),
                self.wf(),
                self@.len() <= MAX_EVENTS,
                evs@ == activity_spec(self@.take(k as int), scope@),
                evs@.len() <= k,
                forall|i: int| 0 <= i < evs@.len() ==> day_in_range(#[trigger] evs@[i].day as int),
            decreases self@.len() - k,
        {
            let ghost pre = self@.take(k as int);
            assert(self@.take(k as int + 1).drop_last() =~= pre);
            assert(self@.take(k as int + 1).last() == self@[k as int]);
            let c = &self.commits[k];
            if in_scope(scope, c.repository_id) {
                assert(timestamp_ok(self@[k as int]));
                let day = day_of_timestamp(c.authored_at);
                let e = ActivityEvent { user_id: c.author_name.clone(), day: day as i32, amount: 1 };
                evs.push(e);
            }
            k += 1;
        }
        assert(self@.take(self@.len() as int) =~= self@);
        evs
    }
}

} // verus!
