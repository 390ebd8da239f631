//! Repository activity ingestion and growth accounting.
//!
//! The library holds the verified core of a commit-analytics service:
//! calendar periods, the growth-accounting engine (monthly active users,
//! revenue-style decomposition, cumulative cohort value), the commit store
//! with idempotent ingestion, the decisions of a paginated sync with
//! bounded backoff, and the job queue that feeds the sync worker.

mod activity;
mod api;
mod calendar;
mod cohort;
mod growth;
mod job_queue;
mod paging;
mod periods;
mod report;
mod revenue;
mod store;
mod sync;

pub use api::{
    check_collection_access, is_reserved_collection_name, source_page_params,
    AddRepositoryToCollectionRequest, AppError, Claims, CollectionAccess, CreateCollection,
    GithubRepo, NewRepository, OrgReposQuery, PaginatedResponse, ProfileData, RepositoryListQuery,
    SearchQuery, StarredReposQuery, UpdateCollection,
};
pub use activity::{distinct_users, roll_up, ActivityEvent, PeriodActivity, MAX_EVENTS};
pub use calendar::{month_index, period_of_day, Granularity, MAX_EPOCH_DAY, MIN_EPOCH_DAY};
pub use cohort::{ltv_by_period, ltv_cohorts_cumulative, ratio_of, LTVCohortsCumulativeResult, Ratio};
pub use growth::{mau_by_period, mau_growth_accounting, MAUGrowthAccountingResult};
pub use job_queue::{Job, JobQueue};
pub use paging::{calculate_total_pages, page_param_of};
pub use report::{
    fetch_growth_accounting, growth_accounting_query, scope_repositories, GrowthAccountingResult,
    Scope,
};
pub use revenue::{mrr_by_period, mrr_growth_accounting, MRRGrowthAccountingResult};
pub use store::{day_of_timestamp, Commit, CommitStore, SECONDS_PER_DAY};
pub use sync::{
    classify_fetch_error, contains_text, BackoffPolicy, FetchErrorKind, PageOutcome,
    SourceCommit, SyncSession, SyncStep,
};
