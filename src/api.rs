use vstd::prelude::*;

verus! {

/// Errors that the service reports to its callers, each with a message.
#[derive(Clone, Debug)]
pub enum AppError {
    Database(String),
    Migration(String),
    GitHub(String),
    Configuration(String),
    Environment(String),
    BadRequest(String),
    Unauthorized(String),
    Session(String),
    NotFound(String),
    InternalServerError(String),
}

/// The HTTP status that an error is reported with.
pub open spec fn status_of(e: AppError) -> u16 {
    match e {
        AppError::GitHub(_) => 502,
        AppError::BadRequest(_) => 400,
        AppError::Unauthorized(_) => 401,
        AppError::NotFound(_) => 404,
        _ => 500,
    }
}

impl AppError {
    /// The HTTP status of the error: a bad gateway for the source, 400, 401
    /// and 404 for the request's own faults, 500 for the rest.
    pub fn status_code(&self) -> (r: u16)
        ensures
            r == status_of(*self),
    {
        match self {
            AppError::Database(_) => 500,
            AppError::Migration(_) => 500,
            AppError::GitHub(_) => 502,
            AppError::Configuration(_) => 500,
            AppError::Environment(_) => 500,
            AppError::BadRequest(_) => 400,
            AppError::Unauthorized(_) => 401,
            AppError::Session(_) => 500,
            AppError::InternalServerError(_) => 500,
            AppError::NotFound(_) => 404,
        }
    }
}

/// The claims of a session token.
#[derive(Clone, Debug)]
pub struct Claims {
    pub name: String,
    pub email: String,
    pub exp: u64,
    pub iat: u64,
    pub id: i64,
    pub access_token: String,
    pub db_id: Option<i32>,
}

impl Claims {
    /// A token has expired once its expiry lies before `now` (seconds since
    /// 1970-01-01T00:00:00Z).
    pub fn is_expired(&self, now: u64) -> (r: bool)
        ensures
            r == (self.exp < now),
    {
        self.exp < now
    }

    /// The account of the session; a session without one is not
    /// authenticated.
    pub fn account_id(&self) -> (r: Result<i32, AppError>)
        ensures
            self.db_id matches Some(id) ==> r == Ok::<i32, AppError>(id),
            self.db_id is None ==> r matches Err(AppError::Unauthorized(_)),
    {
        match self.db_id {
            Some(id) => Ok(id),
            None => Err(AppError::Unauthorized(String::from_str("User not authenticated"))),
        }
    }
}

/// What a user's profile shows.
#[derive(Clone, Debug)]
pub struct ProfileData {
    pub github_id: String,
    pub name: String,
    pub email: String,
}

/// A new collection as requested.
#[derive(Clone, Debug)]
pub struct CreateCollection {
    pub name: String,
    pub description: Option<String>,
}

/// Changes to a collection; a missing field is left as it is.
#[derive(Clone, Debug)]
pub struct UpdateCollection {
    pub name: Option<String>,
    pub description: Option<String>,
}

/// What `str::to_lowercase` gives for a text.
pub uninterp spec fn lower_of(s: Seq<char>) -> Seq<char>;

/// Relies on `str::to_lowercase`: the lowercase form of a text, which
/// depends on its characters alone.
#[verifier::external_body]
fn lowercase(s: &str) -> (r: String)
    ensures
        r@ == lower_of(s@),
{
    s.to_lowercase()
}

/// Whether a lowercased collection name is the reserved one.
pub fn is_reserved_collection_name(lowered: &str) -> (r: bool)
    ensures
        r == (lowered@ == "default"@),
{
    let reserved = String::from_str("default");
    let given = lowered.to_string();
    given == reserved
}

impl CreateCollection {
    /// A new collection may not take the name of the default collection,
    /// in any letter case.
    pub fn validate(&self) -> (r: Result<(), AppError>)
        ensures
            lower_of(self.name@) == "default"@ ==> r matches Err(AppError::BadRequest(_)),
            lower_of(self.name@) != "default"@ ==> r is Ok,
    {
        let lowered = lowercase(self.name.as_str());
        if is_reserved_collection_name(lowered.as_str()) {
            Err(AppError::BadRequest(String::from_str("Cannot create a new default collection")))
        } else {
            Ok(())
        }
    }
}

/// What a request may do with a collection.
#[derive(Clone, Copy, Debug, PartialEq, Eq, Structural)]
pub enum CollectionAccess {
    /// No such collection.
    NotFound,
    /// The collection belongs to another account.
    Forbidden,
    /// The default collection cannot be changed or deleted.
    DefaultLocked,
    Allowed,
}

/// Decides a request on a collection, given its owner and whether it is the
/// default collection (if it exists), the requesting account, and whether
/// the request changes or deletes it.
pub fn check_collection_access(found: Option<(i32, bool)>, account_id: i32, modifies: bool) -> (r: CollectionAccess)
    ensures
        r == match found {
            None => CollectionAccess::NotFound,
            Some((owner, is_default)) => if owner != account_id {
                CollectionAccess::Forbidden
            } else if modifies && is_default {
                CollectionAccess::DefaultLocked
            } else {
                CollectionAccess::Allowed
            },
        },
{
    match found {
        None => CollectionAccess::NotFound,
        Some((owner, is_default)) => {
            if owner != account_id {
                CollectionAccess::Forbidden
            } else if modifies && is_default {
                CollectionAccess::DefaultLocked
            } else {
                CollectionAccess::Allowed
            }
        },
    }
}

/// A repository to track, by id or by owner and name.
#[derive(Clone, Debug)]
pub struct NewRepository {
    pub id: Option<i32>,
    pub name: String,
    pub owner: String,
}

/// A request to add a repository to a collection.
#[derive(Clone, Debug)]
pub enum AddRepositoryToCollectionRequest {
    ById { repository_id: i32 },
    ByNameAndOwner { name: String, owner: String },
}

impl AddRepositoryToCollectionRequest {
    /// The repository the request names.
    pub fn into_new_repository(self) -> (r: NewRepository)
        ensures
            match self {
                AddRepositoryToCollectionRequest::ById { repository_id } => r.id == Some(repository_id)
                    && r.name@.len() == 0 && r.owner@.len() == 0,
                AddRepositoryToCollectionRequest::ByNameAndOwner { name, owner } => r.id is None
                    && r.name == name && r.owner == owner,
            },
    {
        match self {
            AddRepositoryToCollectionRequest::ById { repository_id } => NewRepository {
                id: Some(repository_id),
                name: String::new(),
                owner: String::new(),
            },
            AddRepositoryToCollectionRequest::ByNameAndOwner { name, owner } => NewRepository {
                id: None,
                name,
                owner,
            },
        }
    }
}

/// A repository as the source lists it.
#[derive(Clone, Debug)]
pub struct GithubRepo {
    pub id: u64,
    pub name: String,
    pub owner: String,
    pub html_url: String,
    pub description: Option<String>,
    pub stargazers_count: Option<u32>,
}

/// The low byte of a number, as a cast to `u8` keeps it.
pub open spec fn low_byte(x: int) -> int {
    x % 256
}

/// The page and page size sent to the source: 1 and 10 when not given,
/// each cut to its low byte.
pub fn source_page_params(page: Option<i64>, page_size: Option<i64>) -> (r: (u8, u8))
    ensures
        r.0 as int == low_byte(match page { Some(p) => p as int, None => 1 }),
        r.1 as int == low_byte(match page_size { Some(s) => s as int, None => 10 }),
{
    let p = match page {
        Some(p) => p,
        None => 1,
    };
    let s = match page_size {
        Some(s) => s,
        None => 10,
    };
    (low_byte_of(p), low_byte_of(s))
}

fn low_byte_of(x: i64) -> (r: u8)
    ensures
        r as int == low_byte(x as int),
{
    let m = x % 256;
    if m < 0 {
        (m + 256) as u8
    } else {
        m as u8
    }
}

/// Paging of the starred repositories.
#[derive(Clone, Debug)]
pub struct StarredReposQuery {
    pub page: Option<i64>,
    pub page_size: Option<i64>,
}

/// Paging of an organisation's repositories.
#[derive(Clone, Debug)]
pub struct OrgReposQuery {
    pub page: Option<i64>,
    pub page_size: Option<i64>,
}

/// A repository search and its paging.
#[derive(Clone, Debug)]
pub struct SearchQuery {
    pub q: String,
    pub page: Option<i64>,
    pub page_size: Option<i64>,
}

impl StarredReposQuery {
    pub fn page_params(&self) -> (r: (u8, u8))
        ensures
            r.0 as int == low_byte(match self.page { Some(p) => p as int, None => 1 }),
            r.1 as int == low_byte(match self.page_size { Some(s) => s as int, None => 10 }),
    {
        source_page_params(self.page, self.page_size)
    }
}

impl OrgReposQuery {
    pub fn page_params(&self) -> (r: (u8, u8))
        ensures
            r.0 as int == low_byte(match self.page { Some(p) => p as int, None => 1 }),
            r.1 as int == low_byte(match self.page_size { Some(s) => s as int, None => 10 }),
    {
        source_page_params(self.page, self.page_size)
    }
}

impl SearchQuery {
    pub fn page_params(&self) -> (r: (u8, u8))
        ensures
            r.0 as int == low_byte(match self.page { Some(p) => p as int, None => 1 }),
            r.1 as int == low_byte(match self.page_size { Some(s) => s as int, None => 10 }),
    {
        source_page_params(self.page, self.page_size)
    }
}

/// Paging of the tracked repositories.
#[derive(Clone, Debug)]
pub struct RepositoryListQuery {
    pub page: Option<i64>,
    pub page_size: Option<i64>,
}

impl RepositoryListQuery {
    /// The page (1 when not given), the page size (10 when not given) and
    /// the number of rows to skip, `(page - 1) * page_size`; a request
    /// whose offset does not fit is refused.
    pub fn window(&self) -> (r: Result<(i64, i64, i64), AppError>)
        ensures
            ({
                let p = match self.page { Some(p) => p as int, None => 1 };
                let s = match self.page_size { Some(s) => s as int, None => 10 };
                let o = (p - 1) * s;
                &&& (i64::MIN <= p - 1 && i64::MIN <= o <= i64::MAX) ==> r == Ok::<(i64, i64, i64), AppError>(
                    (p as i64, s as i64, o as i64),
                )
                &&& !(i64::MIN <= p - 1 && i64::MIN <= o <= i64::MAX) ==> r matches Err(AppError::BadRequest(_))
            }),
    {
        let page = match self.page {
            Some(p) => p,
            None => 1,
        };
        let page_size = match self.page_size {
            Some(s) => s,
            None => 10,
        };
        let before = page.checked_sub(1);
        match before {
            Some(b) => match b.checked_mul(page_size) {
                Some(offset) => Ok((page, page_size, offset)),
                None => Err(AppError::BadRequest(String::from_str("Page out of range"))),
            },
            None => Err(AppError::BadRequest(String::from_str("Page out of range"))),
        }
    }
}

/// One page of a listing, with the totals.
#[derive(Clone, Debug)]
pub struct PaginatedResponse<T> {
    pub data: Vec<T>,
    pub total: i64,
    pub page: i64,
    pub page_size: i64,
    pub total_pages: i64,
}

/// The number of pages that hold `total` rows, `page_size` to a page.
pub open spec fn pages_for(total: int, page_size: int) -> int {
    (total + page_size - 1) / page_size
}

impl<T> PaginatedResponse<T> {
    /// A page of a listing of `total` rows, with the number of pages that
    /// hold them.
    pub fn new(data: Vec<T>, total: i64, page: i64, page_size: i64) -> (r: Self)
        requires
            total >= 0,
            page_size > 0,
        ensures
            r.data == data,
            r.total == total,
            r.page == page,
            r.page_size == page_size,
            r.total_pages == pages_for(total as int, page_size as int),
    {
        let whole = total / page_size;
        let total_pages = if total % page_size == 0 {
            whole
        } else {
            assert(whole < i64::MAX) by (nonlinear_arith)
                requires
                    total >= 0,
                    page_size > 0,
                    whole as int == total as int / page_size as int,
                    total as int % page_size as int != 0,
            ;
            whole + 1
        };
        assert(total_pages == pages_for(total as int, page_size as int)) by (nonlinear_arith)
            requires
                total >= 0,
                page_size > 0,
                whole as int == total as int / page_size as int,
                total_pages as int == if total as int % page_size as int == 0 { whole as int } else { whole as int + 1 },
        ;
        PaginatedResponse { data, total, page, page_size, total_pages }
    }
}

} // verus!
