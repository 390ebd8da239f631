use repo_growth::{
    calculate_total_pages, page_param_of, check_collection_access, is_reserved_collection_name, source_page_params,
    AddRepositoryToCollectionRequest, AppError, Claims, CollectionAccess, CreateCollection,
    OrgReposQuery, PaginatedResponse, RepositoryListQuery, SearchQuery, StarredReposQuery,
};

fn claims(db_id: Option<i32>) -> Claims {
    Claims {
        name: "n".into(),
        email: "e".into(),
        exp: 100,
        iat: 1,
        id: 5,
        access_token: "SECRET-REDACTED".into(),
        db_id,
    }
}

#[test]
fn status_codes_by_cause() {
    assert_eq!(AppError::GitHub("x".into()).status_code(), 502);
    assert_eq!(AppError::BadRequest("x".into()).status_code(), 400);
    assert_eq!(AppError::Unauthorized("x".into()).status_code(), 401);
    assert_eq!(AppError::NotFound("x".into()).status_code(), 404);
    assert_eq!(AppError::Database("x".into()).status_code(), 500);
    assert_eq!(AppError::Session("x".into()).status_code(), 500);
}

#[test]
fn claims_expiry_and_account() {
    let c = claims(Some(12));
    assert!(!c.is_expired(100));
    assert!(c.is_expired(101));
    assert!(matches!(c.account_id(), Ok(12)));
    assert!(matches!(claims(None).account_id(), Err(AppError::Unauthorized(_))));
}

#[test]
fn default_collection_name_is_reserved() {
    let make = |name: &str| CreateCollection { name: name.into(), description: None };
    assert!(matches!(make("Default").validate(), Err(AppError::BadRequest(_))));
    assert!(matches!(make("DEFAULT").validate(), Err(AppError::BadRequest(_))));
    assert!(make("defaults").validate().is_ok());
    assert!(make("work").validate().is_ok());
    assert!(is_reserved_collection_name("default"));
    assert!(!is_reserved_collection_name("Default"));
}

#[test]
fn collection_access_decisions() {
    assert_eq!(check_collection_access(None, 1, false), CollectionAccess::NotFound);
    assert_eq!(check_collection_access(Some((2, false)), 1, false), CollectionAccess::Forbidden);
    assert_eq!(check_collection_access(Some((1, true)), 1, true), CollectionAccess::DefaultLocked);
    assert_eq!(check_collection_access(Some((1, true)), 1, false), CollectionAccess::Allowed);
    assert_eq!(check_collection_access(Some((1, false)), 1, true), CollectionAccess::Allowed);
}

#[test]
fn add_request_names_a_repository() {
    let r = AddRepositoryToCollectionRequest::ById { repository_id: 42 }.into_new_repository();
    assert_eq!((r.id, r.name.as_str(), r.owner.as_str()), (Some(42), "", ""));
    let r = AddRepositoryToCollectionRequest::ByNameAndOwner { name: "verus".into(), owner: "lang".into() }
        .into_new_repository();
    assert_eq!((r.id, r.name.as_str(), r.owner.as_str()), (None, "verus", "lang"));
}

#[test]
fn source_paging_defaults_and_low_bytes() {
    assert_eq!(source_page_params(None, None), (1, 10));
    assert_eq!(source_page_params(Some(3), Some(50)), (3, 50));
    assert_eq!(source_page_params(Some(257), Some(-1)), (1, 255));
    assert_eq!(StarredReposQuery { page: Some(2), page_size: None }.page_params(), (2, 10));
    assert_eq!(OrgReposQuery { page: None, page_size: Some(30) }.page_params(), (1, 30));
    assert_eq!(SearchQuery { q: "x".into(), page: Some(4), page_size: Some(5) }.page_params(), (4, 5));
}

#[test]
fn repository_list_window() {
    let q = RepositoryListQuery { page: None, page_size: None };
    assert!(matches!(q.window(), Ok((1, 10, 0))));
    let q = RepositoryListQuery { page: Some(3), page_size: Some(20) };
    assert!(matches!(q.window(), Ok((3, 20, 40))));
    let q = RepositoryListQuery { page: Some(i64::MAX), page_size: Some(3) };
    assert!(matches!(q.window(), Err(AppError::BadRequest(_))));
}

#[test]
fn page_counts_round_up() {
    let p = PaginatedResponse::new(vec![1, 2, 3], 21, 1, 10);
    assert_eq!(p.total_pages, 3);
    assert_eq!(p.data, vec![1, 2, 3]);
    assert_eq!(PaginatedResponse::<u8>::new(Vec::new(), 20, 2, 10).total_pages, 2);
    assert_eq!(PaginatedResponse::<u8>::new(Vec::new(), 0, 1, 10).total_pages, 0);
}

#[test]
fn total_pages_from_links() {
    let last = "https://api.github.com/user/starred?per_page=10&page=7";
    assert_eq!(calculate_total_pages(2, Some(last), None), 7);
    assert_eq!(calculate_total_pages(2, Some("https://x/y?page=3&per_page=10"), None), 2);
    assert_eq!(calculate_total_pages(4, Some("https://x/y?a=1&page=abc"), None), 4);
    assert_eq!(calculate_total_pages(5, None, Some("https://x/y?page=4")), 5);
    assert_eq!(calculate_total_pages(5, None, None), 1);
    assert_eq!(page_param_of("a&page=-12"), Some(-12));
    assert_eq!(page_param_of("a&page=+12=3"), Some(12));
    assert_eq!(page_param_of("a&page="), None);
    assert_eq!(page_param_of("a&page=9223372036854775807"), Some(i64::MAX));
    assert_eq!(page_param_of("a&page=9223372036854775808"), None);
    assert_eq!(page_param_of("a&page=-9223372036854775808"), Some(i64::MIN));
    assert_eq!(page_param_of("a&pages=3&page=4"), Some(4));
    assert_eq!(page_param_of(""), None);
}
