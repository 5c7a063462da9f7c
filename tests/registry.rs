use arrowdb::db::ArrowDB;
use arrowdb_server::dispatch::{index_outcome, AddResponse, InsertResponse, QueryResponse};
use arrowdb_server::registry::{is_valid_name, CollectionInfo, Registry, ServiceError};
use std::time::{SystemTime, UNIX_EPOCH};

fn fresh_registry(tag: &str) -> Registry {
    let nanos = SystemTime::now().duration_since(UNIX_EPOCH).unwrap().as_nanos();
    let path = format!("/tmp/arrowdb_server_tests/{}_{}", tag, nanos);
    Registry::new(ArrowDB::new(&path)).expect("a fresh store holds no collection")
}

fn insert(reg: &Registry, collection: &str, v: Vec<f32>) -> Result<u64, ServiceError> {
    let handle = reg.prepare_insert(collection, v.len())?;
    index_outcome(handle.index.hnsw.insert(v))
}

fn query(reg: &Registry, collection: &str, v: Vec<f32>, k: usize) -> Result<Vec<(u64, f32)>, ServiceError> {
    let handle = reg.prepare_query(collection, v.len(), k)?;
    index_outcome(handle.index.hnsw.search(v, k))
}

#[test]
fn create_then_lookup_gives_dimension() {
    let mut reg = fresh_registry("lookup");
    assert_eq!(reg.create_collection("a", 4), Ok(()));
    assert_eq!(reg.create_collection("b", 7), Ok(()));
    let a = reg.lookup("a").unwrap();
    assert_eq!(a.name, "a");
    assert_eq!(a.dimension, 4);
    assert_eq!(reg.lookup("b").unwrap().dimension, 7);
}

#[test]
fn lookup_unknown_name_is_not_found() {
    let reg = fresh_registry("unknown");
    assert_eq!(reg.lookup("nope"), Err(ServiceError::CollectionNotFound));
}

#[test]
fn create_existing_name_fails_and_keeps_dimension() {
    let mut reg = fresh_registry("existing");
    assert_eq!(reg.create_collection("docs", 3), Ok(()));
    assert_eq!(reg.create_collection("docs", 5), Err(ServiceError::AlreadyExists));
    assert_eq!(reg.create_collection("docs", 0), Err(ServiceError::AlreadyExists));
    assert_eq!(reg.lookup("docs").unwrap().dimension, 3);
}

#[test]
fn valid_names_follow_the_partition_rules() {
    assert!(is_valid_name("docs"));
    assert!(is_valid_name("A-z_0.9#$"));
    assert!(is_valid_name(&"x".repeat(254)));
    assert!(!is_valid_name(&"x".repeat(255)));
    assert!(!is_valid_name(""));
    assert!(!is_valid_name("my docs"));
    assert!(!is_valid_name("caf\u{e9}"));
    assert!(!is_valid_name("a/b"));
    assert!(!is_valid_name("#collections"));
    assert!(is_valid_name("collections"));
}

#[test]
fn create_with_invalid_name_is_rejected() {
    let mut reg = fresh_registry("bad_names");
    assert_eq!(reg.create_collection("my docs", 3), Err(ServiceError::InvalidName));
    assert_eq!(reg.create_collection("", 3), Err(ServiceError::InvalidName));
    assert_eq!(reg.create_collection("#collections", 3), Err(ServiceError::InvalidName));
    assert_eq!(reg.create_collection("bad name", 0), Err(ServiceError::InvalidName));
    assert!(reg.list_collections().is_empty());
    assert_eq!(reg.create_collection("good", 3), Ok(()));
    assert_eq!(reg.lookup("good").unwrap().dimension, 3);
}

#[test]
fn handle_names_its_collection() {
    let mut reg = fresh_registry("handle_name");
    reg.create_collection("left", 2).unwrap();
    reg.create_collection("right", 2).unwrap();
    assert_eq!(reg.prepare_insert("right", 2).unwrap().collection, "right");
    assert_eq!(reg.prepare_query("left", 2, 4).unwrap().collection, "left");
}

#[test]
fn open_refuses_an_invalid_listed_name() {
    let nanos = SystemTime::now().duration_since(UNIX_EPOCH).unwrap().as_nanos();
    let db = ArrowDB::new(&format!("/tmp/arrowdb_server_tests/open_bad_{}", nanos));
    db.create_collection("a", 3).unwrap();
    assert!(Registry::open(db.clone(), vec![info("a", 3), info("b c", 3)]).is_none());
    assert!(Registry::open(db, vec![info("a", 3)]).is_some());
}

#[test]
fn create_zero_dimension_is_rejected() {
    let mut reg = fresh_registry("zero");
    assert_eq!(reg.create_collection("z", 0), Err(ServiceError::InvalidDimension));
    assert_eq!(reg.lookup("z"), Err(ServiceError::CollectionNotFound));
    assert!(reg.list_collections().is_empty());
}

#[test]
fn repeated_creation_has_one_winner() {
    let mut reg = fresh_registry("winner");
    let outcomes: Vec<Result<(), ServiceError>> = (0..6).map(|_| reg.create_collection("same", 2)).collect();
    assert_eq!(outcomes.iter().filter(|o| o.is_ok()).count(), 1);
    assert_eq!(outcomes.iter().filter(|o| **o == Err(ServiceError::AlreadyExists)).count(), 5);
    assert_eq!(reg.list_collections(), vec!["same".to_string()]);
}

#[test]
fn list_collections_names_each_once() {
    let mut reg = fresh_registry("list");
    reg.create_collection("x", 1).unwrap();
    reg.create_collection("y", 2).unwrap();
    reg.create_collection("x", 1).unwrap_err();
    let mut names = reg.list_collections();
    names.sort();
    assert_eq!(names, vec!["x".to_string(), "y".to_string()]);
}

#[test]
fn store_with_collections_is_not_taken_over() {
    let nanos = SystemTime::now().duration_since(UNIX_EPOCH).unwrap().as_nanos();
    let db = ArrowDB::new(&format!("/tmp/arrowdb_server_tests/taken_{}", nanos));
    db.create_collection("old", 3).unwrap();
    assert!(Registry::new(db).is_none());
}

fn info(name: &str, dimension: usize) -> CollectionInfo {
    CollectionInfo { name: name.to_string(), dimension }
}

#[test]
fn open_takes_over_a_described_store() {
    let nanos = SystemTime::now().duration_since(UNIX_EPOCH).unwrap().as_nanos();
    let db = ArrowDB::new(&format!("/tmp/arrowdb_server_tests/open_{}", nanos));
    db.create_collection("a", 3).unwrap();
    db.create_collection("b", 5).unwrap();
    assert!(Registry::open(db.clone(), vec![info("a", 3)]).is_none());
    assert!(Registry::open(db.clone(), vec![info("a", 3), info("b", 4)]).is_none());
    assert!(Registry::open(db.clone(), vec![info("a", 3), info("b", 5), info("c", 1)]).is_none());
    assert!(Registry::open(db.clone(), vec![info("a", 3), info("b", 5), info("a", 3)]).is_none());
    let mut reg = Registry::open(db, vec![info("b", 5), info("a", 3)]).expect("the list describes the store");
    assert_eq!(reg.lookup("b").unwrap().dimension, 5);
    assert_eq!(reg.create_collection("a", 3), Err(ServiceError::AlreadyExists));
    assert_eq!(reg.create_collection("c", 2), Ok(()));
    assert_eq!(reg.lookup("c").unwrap().dimension, 2);
}

#[test]
fn open_on_empty_store_with_empty_list() {
    let nanos = SystemTime::now().duration_since(UNIX_EPOCH).unwrap().as_nanos();
    let db = ArrowDB::new(&format!("/tmp/arrowdb_server_tests/open_empty_{}", nanos));
    assert!(Registry::open(db.clone(), vec![info("a", 3)]).is_none());
    let reg = Registry::open(db, vec![]).unwrap();
    assert!(reg.list_collections().is_empty());
}

#[test]
fn insert_matching_dimension_gives_fresh_ids() {
    let mut reg = fresh_registry("fresh_ids");
    reg.create_collection("c", 2).unwrap();
    let a = insert(&reg, "c", vec![1.0, 2.0]).unwrap();
    let b = insert(&reg, "c", vec![3.0, 4.0]).unwrap();
    let c = insert(&reg, "c", vec![5.0, 6.0]).unwrap();
    assert_ne!(a, b);
    assert_ne!(a, c);
    assert_ne!(b, c);
}

#[test]
fn insert_wrong_dimension_is_rejected_before_the_index() {
    let mut reg = fresh_registry("mismatch");
    reg.create_collection("c", 3).unwrap();
    insert(&reg, "c", vec![1.0, 0.0, 0.0]).unwrap();
    let before = query(&reg, "c", vec![0.0, 0.0, 0.0], 10).unwrap().len();
    assert_eq!(
        insert(&reg, "c", vec![1.0, 0.0]),
        Err(ServiceError::DimensionMismatch { expected: 3, actual: 2 })
    );
    let after = query(&reg, "c", vec![0.0, 0.0, 0.0], 10).unwrap().len();
    assert_eq!(before, 1);
    assert_eq!(after, before);
}

#[test]
fn insert_into_missing_collection_is_not_found() {
    let reg = fresh_registry("insert_missing");
    assert_eq!(insert(&reg, "ghost", vec![1.0]), Err(ServiceError::CollectionNotFound));
    let resp = InsertResponse::from_outcome(insert(&reg, "ghost", vec![1.0]));
    assert_ne!(resp.code, 0);
    assert_eq!(resp.id, None);
    assert_eq!(resp.msg, Some("collection not found".to_string()));
}

#[test]
fn query_with_one_returns_the_closest() {
    let mut reg = fresh_registry("closest");
    reg.create_collection("c", 2).unwrap();
    let _far = insert(&reg, "c", vec![10.0, 10.0]).unwrap();
    let near = insert(&reg, "c", vec![1.0, 1.0]).unwrap();
    let _mid = insert(&reg, "c", vec![4.0, 4.0]).unwrap();
    let found = query(&reg, "c", vec![0.0, 0.0], 1).unwrap();
    assert_eq!(found.len(), 1);
    assert_eq!(found[0].0, near);
    let all = query(&reg, "c", vec![0.0, 0.0], 3).unwrap();
    assert!(all.iter().all(|r| found[0].1 <= r.1));
}

#[test]
fn inserted_vector_is_its_own_nearest() {
    let mut reg = fresh_registry("round_trip");
    reg.create_collection("c", 3).unwrap();
    insert(&reg, "c", vec![0.0, 5.0, 1.0]).unwrap();
    let id = insert(&reg, "c", vec![2.0, -1.0, 3.5]).unwrap();
    insert(&reg, "c", vec![-4.0, 0.5, 0.0]).unwrap();
    let found = query(&reg, "c", vec![2.0, -1.0, 3.5], 2).unwrap();
    assert_eq!(found[0].0, id);
    assert_eq!(found[0].1, 0.0);
}

#[test]
fn docs_scenario_returns_first_vector() {
    let mut reg = fresh_registry("docs");
    assert_eq!(reg.create_collection("docs", 3), Ok(()));
    let first = insert(&reg, "docs", vec![1.0, 0.0, 0.0]).unwrap();
    let second = insert(&reg, "docs", vec![0.0, 1.0, 0.0]).unwrap();
    assert_ne!(first, second);
    let resp = QueryResponse::from_outcome(query(&reg, "docs", vec![0.9, 0.1, 0.0], 1));
    assert_eq!(resp.code, 0);
    assert_eq!(resp.msg, None);
    assert_eq!(resp.ids.len(), 1);
    assert_eq!(resp.ids[0].0, first);
}

#[test]
fn query_missing_collection_reports_failure() {
    let reg = fresh_registry("query_missing");
    let outcome = query(&reg, "nowhere", vec![1.0, 2.0], 3);
    assert_eq!(outcome, Err(ServiceError::CollectionNotFound));
    let resp = QueryResponse::from_outcome(outcome);
    assert_ne!(resp.code, 0);
    assert!(resp.ids.is_empty());
    assert_eq!(resp.msg, Some("collection not found".to_string()));
}

#[test]
fn query_with_zero_count_is_invalid() {
    let mut reg = fresh_registry("zero_k");
    reg.create_collection("c", 2).unwrap();
    insert(&reg, "c", vec![1.0, 1.0]).unwrap();
    assert_eq!(query(&reg, "c", vec![1.0, 1.0], 0), Err(ServiceError::InvalidArgument));
    assert_eq!(
        query(&reg, "c", vec![1.0], 0),
        Err(ServiceError::DimensionMismatch { expected: 2, actual: 1 })
    );
}

#[test]
fn query_on_empty_collection_gives_no_results() {
    let mut reg = fresh_registry("empty");
    reg.create_collection("c", 2).unwrap();
    assert_eq!(query(&reg, "c", vec![1.0, 1.0], 5), Ok(vec![]));
}

#[test]
fn index_failure_carries_its_diagnostic() {
    let failed: Result<u64, anyhow::Error> = Err(anyhow::Error::msg("disk full"));
    match index_outcome(failed) {
        Err(ServiceError::IndexError(m)) => assert!(m.contains("disk full")),
        other => panic!("unexpected outcome {:?}", other),
    }
    assert_eq!(index_outcome::<u64>(Ok(9)), Ok(9));
}

#[test]
fn error_codes_are_distinct_and_nonzero() {
    let errors = vec![
        ServiceError::IndexError("x".to_string()),
        ServiceError::AlreadyExists,
        ServiceError::InvalidDimension,
        ServiceError::CollectionNotFound,
        ServiceError::DimensionMismatch { expected: 1, actual: 2 },
        ServiceError::InvalidArgument,
        ServiceError::InvalidName,
    ];
    let codes: Vec<i64> = errors.iter().map(|e| e.code()).collect();
    assert_eq!(codes, vec![-1, -2, -3, -4, -5, -6, -7]);
    assert_eq!(ServiceError::InvalidName.message(), "invalid collection name");
    assert_eq!(ServiceError::IndexError("boom".to_string()).message(), "boom");
    assert_eq!(ServiceError::AlreadyExists.message(), "collection already exists");
}

#[test]
fn responses_follow_the_outcome() {
    assert_eq!(AddResponse::from_outcome(Ok(())), AddResponse { code: 0, msg: None });
    assert_eq!(
        AddResponse::from_outcome(Err(ServiceError::AlreadyExists)),
        AddResponse { code: -2, msg: Some("collection already exists".to_string()) }
    );
    assert_eq!(
        InsertResponse::from_outcome(Ok(42)),
        InsertResponse { code: 0, id: Some(42), msg: None }
    );
    let q: QueryResponse<(u64, f32)> = QueryResponse::from_outcome(Err(ServiceError::InvalidArgument));
    assert_eq!(q.code, -6);
    assert_eq!(q.msg, Some("result count must be positive".to_string()));
}
