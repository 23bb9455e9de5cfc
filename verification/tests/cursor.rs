use proto_reconcile::fetch::{check_status, Fetch, FetchError, Page};
use proto_reconcile::json::{JsonNumber, JsonValue};

fn object_of(members: Vec<(&str, JsonValue)>) -> JsonValue {
    JsonValue::Object(members.into_iter().map(|(k, v)| (k.to_string(), v)).collect())
}

fn doc(id: usize) -> JsonValue {
    object_of(vec![("_id", JsonValue::Text(format!("doc-{}", id)))])
}

fn all_ids() -> JsonValue {
    object_of(vec![("_id", object_of(vec![("$gt", JsonValue::Null)]))])
}

/// A store of `count` documents that answers each request with the next
/// `limit` of them, driven until the cursor says that it is done.
fn page_sizes_of(count: usize, limit: usize) -> (Vec<usize>, Fetch) {
    let mut fetch = Fetch::new("http://localhost:5984", "things", limit);
    let mut sizes = Vec::new();
    let mut served = 0;
    loop {
        let size = limit.min(count - served);
        let response = object_of(vec![
            ("docs", JsonValue::Array((served..served + size).map(doc).collect())),
            ("bookmark", JsonValue::Text(format!("after-{}", served + size))),
        ]);
        let page = Page::parse(&response).unwrap();
        served += size;
        sizes.push(page.docs.len());
        if fetch.advance(&page) {
            break;
        }
        assert!(!fetch.is_exhausted());
    }
    (sizes, fetch)
}

#[test]
fn selector_of_the_first_request_has_no_bookmark() {
    let fetch = Fetch::new("http://localhost:5984", "things", 1000);
    assert_eq!(
        fetch.selector(),
        object_of(vec![
            ("selector", all_ids()),
            ("limit", JsonValue::Number(JsonNumber::PosInt(1000))),
        ])
    );
}

#[test]
fn selector_carries_the_bookmark_of_the_last_page() {
    let mut fetch = Fetch::new("http://localhost:5984", "things", 2);
    let page = Page { bookmark: Some("g1AAAA".to_string()), docs: vec![doc(1), doc(2)] };
    assert!(!fetch.advance(&page));
    assert_eq!(
        fetch.selector(),
        object_of(vec![
            ("selector", all_ids()),
            ("limit", JsonValue::Number(JsonNumber::PosInt(2))),
            ("bookmark", JsonValue::Text("g1AAAA".to_string())),
        ])
    );
    let page = Page { bookmark: None, docs: vec![doc(3), doc(4)] };
    assert!(!fetch.advance(&page));
    assert_eq!(
        fetch.selector(),
        object_of(vec![
            ("selector", all_ids()),
            ("limit", JsonValue::Number(JsonNumber::PosInt(2))),
        ])
    );
}

#[test]
fn every_request_carries_the_page_limit_itself() {
    let limit_of = |limit: usize| match Fetch::new("h", "t", limit).selector().get("limit") {
        Some(JsonValue::Number(n)) => *n,
        _ => panic!("no limit"),
    };
    assert_eq!(limit_of(0), JsonNumber::PosInt(0));
    assert_eq!(limit_of(1000), JsonNumber::PosInt(1000));
    assert_eq!(limit_of(2147483647), JsonNumber::PosInt(2147483647));
    assert_eq!(limit_of(2147483648), JsonNumber::PosInt(2147483648));
    assert_eq!(limit_of(4294967295), JsonNumber::PosInt(4294967295));
    assert_eq!(limit_of(usize::MAX), JsonNumber::PosInt(usize::MAX as u64));
}

#[test]
fn failed_request_ends_the_run_and_keeps_the_rest() {
    let mut fetch = Fetch::new("http://localhost:5984", "things", 2);
    fetch.record_metadata(&object_of(vec![(
        "doc_count",
        JsonValue::Number(JsonNumber::PosInt(9)),
    )]));
    let page = Page { bookmark: Some("g1AAAA".to_string()), docs: vec![doc(1), doc(2)] };
    assert!(!fetch.advance(&page));
    assert!(!fetch.is_exhausted());
    fetch.fail();
    assert!(fetch.is_exhausted());
    assert_eq!(fetch.fetched(), 2);
    assert_eq!(fetch.pages(), 1);
    assert_eq!(fetch.doc_count(), 9);
    assert_eq!(fetch.limit(), 2);
    assert_eq!(fetch.selector().get("bookmark"), Some(&JsonValue::Text("g1AAAA".to_string())));
    let mut fresh = Fetch::new("http://localhost:5984", "things", 2);
    fresh.fail();
    assert!(fresh.is_exhausted());
    assert_eq!(fresh.pages(), 0);
}

#[test]
fn urls_name_the_collection() {
    let fetch = Fetch::new("http://localhost:5984", "things", 10);
    assert_eq!(fetch.metadata_url(), "http://localhost:5984/things");
    assert_eq!(fetch.find_url(), "http://localhost:5984/things/_find");
}

#[test]
fn new_cursor_has_seen_nothing() {
    let fetch = Fetch::new("http://localhost:5984", "things", 10);
    assert_eq!(fetch.limit(), 10);
    assert_eq!(fetch.doc_count(), 0);
    assert_eq!(fetch.fetched(), 0);
    assert_eq!(fetch.pages(), 0);
    assert!(!fetch.is_exhausted());
}

#[test]
fn page_is_read_from_the_response() {
    let response = object_of(vec![
        ("docs", JsonValue::Array(vec![doc(1), doc(2)])),
        ("bookmark", JsonValue::Text("next".to_string())),
        ("warning", JsonValue::Text("no index".to_string())),
    ]);
    let page = Page::parse(&response).unwrap();
    assert_eq!(page.bookmark, Some("next".to_string()));
    assert_eq!(page.docs, vec![doc(1), doc(2)]);
}

#[test]
fn page_without_bookmark_has_none() {
    let response = object_of(vec![("docs", JsonValue::Array(vec![]))]);
    let page = Page::parse(&response).unwrap();
    assert_eq!(page.bookmark, None);
    assert_eq!(page.docs, vec![]);
}

#[test]
fn page_errors_name_what_is_wrong() {
    let error_of = |response: JsonValue| Page::parse(&response).err();
    assert_eq!(
        error_of(object_of(vec![("bookmark", JsonValue::Text("b".to_string()))])),
        Some(FetchError::MissingDocs)
    );
    assert_eq!(
        error_of(object_of(vec![("docs", JsonValue::Text("none".to_string()))])),
        Some(FetchError::MissingDocs)
    );
    assert_eq!(error_of(JsonValue::Array(vec![])), Some(FetchError::MissingDocs));
    assert_eq!(
        error_of(object_of(vec![
            ("docs", JsonValue::Array(vec![])),
            ("bookmark", JsonValue::Null),
        ])),
        Some(FetchError::BadBookmark)
    );
    assert_eq!(
        error_of(object_of(vec![("bookmark", JsonValue::Bool(true))])),
        Some(FetchError::BadBookmark)
    );
}

#[test]
fn only_status_200_is_accepted_for_reads() {
    assert_eq!(check_status(200), Ok(()));
    assert_eq!(check_status(201), Err(FetchError::Status(201)));
    assert_eq!(check_status(404), Err(FetchError::Status(404)));
    assert_eq!(check_status(500), Err(FetchError::Status(500)));
}

#[test]
fn metadata_gives_the_document_count() {
    let mut fetch = Fetch::new("h", "t", 10);
    fetch.record_metadata(&object_of(vec![
        ("db_name", JsonValue::Text("t".to_string())),
        ("doc_count", JsonValue::Number(JsonNumber::PosInt(12345))),
    ]));
    assert_eq!(fetch.doc_count(), 12345);
    fetch.record_metadata(&object_of(vec![("doc_count", JsonValue::Number(JsonNumber::NegInt(-1)))]));
    assert_eq!(fetch.doc_count(), 0);
    fetch.record_metadata(&object_of(vec![("doc_count", JsonValue::Number(JsonNumber::PosInt(7)))]));
    assert_eq!(fetch.doc_count(), 7);
    fetch.record_metadata(&object_of(vec![(
        "doc_count",
        JsonValue::Number(JsonNumber::Float(7.0f64.to_bits())),
    )]));
    assert_eq!(fetch.doc_count(), 0);
    fetch.record_metadata(&object_of(vec![("doc_count", JsonValue::Text("7".to_string()))]));
    assert_eq!(fetch.doc_count(), 0);
    fetch.record_metadata(&object_of(vec![]));
    assert_eq!(fetch.doc_count(), 0);
    fetch.record_metadata(&JsonValue::Null);
    assert_eq!(fetch.doc_count(), 0);
    assert_eq!(fetch.limit(), 10);
}

#[test]
fn pagination_ends_with_the_short_page() {
    let (sizes, fetch) = page_sizes_of(5, 2);
    assert_eq!(sizes, vec![2, 2, 1]);
    assert_eq!(fetch.fetched(), 5);
    assert_eq!(fetch.pages(), 3);
    assert!(fetch.is_exhausted());
}

#[test]
fn pagination_of_an_exact_multiple_ends_with_an_empty_page() {
    let (sizes, fetch) = page_sizes_of(4, 2);
    assert_eq!(sizes, vec![2, 2, 0]);
    assert_eq!(fetch.fetched(), 4);
    assert_eq!(fetch.pages(), 3);
    assert!(fetch.is_exhausted());
}

#[test]
fn pagination_of_small_collections_takes_one_page() {
    let (sizes, fetch) = page_sizes_of(0, 3);
    assert_eq!(sizes, vec![0]);
    assert_eq!(fetch.fetched(), 0);
    assert_eq!(fetch.pages(), 1);
    let (sizes, fetch) = page_sizes_of(2, 3);
    assert_eq!(sizes, vec![2]);
    assert_eq!(fetch.fetched(), 2);
    let (sizes, _) = page_sizes_of(7, 1);
    assert_eq!(sizes, vec![1, 1, 1, 1, 1, 1, 1, 0]);
}
