use record_store::{id_to_base62, StoreError, Url, UrlStore};

#[test]
fn validate_url_accepts_schemed_addresses() {
    assert!(record_store::validate_url("http://example.com").is_ok());
    assert!(record_store::validate_url("https://example.com/path?q=1").is_ok());
}

#[test]
fn validate_url_rejects_missing_scheme() {
    let r = record_store::validate_url("ftp://example.com");
    assert_eq!(r, Err("URL must start with http:// or https://".to_string()));
    let r = record_store::validate_url("example.com");
    assert_eq!(r, Err("URL must start with http:// or https://".to_string()));
}

#[test]
fn validate_url_rejects_empty_input() {
    assert_eq!(record_store::validate_url(""), Err("URL cannot be empty".to_string()));
}

#[test]
fn create_url_rejects_bad_scheme_before_storing() {
    let mut store = UrlStore::new();
    let r = store.create_url("ftp://example.com".to_string(), 100);
    assert_eq!(r, Err(StoreError::Validation));
    assert!(store.get_urls(-1, 0).is_empty());
}

#[test]
fn create_url_accepts_http() {
    let mut store = UrlStore::new();
    let url = store.create_url("http://example.com".to_string(), 100).unwrap();
    assert_eq!(url.id, 1);
    assert_eq!(url.original_url, "http://example.com");
    assert_eq!(url.short_url, "");
    assert_eq!(url.click_count, 0);
    assert_eq!(url.created_at, 100);
    assert_eq!(url.updated_at, 100);
}

#[test]
fn short_url_empty_then_equals_encoded_id() {
    let mut store = UrlStore::new();
    let url = store.create_url("http://example.com".to_string(), 100).unwrap();
    assert_eq!(url.short_url, "");
    let token = id_to_base62(url.id);
    let changed = store.update_short_url(url.id, &token, 110);
    assert_eq!(changed, 1);
    let stored = store.get_url_by_short(&token).unwrap();
    assert_eq!(stored.id, url.id);
    assert_eq!(stored.short_url, token);
    assert_eq!(stored.updated_at, 110);
}

#[test]
fn assigned_short_urls_are_unique() {
    let mut store = UrlStore::new();
    let a = store.create_url("http://a.example".to_string(), 100).unwrap();
    let b = store.create_url("http://b.example".to_string(), 101).unwrap();
    let token_a = id_to_base62(a.id);
    let token_b = id_to_base62(b.id);
    store.update_short_url(a.id, &token_a, 102);
    store.update_short_url(b.id, &token_b, 103);
    assert_ne!(token_a, token_b);
    assert_eq!(store.get_url_by_short(&token_a).unwrap().id, a.id);
    assert_eq!(store.get_url_by_short(&token_b).unwrap().id, b.id);
}

#[test]
fn update_short_url_absent_id_changes_nothing() {
    let mut store = UrlStore::new();
    let token = id_to_base62(42);
    assert_eq!(store.update_short_url(42, &token, 100), 0);
}

#[test]
fn two_increments_both_apply() {
    let mut store = UrlStore::new();
    let url = store.create_url("http://example.com".to_string(), 100).unwrap();
    let token = id_to_base62(url.id);
    store.update_short_url(url.id, &token, 100);
    let before = store.get_url_by_short(&token).unwrap().click_count;
    let first = store.increment_click_count(&token, 120).unwrap().unwrap();
    assert_eq!(first.click_count, before + 1);
    assert_eq!(first.updated_at, 120);
    let second = store.increment_click_count(&token, 130).unwrap().unwrap();
    assert_eq!(second.click_count, before + 2);
    let stored = store.get_url_by_short(&token).unwrap();
    assert_eq!(stored.click_count, before + 2);
}

#[test]
fn increment_absent_token_reports_none() {
    let mut store = UrlStore::new();
    let r = store.increment_click_count("missing", 100).unwrap();
    assert_eq!(r, None);
}

#[test]
fn increment_at_count_limit_is_storage_error() {
    let token = id_to_base62(1);
    let record = Url {
        id: 1,
        original_url: "http://example.com".to_string(),
        short_url: token.clone(),
        click_count: i64::MAX,
        created_at: 100,
        updated_at: 100,
    };
    let mut store = UrlStore { urls: vec![record], next_id: 2 };
    let r = store.increment_click_count(&token, 200);
    assert_eq!(r, Err(StoreError::Storage));
    assert_eq!(store.get_url_by_short(&token).unwrap().click_count, i64::MAX);
}

#[test]
fn cleanup_deletes_exactly_the_strictly_older() {
    let mut store = UrlStore::new();
    // Threshold will be 172800 - 1 * 86400 = 86400.
    store.create_url("http://old.example".to_string(), 86399).unwrap();
    store.create_url("http://edge.example".to_string(), 86400).unwrap();
    store.create_url("http://new.example".to_string(), 172800).unwrap();
    let deleted = store.cleanup_not_used_urls(1, 172800);
    assert_eq!(deleted, 1);
    let left = store.get_urls(-1, 0);
    assert_eq!(left.len(), 2);
    assert_eq!(left[0].original_url, "http://edge.example");
    assert_eq!(left[1].original_url, "http://new.example");
}

#[test]
fn cleanup_counts_every_stale_record() {
    let mut store = UrlStore::new();
    store.create_url("http://a.example".to_string(), 10).unwrap();
    store.create_url("http://b.example".to_string(), 20).unwrap();
    store.create_url("http://c.example".to_string(), 987654321).unwrap();
    let deleted = store.cleanup_not_used_urls(0, 987654321);
    assert_eq!(deleted, 2);
    assert_eq!(store.get_urls(-1, 0).len(), 1);
}

#[test]
fn get_urls_paginates_in_storage_order() {
    let mut store = UrlStore::new();
    for i in 1..=5 {
        store.create_url(format!("http://example.com/{i}"), 100 + i).unwrap();
    }
    let page = store.get_urls(2, 1);
    assert_eq!(page.len(), 2);
    assert_eq!(page[0].original_url, "http://example.com/2");
    assert_eq!(page[1].original_url, "http://example.com/3");
    assert_eq!(store.get_urls(-1, 0).len(), 5);
    assert_eq!(store.get_urls(10, 3).len(), 2);
    assert_eq!(store.get_urls(2, -7).len(), 2);
    assert!(store.get_urls(0, 0).is_empty());
    assert!(store.get_urls(3, 99).is_empty());
}

#[test]
fn delete_url_reports_how_many_went() {
    let mut store = UrlStore::new();
    let url = store.create_url("http://example.com".to_string(), 100).unwrap();
    assert_eq!(store.delete_url(url.id), 1);
    assert_eq!(store.delete_url(url.id), 0);
    assert!(store.get_urls(-1, 0).is_empty());
}

#[test]
fn get_url_by_long_finds_the_address() {
    let mut store = UrlStore::new();
    store.create_url("http://a.example".to_string(), 100).unwrap();
    let b = store.create_url("http://b.example".to_string(), 101).unwrap();
    let found = store.get_url_by_long("http://b.example").unwrap();
    assert_eq!(found.id, b.id);
    assert_eq!(store.get_url_by_long("http://missing.example"), None);
}

#[test]
fn create_url_exhausted_ids_is_storage_error() {
    let mut store = UrlStore { urls: Vec::new(), next_id: i64::MAX };
    let r = store.create_url("http://example.com".to_string(), 100);
    assert_eq!(r, Err(StoreError::Storage));
}

#[test]
fn create_url_body_carries_the_address() {
    let body = record_store::CreateURLBody { original_url: "http://example.com".to_string() };
    let mut store = UrlStore::new();
    let url = store.create_url(body.original_url, 100).unwrap();
    assert_eq!(url.original_url, "http://example.com");
}
