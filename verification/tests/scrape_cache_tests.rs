use deploy_sync::scrape_cache::ScrapeCache;

#[test]
fn test_hash_url() {
    let hash1 = ScrapeCache::hash_url("https://example.com");
    let hash2 = ScrapeCache::hash_url("https://example.com");
    let hash3 = ScrapeCache::hash_url("https://example.org");

    assert_eq!(hash1, hash2);
    assert_ne!(hash1, hash3);
}

#[test]
fn test_cache_entry() {
    let mut cache = ScrapeCache::new("test-project", "https://example.com");

    cache.set(
        "https://example.com/page1",
        "<html>content</html>",
        Some("Page 1".to_string()),
        5,
        10,
    );

    assert!(cache.is_cached("https://example.com/page1"));
    assert!(!cache.is_cached("https://example.com/page2"));
}
