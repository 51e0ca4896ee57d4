use std::hash::{Hash, Hasher};
use rs_ffi_barrage::network::{
    clean_expired_cache, clear_cache, get_cache_size,
    cache_path_from_url, check_download_url, current_time_secs, download_attempts, next_download_step,
    is_fresh, simple_hash, to_hex, url_extension, AttemptResult, DownloadOptions, DownloadStep, NetworkCache,
};

#[test]
fn test_url_extension() {
    assert_eq!(url_extension("https://example.com/image.png"), "png");
    assert_eq!(url_extension("https://example.com/photo.jpg"), "jpg");
    assert_eq!(url_extension("https://example.com/image"), "png");
}

#[test]
fn test_cache_path_from_url() {
    let path = cache_path_from_url("/tmp/test_cache", "https://example.com/img.png");
    assert!(path.ends_with(".png"));
    assert!(path.starts_with("/tmp/test_cache"));
}

#[test]
fn test_simple_hash() {
    let h1 = simple_hash("https://example.com/a.png");
    let h2 = simple_hash("https://example.com/b.png");
    assert_ne!(h1, h2);
    assert_eq!(h1.len(), 16);
}

#[test]
fn test_invalid_url() {
    let result = check_download_url("not-a-url");
    assert!(result.is_err());
}

#[test]
fn test_url_too_long() {
    let long_url = "https://example.com/".to_string() + &"a".repeat(2048);
    let result = check_download_url(&long_url);
    assert!(result.is_err());
}

#[test]
fn url_extension_edge_cases() {
    assert_eq!(url_extension("https://example.com/archive.toolong"), "png");
    assert_eq!(url_extension("https://example.com/a.b/c"), "png");
    assert_eq!(url_extension("https://example.com/x.webp"), "webp");
    assert_eq!(url_extension("file.gif"), "gif");
    assert_eq!(url_extension(""), "png");
}

#[test]
fn cache_path_joins_with_one_slash() {
    let a = cache_path_from_url("/c", "https://e.com/i.jpg");
    let b = cache_path_from_url("/c/", "https://e.com/i.jpg");
    assert_eq!(a, b);
    let h = simple_hash("https://e.com/i.jpg");
    assert_eq!(a, format!("/c/{}.jpg", h));
    assert_eq!(cache_path_from_url("", "https://e.com/i.jpg"), format!("{}.jpg", h));
}

#[test]
fn simple_hash_is_hex_of_default_hasher() {
    let s = "https://example.com/a.png";
    let mut hasher = std::collections::hash_map::DefaultHasher::new();
    s.hash(&mut hasher);
    assert_eq!(simple_hash(s), format!("{:x}", hasher.finish()));
    assert_eq!(simple_hash(s), simple_hash(s));
}

#[test]
fn to_hex_digits() {
    assert_eq!(to_hex(0), vec!['0']);
    assert_eq!(to_hex(255), vec!['f', 'f']);
    assert_eq!(to_hex(0x1a2b), vec!['1', 'a', '2', 'b']);
    assert_eq!(to_hex(u64::MAX).len(), 16);
}

#[test]
fn download_url_accepted() {
    assert!(check_download_url("http://example.com/a.png").is_ok());
    assert!(check_download_url("https://example.com/a.png").is_ok());
    assert!(check_download_url("ftp://example.com/a.png").is_err());
    let edge = "https://".to_string() + &"a".repeat(2040);
    assert_eq!(edge.len(), 2048);
    assert!(check_download_url(&edge).is_ok());
}

#[test]
fn retry_policy() {
    let mut opts = DownloadOptions::default();
    assert_eq!(download_attempts(&opts), 3);
    opts.max_retries = 0;
    assert_eq!(download_attempts(&opts), 1);
    opts.max_retries = 10;
    assert_eq!(download_attempts(&opts), 3);

    assert_eq!(next_download_step(0, 3, AttemptResult::Fetched(10)), DownloadStep::Succeed);
    assert_eq!(next_download_step(0, 3, AttemptResult::Fetched(0)), DownloadStep::Retry(0));
    assert_eq!(next_download_step(0, 3, AttemptResult::Failed), DownloadStep::Retry(500));
    assert_eq!(next_download_step(1, 3, AttemptResult::Failed), DownloadStep::Retry(1000));
    assert_eq!(next_download_step(2, 3, AttemptResult::Failed), DownloadStep::GiveUp);
    assert_eq!(next_download_step(0, 1, AttemptResult::Fetched(0)), DownloadStep::GiveUp);
}

#[test]
fn current_time_secs_is_recent() {
    assert!(current_time_secs() > 1_700_000_000);
}

#[test]
fn test_cache_operations() {
    let mut cache = NetworkCache::new(16, 3600);
    assert!(cache.get("https://test.com/img.png").is_none());

    cache.put("https://test.com/img.png", vec![1, 2, 3, 4]);
    assert_eq!(cache.get("https://test.com/img.png"), Some(vec![1, 2, 3, 4]));
}

#[test]
fn test_clean_expired_cache() {
    let mut cache = NetworkCache::new(16, 3600);
    cache.put("https://test.com/img.png", vec![1, 2, 3]);
    assert!(cache.get("https://test.com/img.png").is_some());

    cache.clean_expired();
    assert!(cache.get("https://test.com/img.png").is_some());
}

#[test]
fn cache_entries_expire_after_ttl() {
    let mut cache = NetworkCache::new(16, 100);
    cache.store("a", vec![1], 1000);
    assert_eq!(cache.lookup("a", 1099), Some(vec![1]));
    assert_eq!(cache.lookup("a", 1100), None);
    // A clock that went back counts as no time.
    assert_eq!(cache.lookup("a", 10), Some(vec![1]));
}

#[test]
fn clean_expired_at_keeps_fresh_in_order() {
    let mut cache = NetworkCache::new(16, 100);
    cache.store("old", vec![1, 2], 0);
    cache.store("new", vec![3], 950);
    cache.store("mid", vec![4, 5, 6], 500);
    assert_eq!(cache.size(), 6);
    cache.clean_expired_at(1000);
    assert_eq!(cache.size(), 1);
    assert!(cache.lookup("old", 1000).is_none());
    assert!(cache.lookup("mid", 1000).is_none());
    assert_eq!(cache.lookup("new", 1000), Some(vec![3]));
}

#[test]
fn cache_capacity_evicts_least_recent() {
    let mut cache = NetworkCache::new(2, 1000);
    cache.store("a", vec![1], 0);
    cache.store("b", vec![2], 0);
    assert!(cache.lookup("a", 0).is_some());
    cache.store("c", vec![3], 0);
    assert!(cache.lookup("b", 0).is_none());
    assert!(cache.lookup("a", 0).is_some());
    assert!(cache.lookup("c", 0).is_some());
    cache.clear();
    assert_eq!(cache.size(), 0);
    assert_eq!(cache.ttl_secs(), 1000);
}

#[test]
fn freshness_window() {
    assert!(is_fresh(100, 50, 51));
    assert!(!is_fresh(100, 50, 50));
    assert!(is_fresh(10, 50, 1));
    assert!(!is_fresh(10, 50, 0));
}

#[test]
fn cache_functions_on_a_given_cache() {
    let mut cache = NetworkCache::new(8, 3600);
    cache.put("u", vec![1, 2, 3]);
    assert_eq!(get_cache_size(&cache), 3);
    clean_expired_cache(&mut cache);
    assert_eq!(get_cache_size(&cache), 3);
    clear_cache(&mut cache);
    assert_eq!(get_cache_size(&cache), 0);
}

#[test]
fn cache_dir_with_nul_is_refused() {
    assert!(rs_ffi_barrage::network::check_cache_dir("/tmp/cache").is_ok());
    assert!(rs_ffi_barrage::network::check_cache_dir("/tmp/ca\0che").is_err());
}
