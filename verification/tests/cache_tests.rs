use clapboard::clipboard::{ClipboardEntry, ContentType};
use clapboard::filesystem::cache::{text_entry_key_of, CacheItem, CacheLocation, CacheManager};
use clapboard::filesystem::history::{name_less, sort_entries_by_name_desc, stale_history, CacheDirEntry};
use clapboard::paths::{decimal_string, join_path};

fn dir(name: &str) -> CacheDirEntry {
    CacheDirEntry { name: name.as_bytes().to_vec(), is_dir: true }
}

fn file(name: &str) -> CacheDirEntry {
    CacheDirEntry { name: name.as_bytes().to_vec(), is_dir: false }
}

fn names(v: &[CacheDirEntry]) -> Vec<String> {
    v.iter().map(|d| String::from_utf8(d.name.clone()).unwrap()).collect()
}

#[test]
fn decimal_of_times() {
    assert_eq!(decimal_string(0), "0");
    assert_eq!(decimal_string(7), "7");
    assert_eq!(decimal_string(10), "10");
    assert_eq!(decimal_string(1712345678901), "1712345678901");
    assert_eq!(decimal_string(u128::MAX), u128::MAX.to_string());
}

#[test]
fn join_paths_like_pathbuf() {
    assert_eq!(join_path("/a", "b"), "/a/b");
    assert_eq!(join_path("/a/", "b"), "/a/b");
    assert_eq!(join_path("", "b"), "b");
    assert_eq!(join_path("/a", "/b"), "/b");
    assert_eq!(join_path("/a", ""), "/a/");
    for (base, part) in [("/a", "b"), ("/a/", "b"), ("", "b"), ("/a", "/b"), ("/a", ""), ("x/y", "z.t")] {
        let expected = std::path::Path::new(base).join(part);
        assert_eq!(join_path(base, part), expected.to_string_lossy());
    }
}

#[test]
fn cache_location_of_a_recording() {
    let m = CacheManager::new("/home/u/.cache/clapboard".to_string());
    assert_eq!(m.cache_dir, "/home/u/.cache/clapboard");
    let l = m.cache_location(1712345678901, "text/plain");
    assert_eq!(
        l,
        CacheLocation {
            timestamp: "1712345678901".to_string(),
            directory: "/home/u/.cache/clapboard/1712345678901".to_string(),
            file: "/home/u/.cache/clapboard/1712345678901/text.plain".to_string(),
        }
    );
    let img = m.cache_location(5, "image/svg+xml");
    assert_eq!(img.file, "/home/u/.cache/clapboard/5/image.svg+xml");
}

#[test]
fn text_keys_are_trimmed_flattened_and_cut() {
    assert_eq!(text_entry_key_of("  hello\nworld \n"), "hello world");
    let long: String = "a".repeat(70);
    assert_eq!(text_entry_key_of(&long), "a".repeat(50));
    assert_eq!(text_entry_key_of("\u{3000}wide\u{3000}"), "wide");
    let multi: String = "é".repeat(60);
    assert_eq!(text_entry_key_of(&multi).chars().count(), 50);
}

#[test]
fn entries_from_listing_keys_text_and_binary() {
    let items = vec![
        CacheItem { timestamp: "100".to_string(), text: Some(" hi\nthere ".to_string()) },
        CacheItem { timestamp: "200".to_string(), text: None },
    ];
    let m = CacheManager::entries_from_listing(items);
    let keys: Vec<&String> = m.keys().collect();
    assert_eq!(keys, vec!["hi there", "Binary Content @ 200"]);
    assert_eq!(
        m.get("hi there"),
        Some(&ClipboardEntry {
            display_text: " hi\nthere ".to_string(),
            timestamp: "100".to_string(),
            content_type: ContentType::Text(" hi\nthere ".to_string()),
        })
    );
    assert_eq!(
        m.get("Binary Content @ 200"),
        Some(&ClipboardEntry {
            display_text: "Binary Content @ 200".to_string(),
            timestamp: "200".to_string(),
            content_type: ContentType::Binary { timestamp: "200".to_string() },
        })
    );
}

#[test]
fn later_recording_with_same_text_takes_the_earlier_place() {
    let items = vec![
        CacheItem { timestamp: "1".to_string(), text: Some("same".to_string()) },
        CacheItem { timestamp: "2".to_string(), text: Some("other".to_string()) },
        CacheItem { timestamp: "3".to_string(), text: Some("same ".to_string()) },
    ];
    let m = CacheManager::entries_from_listing(items);
    let keys: Vec<&String> = m.keys().collect();
    assert_eq!(keys, vec!["same", "other"]);
    assert_eq!(m.get("same").unwrap().timestamp, "3");
}

#[test]
fn names_compare_bytewise() {
    assert!(name_less(&b"10".to_vec(), &b"9".to_vec()));
    assert!(name_less(&b"".to_vec(), &b"a".to_vec()));
    assert!(name_less(&b"ab".to_vec(), &b"abc".to_vec()));
    assert!(!name_less(&b"abc".to_vec(), &b"abc".to_vec()));
    assert!(!name_less(&b"b".to_vec(), &b"abc".to_vec()));
}

#[test]
fn sorting_is_descending_and_stable() {
    let listing = vec![dir("2"), file("3"), dir("1"), CacheDirEntry { name: b"2".to_vec(), is_dir: false }];
    let sorted = sort_entries_by_name_desc(listing);
    assert_eq!(names(&sorted), vec!["3", "2", "2", "1"]);
    assert!(sorted[1].is_dir);
    assert!(!sorted[2].is_dir);
}

#[test]
fn cleanup_keeps_one_more_than_the_limit() {
    let listing = vec![dir("1000"), dir("1003"), dir("1001"), dir("1004"), dir("1002")];
    let stale = stale_history(listing, 2);
    assert_eq!(names(&stale), vec!["1001", "1000"]);
}

#[test]
fn cleanup_spares_files_and_hidden_directories() {
    let listing = vec![dir("5"), file("4"), dir(".3"), dir("2"), dir("1")];
    let stale = stale_history(listing, 0);
    assert_eq!(names(&stale), vec!["2", "1"]);
}

#[test]
fn cleanup_of_short_history_removes_nothing() {
    assert!(stale_history(vec![dir("1"), dir("2"), dir("3")], 2).is_empty());
    assert!(stale_history(vec![], 0).is_empty());
    assert!(stale_history(vec![dir("1"), dir("2")], usize::MAX).is_empty());
}

#[test]
fn second_cleanup_deletes_nothing() {
    let listing = vec![dir("1003"), file("1000"), dir("1001"), dir(".1009"), dir("1004"), dir("1002")];
    let stale = stale_history(listing.clone(), 1);
    assert_eq!(names(&stale), vec!["1002", "1001"]);
    let mut left: Vec<CacheDirEntry> = listing.into_iter().filter(|d| !stale.contains(d)).collect();
    left.reverse();
    assert!(stale_history(left, 1).is_empty());
}

#[test]
fn stored_recording_reads_back() {
    let m = CacheManager::new("/cache".to_string());
    let text = m.cache_location(1700000000123, "text/plain");
    assert!(text.file.ends_with("/text.plain"));
    let bin = m.cache_location(1700000000124, "image/png");
    let listing = vec![
        CacheItem { timestamp: text.timestamp.clone(), text: Some("hello".to_string()) },
        CacheItem { timestamp: bin.timestamp.clone(), text: None },
    ];
    let entries = CacheManager::entries_from_listing(listing);
    assert_eq!(entries["hello"].timestamp, "1700000000123");
    assert_eq!(entries["hello"].content_type, ContentType::Text("hello".to_string()));
    assert_eq!(
        entries["Binary Content @ 1700000000124"].content_type,
        ContentType::Binary { timestamp: "1700000000124".to_string() }
    );
    assert_eq!(text.directory, "/cache/1700000000123");
}
