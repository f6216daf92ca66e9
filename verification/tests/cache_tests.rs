use groon::cache::{
    all_distinct, clone_paths, contains_path, insert_path, HTMLFile, PageCache, PageInfo,
};

fn page(content: &str, deps: &[&str], at: u64) -> PageInfo {
    PageInfo {
        contents: Some(content.to_string()),
        dependencies: deps.iter().map(|d| d.to_string()).collect(),
        last_modified: at,
        last_accessed: at,
        req_count: 0,
    }
}

#[test]
fn new_cache_is_empty() {
    let cache = PageCache::new();
    assert!(!cache.has_page("/www/index.html"));
    assert_eq!(cache.get_page("/www/index.html"), None);
}

#[test]
fn add_page_stores_and_returns_what_it_replaces() {
    let mut cache = PageCache::new();
    assert_eq!(cache.add_page("/a.html".to_string(), page("one", &[], 1)), None);
    assert!(cache.has_page("/a.html"));
    assert!(!cache.has_page("/b.html"));
    assert_eq!(cache.get_page("/a.html"), Some(&page("one", &[], 1)));
    assert_eq!(
        cache.add_page("/a.html".to_string(), page("two", &["/b.html"], 2)),
        Some(page("one", &[], 1))
    );
    assert_eq!(cache.get_page("/a.html"), Some(&page("two", &["/b.html"], 2)));
}

#[test]
fn new_entry_is_empty_and_unread() {
    assert_eq!(
        PageInfo::new(7),
        PageInfo {
            contents: Some(String::new()),
            dependencies: vec![],
            last_modified: 7,
            last_accessed: 7,
            req_count: 0
        }
    );
}

#[test]
fn update_page_changes_the_entry_in_place() {
    let mut cache = PageCache::new();
    cache.add_page("/a.html".to_string(), page("one", &["/b.html"], 1));
    cache.update_page("/a.html".to_string(), 9, |p| {
        p.contents = Some("two".to_string());
        p.last_modified = 9;
    });
    assert_eq!(
        cache.get_page("/a.html"),
        Some(&PageInfo {
            contents: Some("two".to_string()),
            dependencies: vec!["/b.html".to_string()],
            last_modified: 9,
            last_accessed: 1,
            req_count: 0
        })
    );
}

#[test]
fn update_page_starts_from_a_new_entry() {
    let mut cache = PageCache::new();
    cache.update_page("/a.html".to_string(), 5, |p| {
        p.req_count = 3;
    });
    assert_eq!(
        cache.get_page("/a.html"),
        Some(&PageInfo {
            contents: Some(String::new()),
            dependencies: vec![],
            last_modified: 5,
            last_accessed: 5,
            req_count: 3
        })
    );
}

#[test]
fn page_accessed_now_counts_and_stamps() {
    let mut cache = PageCache::new();
    cache.add_page("/a.html".to_string(), page("one", &[], 1));
    cache.page_accessed_now("/a.html".to_string(), 4);
    cache.page_accessed_now("/a.html".to_string(), 6);
    let entry = cache.get_page("/a.html").unwrap();
    assert_eq!(entry.last_accessed, 6);
    assert_eq!(entry.req_count, 2);
    assert_eq!(entry.last_modified, 1);
    assert_eq!(entry.contents, Some("one".to_string()));
}

#[test]
fn page_accessed_now_makes_a_missing_entry() {
    let mut cache = PageCache::new();
    cache.page_accessed_now("/a.html".to_string(), 4);
    let entry = cache.get_page("/a.html").unwrap();
    assert_eq!(entry.last_accessed, 4);
    assert_eq!(entry.req_count, 1);
}

#[test]
fn access_count_stops_at_its_limit() {
    let mut cache = PageCache::new();
    let mut full = page("one", &[], 1);
    full.req_count = u64::MAX;
    cache.add_page("/a.html".to_string(), full);
    cache.page_accessed_now("/a.html".to_string(), 4);
    assert_eq!(cache.get_page("/a.html").unwrap().req_count, u64::MAX);
}

#[test]
fn entry_and_rendered_page_convert() {
    let file = HTMLFile { content: "text".to_string(), dependencies: vec!["/b.html".to_string()] };
    let entry = PageInfo::from_file(file.clone(), 3);
    assert_eq!(entry, page("text", &["/b.html"], 3));
    assert_eq!(HTMLFile::from_entry(entry), file);
    let mut blank = page("", &[], 3);
    blank.contents = None;
    assert_eq!(
        HTMLFile::from_entry(blank),
        HTMLFile { content: String::new(), dependencies: vec![] }
    );
}

#[test]
fn well_formed_entries() {
    assert!(page("text", &["/b.html", "/c.html"], 1).is_well_formed());
    assert!(page("", &[], 1).is_well_formed());
    assert!(!page("text", &["/b.html", "/c.html", "/b.html"], 1).is_well_formed());
    let mut blank = page("", &[], 1);
    blank.contents = None;
    assert!(blank.is_well_formed());
    let mut broken = page("", &["/b.html"], 1);
    broken.contents = None;
    assert!(!broken.is_well_formed());
}

#[test]
fn sets_of_paths() {
    let mut paths: Vec<String> = vec![];
    assert!(all_distinct(&paths));
    insert_path(&mut paths, "/a".to_string());
    insert_path(&mut paths, "/b".to_string());
    insert_path(&mut paths, "/a".to_string());
    assert_eq!(paths, vec!["/a".to_string(), "/b".to_string()]);
    assert!(contains_path(&paths, &"/b".to_string()));
    assert!(!contains_path(&paths, &"/c".to_string()));
    assert_eq!(clone_paths(&paths), paths);
    paths.push("/b".to_string());
    assert!(!all_distinct(&paths));
}
