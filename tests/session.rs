use disk_analyzer::analyzer::{DeleteError, DiskAnalyzer, FilterConfig, ListedChild, MIN_SIZE_FILTER};
use disk_analyzer::cache::CACHE_TTL_MS;
use disk_analyzer::entry::FileInfo;
use disk_analyzer::path::DirPath;
use disk_analyzer::sort::sorted_entries;
use disk_analyzer::tree::SizeTree;

fn path(parts: &[&str]) -> DirPath {
    DirPath::new("/".to_string(), parts.iter().map(|s| s.to_string()).collect())
}

fn file(name: &str, size: u64) -> ListedChild {
    ListedChild { name: name.to_string(), is_dir: false, contents: SizeTree::File(size) }
}

fn dir(name: &str, sizes: &[u64]) -> ListedChild {
    ListedChild {
        name: name.to_string(),
        is_dir: true,
        contents: SizeTree::Dir(sizes.iter().map(|s| SizeTree::File(*s)).collect()),
    }
}

fn entry(name: &str, size: u64, is_dir: bool) -> FileInfo {
    FileInfo::new(path(&["data", name]), size, is_dir, name.to_string())
}

fn names(v: &[FileInfo]) -> Vec<String> {
    v.iter().map(|e| e.name.clone()).collect()
}

fn data_listing() -> Vec<ListedChild> {
    vec![file("readme.txt", 50), dir("photos", &[100_000, 200_000, 200_000])]
}

fn session_at_data() -> DiskAnalyzer {
    let mut a = DiskAnalyzer::new(0);
    assert!(a.set_root(path(&["data"]), 0));
    a
}

#[test]
fn scenario_min_size_then_show_all() {
    let mut a = session_at_data();
    a.finish_scan(Some(data_listing()), 0);
    assert_eq!(names(&a.file_list), vec!["photos".to_string()]);
    assert_eq!(a.file_list[0].size, 500_000);
    assert!(a.file_list[0].is_dir);
    assert!(a.file_list[0].path.equals(&path(&["data", "photos"])));
    assert_eq!(a.total_size, 500_000);

    a.config.show_all = true;
    let current = a.current_path.as_ref().unwrap().copy();
    a.cache.invalidate(&current);
    assert!(a.begin_scan(1));
    a.finish_scan(Some(data_listing()), 1);
    assert_eq!(names(&a.file_list), vec!["photos".to_string(), "readme.txt".to_string()]);
    assert_eq!(a.total_size, 500_050);
    assert_eq!(names(&a.filtered_list), names(&a.file_list));
}

#[test]
fn defaults_of_new_session() {
    let a = DiskAnalyzer::new(5);
    assert!(a.root_path.is_none() && a.current_path.is_none());
    assert!(a.config == FilterConfig { min_size_filter: MIN_SIZE_FILTER, show_all: false, show_hidden: false, sort_by_size: true });
    assert_eq!(MIN_SIZE_FILTER, 102_400);
    assert_eq!(a.last_refresh_ms, 5);
    assert!(!a.auto_refresh);
}

#[test]
fn rescan_within_ttl_uses_cache() {
    let mut a = session_at_data();
    a.config.show_all = true;
    a.finish_scan(Some(data_listing()), 1_000);
    let first = names(&a.file_list);
    let sizes: Vec<u64> = a.file_list.iter().map(|e| e.size).collect();
    assert!(!a.begin_scan(1_000 + CACHE_TTL_MS - 1));
    assert_eq!(names(&a.file_list), first);
    assert_eq!(a.file_list.iter().map(|e| e.size).collect::<Vec<u64>>(), sizes);
    assert_eq!(a.total_size, 500_050);
}

#[test]
fn rescan_after_ttl_lists_again() {
    let mut a = session_at_data();
    a.finish_scan(Some(data_listing()), 1_000);
    assert!(a.begin_scan(1_000 + CACHE_TTL_MS));
    assert!(a.file_list.is_empty());
    assert_eq!(CACHE_TTL_MS, 300_000);
}

#[test]
fn unreadable_directory_gives_empty_result() {
    let mut a = session_at_data();
    a.finish_scan(Some(data_listing()), 0);
    a.finish_scan(None, 10);
    assert!(a.file_list.is_empty());
    assert!(a.filtered_list.is_empty());
    assert_eq!(a.total_size, 0);
}

#[test]
fn hidden_names_are_dropped_unless_shown() {
    let mut a = session_at_data();
    a.config.show_all = true;
    let listing = || vec![file(".git", 10), file("a", 20)];
    a.finish_scan(Some(listing()), 0);
    assert_eq!(names(&a.file_list), vec!["a".to_string()]);
    a.config.show_hidden = true;
    a.finish_scan(Some(listing()), 0);
    assert_eq!(names(&a.file_list), vec!["a".to_string(), ".git".to_string()]);
}

#[test]
fn min_size_filter_excludes_small_entries() {
    let mut a = session_at_data();
    a.config.min_size_filter = 100;
    a.finish_scan(Some(vec![file("small", 99), file("edge", 100), file("big", 101)]), 0);
    assert_eq!(names(&a.file_list), vec!["big".to_string(), "edge".to_string()]);
    assert!(a.file_list.iter().all(|e| e.size >= 100));
}

#[test]
fn sort_by_size_dirs_first_and_stable() {
    let v = vec![
        entry("f1", 10, false),
        entry("d1", 5, true),
        entry("f2", 30, false),
        entry("d2", 50, true),
        entry("f3", 10, false),
    ];
    let r = sorted_entries(&v, true);
    assert_eq!(names(&r), vec!["d2", "d1", "f2", "f1", "f3"]);
}

#[test]
fn sort_by_name_ignores_case() {
    let v = vec![
        entry("b.txt", 1, false),
        entry("Zeta", 1, true),
        entry("A.txt", 1, false),
        entry("alpha", 1, true),
        entry("a.TXT", 2, false),
    ];
    let r = sorted_entries(&v, false);
    assert_eq!(names(&r), vec!["alpha", "Zeta", "A.txt", "a.TXT", "b.txt"]);
}

#[test]
fn sort_files_uses_config() {
    let mut a = DiskAnalyzer::new(0);
    a.file_list = vec![entry("small", 1, false), entry("big", 9, false)];
    a.sort_files();
    assert_eq!(names(&a.file_list), vec!["big", "small"]);
    a.config.sort_by_size = false;
    a.file_list = vec![entry("b", 9, false), entry("a", 1, false)];
    a.sort_files();
    assert_eq!(names(&a.file_list), vec!["a", "b"]);
}

#[test]
fn search_is_case_insensitive_substring() {
    let mut a = DiskAnalyzer::new(0);
    a.file_list = vec![entry("Photos", 3, true), entry("readme.txt", 2, false), entry("PHOTO.jpg", 1, false)];
    a.search_query = "pHo".to_string();
    a.update_search();
    assert_eq!(names(&a.filtered_list), vec!["Photos", "PHOTO.jpg"]);
    a.search_query = "xyz".to_string();
    a.update_search();
    assert!(a.filtered_list.is_empty());
}

#[test]
fn empty_search_keeps_everything() {
    let mut a = DiskAnalyzer::new(0);
    a.file_list = vec![entry("b", 3, true), entry("a", 2, false)];
    a.update_search();
    assert_eq!(names(&a.filtered_list), vec!["b", "a"]);
}

#[test]
fn go_up_from_root_is_noop() {
    let mut a = session_at_data();
    a.finish_scan(Some(data_listing()), 0);
    assert!(!a.go_up(1));
    assert!(a.current_path.as_ref().unwrap().equals(&path(&["data"])));
    assert_eq!(names(&a.file_list), vec!["photos".to_string()]);
}

#[test]
fn go_up_from_child_moves_to_parent() {
    let mut a = session_at_data();
    a.finish_scan(Some(data_listing()), 0);
    assert!(a.navigate_to(path(&["data", "photos"]), 1));
    a.finish_scan(Some(vec![file("p.jpg", 200_000)]), 1);
    assert_eq!(names(&a.file_list), vec!["p.jpg".to_string()]);
    assert!(!a.go_up(2));
    assert!(a.current_path.as_ref().unwrap().equals(&path(&["data"])));
    assert_eq!(names(&a.file_list), vec!["photos".to_string()]);
}

#[test]
fn go_up_without_root_is_noop() {
    let mut a = DiskAnalyzer::new(0);
    assert!(!a.go_up(0));
    assert!(a.current_path.is_none());
}

#[test]
fn delete_success_removes_entry_and_invalidates_cache() {
    let mut a = session_at_data();
    a.config.show_all = true;
    a.finish_scan(Some(data_listing()), 0);
    let victim = a.file_list[1].copy();
    assert_eq!(victim.name, "readme.txt");
    assert!(a.delete_item(&victim, Ok(())).is_ok());
    assert_eq!(names(&a.file_list), vec!["photos".to_string()]);
    assert_eq!(names(&a.filtered_list), vec!["photos".to_string()]);
    assert_eq!(a.total_size, 500_000);
    let current = a.current_path.as_ref().unwrap().copy();
    assert!(a.cache.lookup(&current, 1).is_none());
    assert!(a.begin_scan(1));
}

#[test]
fn delete_failure_changes_nothing() {
    let mut a = session_at_data();
    a.config.show_all = true;
    a.finish_scan(Some(data_listing()), 0);
    let d = a.file_list[0].copy();
    let f = a.file_list[1].copy();
    match a.delete_item(&d, Err("denied".to_string())) {
        Err(DeleteError::Directory(m)) => assert_eq!(m, "denied"),
        _ => panic!("expected a directory error"),
    }
    match a.delete_item(&f, Err("busy".to_string())) {
        Err(DeleteError::File(m)) => assert_eq!(m, "busy"),
        _ => panic!("expected a file error"),
    }
    assert_eq!(a.file_list.len(), 2);
    assert_eq!(a.total_size, 500_050);
    let current = a.current_path.as_ref().unwrap().copy();
    assert!(a.cache.lookup(&current, 1).is_some());
}

#[test]
fn refresh_due_after_thirty_seconds() {
    let mut a = DiskAnalyzer::new(1_000);
    assert!(!a.refresh_due(100_000));
    a.auto_refresh = true;
    assert!(!a.refresh_due(31_000));
    assert!(a.refresh_due(31_001));
    assert!(!a.refresh_due(500));
}

#[test]
fn size_texts_use_binary_units() {
    let e = entry("photos", 500_000, true);
    assert_eq!(e.size_text(), "488.28 KiB");
    let mut a = DiskAnalyzer::new(0);
    a.total_size = 50;
    assert_eq!(a.total_size_text(), "50 B");
}

#[test]
fn tick_refreshes_and_records_time() {
    let mut a = session_at_data();
    a.config.show_all = true;
    a.finish_scan(Some(data_listing()), 0);
    a.auto_refresh = true;
    assert!(!a.tick(30_000));
    assert_eq!(a.last_refresh_ms, 0);
    assert!(!a.tick(30_001));
    assert_eq!(a.last_refresh_ms, 30_001);
    assert_eq!(names(&a.file_list), vec!["photos".to_string(), "readme.txt".to_string()]);
    assert!(!a.tick(40_000));
    assert_eq!(a.last_refresh_ms, 30_001);
    assert!(a.tick(CACHE_TTL_MS + 1));
    assert_eq!(a.last_refresh_ms, CACHE_TTL_MS + 1);
    assert!(a.file_list.is_empty());
}

#[test]
fn tick_without_auto_refresh_does_nothing() {
    let mut a = session_at_data();
    a.finish_scan(Some(data_listing()), 0);
    assert!(!a.tick(1_000_000));
    assert_eq!(a.last_refresh_ms, 0);
    assert_eq!(names(&a.file_list), vec!["photos".to_string()]);
}

#[test]
fn set_root_and_navigate_load_cached_results() {
    let mut a = session_at_data();
    a.search_query = "PHO".to_string();
    a.finish_scan(Some(data_listing()), 0);
    assert!(a.navigate_to(path(&["data", "photos"]), 1));
    a.finish_scan(Some(vec![file("p.jpg", 200_000), file("q.jpg", 300_000)]), 1);
    assert!(!a.set_root(path(&["data"]), 2));
    assert_eq!(names(&a.file_list), vec!["photos".to_string()]);
    assert_eq!(a.total_size, 500_000);
    assert_eq!(names(&a.filtered_list), vec!["photos".to_string()]);
    assert!(!a.navigate_to(path(&["data", "photos"]), 3));
    assert_eq!(names(&a.file_list), vec!["q.jpg".to_string(), "p.jpg".to_string()]);
    assert_eq!(a.total_size, 500_000);
    assert!(a.filtered_list.is_empty());
    assert_eq!(a.search_query, "PHO");
}
