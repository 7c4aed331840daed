use disk_analyzer::path::DirPath;
use disk_analyzer::text::{chars_of, contains_exec, lex_le_exec};

fn path(anchor: &str, parts: &[&str]) -> DirPath {
    DirPath::new(anchor.to_string(), parts.iter().map(|s| s.to_string()).collect())
}

#[test]
fn parent_drops_last_name() {
    let p = path("/", &["data", "photos"]);
    let parent = p.parent().unwrap();
    assert!(parent.equals(&path("/", &["data"])));
    assert!(path("/", &[]).parent().is_none());
}

#[test]
fn starts_with_is_component_prefix() {
    let root = path("/", &["data"]);
    assert!(path("/", &["data", "photos"]).starts_with(&root));
    assert!(root.starts_with(&root));
    assert!(!path("/", &["database"]).starts_with(&root));
    assert!(!path("/", &[]).starts_with(&root));
    assert!(!path("", &["data"]).starts_with(&root));
}

#[test]
fn join_appends_name() {
    let p = path("/", &["data"]).join(&"x.txt".to_string());
    assert!(p.equals(&path("/", &["data", "x.txt"])));
    assert!(!p.equals(&path("/", &["data"])));
}

#[test]
fn chars_and_substring() {
    let hay = chars_of(&"photos".to_string());
    assert_eq!(hay, vec!['p', 'h', 'o', 't', 'o', 's']);
    assert!(contains_exec(&hay, &vec!['o', 't']));
    assert!(contains_exec(&hay, &vec![]));
    assert!(!contains_exec(&hay, &vec!['t', 'p']));
    assert!(!contains_exec(&vec!['a'], &vec!['a', 'b']));
}

#[test]
fn lexicographic_order() {
    assert!(lex_le_exec(&vec!['a', 'b'], &vec!['a', 'c']));
    assert!(!lex_le_exec(&vec!['a', 'c'], &vec!['a', 'b']));
    assert!(lex_le_exec(&vec!['a'], &vec!['a', 'b']));
    assert!(!lex_le_exec(&vec!['a', 'b'], &vec!['a']));
    assert!(lex_le_exec(&vec![], &vec![]));
}
