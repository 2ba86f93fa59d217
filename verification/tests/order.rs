use terminal_macro::order::{before_path, before_text, sort_files};
use terminal_macro::project::SourceFile;

fn strings(items: &[&str]) -> Vec<String> {
    items.iter().map(|s| s.to_string()).collect()
}

fn file(components: &[&str], source: &str) -> SourceFile {
    SourceFile { path: strings(components), source: source.to_string() }
}

#[test]
fn text_order() {
    let before = |a: &str, b: &str| before_text(&a.to_string(), &b.to_string());
    assert!(before("a", "b"));
    assert!(!before("b", "a"));
    assert!(before("a", "ab"));
    assert!(!before("ab", "a"));
    assert!(before("", "a"));
    assert!(!before("a", ""));
    assert!(!before("", ""));
    assert!(!before("abc", "abc"));
    assert!(before("B", "a"));
    assert!(before("abc", "abd"));
    assert!(before("z", "é"));
}

#[test]
fn path_order() {
    let before = |a: &[&str], b: &[&str]| before_path(&strings(a), &strings(b));
    assert!(before(&["a", "z.rs"], &["a.rs"]));
    assert!(!before(&["a.rs"], &["a", "z.rs"]));
    assert!(before(&["a"], &["a", "b"]));
    assert!(!before(&["a", "b"], &["a"]));
    assert!(before(&[], &["a"]));
    assert!(!before(&["a"], &[]));
    assert!(!before(&["a", "b"], &["a", "b"]));
    assert!(before(&["a", "b"], &["a", "c"]));
    assert!(before(&["a", "c"], &["b", "a"]));
}

#[test]
fn files_are_sorted_by_path() {
    let files = vec![
        file(&["src", "lib.rs"], "1"),
        file(&["build.rs"], "2"),
        file(&["src", "a", "mod.rs"], "3"),
        file(&["src", "a.rs"], "4"),
        file(&["Cargo.toml"], "5"),
    ];
    let sorted: Vec<&str> = sort_files(&files).iter().map(|f| f.source.as_str()).collect();
    assert_eq!(sorted, vec!["5", "2", "3", "4", "1"]);
}

#[test]
fn files_with_one_path_keep_their_order() {
    let files = vec![file(&["b"], "1"), file(&["a"], "2"), file(&["b"], "3"), file(&["a"], "4")];
    let sorted: Vec<&str> = sort_files(&files).iter().map(|f| f.source.as_str()).collect();
    assert_eq!(sorted, vec!["2", "4", "1", "3"]);
    assert_eq!(sort_files(&vec![]).len(), 0);
}
