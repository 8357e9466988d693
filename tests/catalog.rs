use perf_collector::catalog::{is_benchmark, select_benchmarks, DirCandidate};

fn dir(name: &str) -> DirCandidate {
    DirCandidate { name: name.to_string(), is_dir: true }
}

fn file(name: &str) -> DirCandidate {
    DirCandidate { name: name.to_string(), is_dir: false }
}

#[test]
fn catalog_sorted_and_skips_infrastructure() {
    let entries = vec![dir("syn"), dir(".git"), dir("scripts"), file("README"), dir("coercions"), dir("html5ever")];
    let r = select_benchmarks(entries, None, None);
    assert_eq!(r, vec!["coercions".to_string(), "html5ever".to_string(), "syn".to_string()]);
}

#[test]
fn catalog_include_filter() {
    let entries = vec![dir("regex"), dir("regression-1"), dir("syn"), dir("ripgrep")];
    let r = select_benchmarks(entries, Some("re"), None);
    assert_eq!(r, vec!["regex".to_string(), "regression-1".to_string(), "ripgrep".to_string()]);
}

#[test]
fn catalog_exclude_filter() {
    let entries = vec![dir("servo-style"), dir("syn"), dir("servo-script"), dir("clap")];
    let r = select_benchmarks(entries, None, Some("servo"));
    assert_eq!(r, vec!["clap".to_string(), "syn".to_string()]);
}

#[test]
fn catalog_both_filters() {
    let entries = vec![dir("servo-style"), dir("style-tiny"), dir("syn")];
    let r = select_benchmarks(entries, Some("style"), Some("servo"));
    assert_eq!(r, vec!["style-tiny".to_string()]);
}

#[test]
fn catalog_empty_directory() {
    let r = select_benchmarks(Vec::new(), None, None);
    assert!(r.is_empty());
}

#[test]
fn catalog_order_is_by_character() {
    let entries = vec![dir("b"), dir("ab"), dir("a"), dir("B"), dir("abc")];
    let r = select_benchmarks(entries, None, None);
    assert_eq!(r, vec!["B".to_string(), "a".to_string(), "ab".to_string(), "abc".to_string(), "b".to_string()]);
}

#[test]
fn benchmark_test_on_single_entries() {
    assert!(is_benchmark(&dir("syn"), None, None));
    assert!(!is_benchmark(&dir(".git"), None, None));
    assert!(!is_benchmark(&dir("scripts"), None, None));
    assert!(!is_benchmark(&file("syn"), None, None));
    assert!(is_benchmark(&dir("scripts-extra"), None, None));
    assert!(!is_benchmark(&dir("syn"), Some("regex"), None));
    assert!(!is_benchmark(&dir("syn"), None, Some("y")));
    assert!(is_benchmark(&dir("syn"), Some(""), None));
}
