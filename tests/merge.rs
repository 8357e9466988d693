use perf_collector::merge::{catalog_index, entry_named, record_covers, Merge};
use perf_collector::record::{Commit, CommitRecord, Entry, Outcome};
use perf_collector::Mode;

fn names(v: &[&str]) -> Vec<String> {
    v.iter().map(|s| s.to_string()).collect()
}

fn commit() -> Commit {
    Commit { sha: "X".to_string(), date: 1_600_000_000 }
}

fn triple() -> String {
    "x86_64-unknown-linux-gnu".to_string()
}

/// Runs every pending benchmark with `run`, and returns the record and the
/// names that were run.
fn drive(mut m: Merge, run: &dyn Fn(&str) -> Outcome) -> (CommitRecord, Vec<String>) {
    let mut ran = Vec::new();
    while let Some(i) = m.next_pending() {
        let name = m.catalog[i].clone();
        let before = m.remaining();
        m.record(i, run(&name));
        assert_eq!(m.remaining(), before - 1);
        ran.push(name);
    }
    (m.finish(commit(), triple()), ran)
}

fn lookup<'a>(r: &'a CommitRecord, name: &str) -> Option<&'a Outcome> {
    r.benchmarks.iter().find(|e| e.name == name).map(|e| &e.outcome)
}

#[test]
fn merge_reuses_prior_outcomes() {
    let prior = CommitRecord {
        commit: commit(),
        triple: triple(),
        benchmarks: vec![
            Entry { name: "a".to_string(), outcome: Outcome::Success("sa".to_string()) },
            Entry { name: "b".to_string(), outcome: Outcome::Failure("fb".to_string()) },
        ],
    };
    let m = Merge::new(names(&["a", "b", "c"]), Some(prior));
    let (rec, ran) = drive(m, &|n| Outcome::Success(format!("new-{}", n)));
    assert_eq!(ran, names(&["c"]));
    assert_eq!(rec.benchmarks.len(), 3);
    assert_eq!(lookup(&rec, "a"), Some(&Outcome::Success("sa".to_string())));
    assert_eq!(lookup(&rec, "b"), Some(&Outcome::Failure("fb".to_string())));
    assert_eq!(lookup(&rec, "c"), Some(&Outcome::Success("new-c".to_string())));
    assert_eq!(rec.commit, commit());
    assert_eq!(rec.triple, triple());
}

#[test]
fn merge_twice_runs_nothing_the_second_time() {
    let catalog = names(&["a", "b", "c"]);
    let (first, ran1) = drive(Merge::new(catalog.clone(), None), &|n| {
        if n == "b" { Outcome::Failure("broken".to_string()) } else { Outcome::Success(n.to_string()) }
    });
    assert_eq!(ran1, catalog);
    let second_merge = Merge::new(catalog.clone(), Some(first.clone()));
    assert_eq!(second_merge.next_pending(), None);
    assert_eq!(second_merge.remaining(), 0);
    let (second, ran2) = drive(second_merge, &|_| panic!("no benchmark may run"));
    assert!(ran2.is_empty());
    assert_eq!(first, second);
}

#[test]
fn merge_without_prior_runs_all_in_catalog_order() {
    let catalog = names(&["x", "y"]);
    let m = Merge::new(catalog.clone(), None);
    assert_eq!(m.remaining(), 2);
    let (rec, ran) = drive(m, &|_| Outcome::Failure("no toolchain".to_string()));
    assert_eq!(ran, catalog);
    assert_eq!(rec.benchmarks.len(), 2);
    assert_eq!(lookup(&rec, "x"), Some(&Outcome::Failure("no toolchain".to_string())));
}

#[test]
fn merge_drops_prior_entries_outside_catalog() {
    let prior = CommitRecord {
        commit: commit(),
        triple: triple(),
        benchmarks: vec![
            Entry { name: "gone".to_string(), outcome: Outcome::Success("g".to_string()) },
            Entry { name: "a".to_string(), outcome: Outcome::Success("sa".to_string()) },
        ],
    };
    let m = Merge::new(names(&["a"]), Some(prior));
    let (rec, ran) = drive(m, &|_| panic!("a is already recorded"));
    assert!(ran.is_empty());
    assert_eq!(rec.benchmarks, vec![Entry { name: "a".to_string(), outcome: Outcome::Success("sa".to_string()) }]);
}

#[test]
fn merge_empty_catalog() {
    let m = Merge::new(Vec::new(), None);
    assert_eq!(m.next_pending(), None);
    let (rec, ran) = drive(m, &|_| panic!("nothing to run"));
    assert!(ran.is_empty() && rec.benchmarks.is_empty());
}

#[test]
fn lookups_by_name() {
    let catalog = names(&["a", "b", "b"]);
    assert_eq!(catalog_index(&catalog, "b"), Some(1));
    assert_eq!(catalog_index(&catalog, "z"), None);
    let entries = vec![Entry { name: "q".to_string(), outcome: Outcome::Success(String::new()) }];
    assert!(entry_named(&entries, "q"));
    assert!(!entry_named(&entries, "r"));
}

#[test]
fn modes_are_distinct() {
    assert_ne!(Mode::Test, Mode::Normal);
    assert!(Mode::Test < Mode::Normal);
}

#[test]
fn coverage_of_a_record() {
    let rec = CommitRecord {
        commit: commit(),
        triple: triple(),
        benchmarks: vec![Entry { name: "a".to_string(), outcome: Outcome::Failure("f".to_string()) }],
    };
    assert!(record_covers(&rec, &names(&["a"])));
    assert!(!record_covers(&rec, &names(&["a", "b"])));
    assert!(record_covers(&rec, &Vec::new()));
}

#[test]
fn iteration_counts() {
    assert_eq!(Mode::Test.iterations(), 1);
    assert_eq!(Mode::Normal.iterations(), 3);
}
