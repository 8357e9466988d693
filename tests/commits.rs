use perf_collector::commits::{find_commit, resolve_commit, select_commits, ResolvedCommit, MAX_COMMITS_PER_RUN, PLACEHOLDER_DATE};
use perf_collector::record::Commit;

fn commit(n: i64) -> Commit {
    Commit { sha: format!("C{}", n), date: 1_000 * n }
}

#[test]
fn selection_newest_first_bounded() {
    let missing = vec![commit(7), commit(8), commit(9), commit(10)];
    let r = select_commits(missing);
    assert_eq!(r, vec![commit(10), commit(9), commit(8)]);
}

#[test]
fn selection_fewer_than_bound() {
    let r = select_commits(vec![commit(1), commit(2)]);
    assert_eq!(r, vec![commit(2), commit(1)]);
}

#[test]
fn selection_empty() {
    assert!(select_commits(Vec::new()).is_empty());
}

#[test]
fn selection_never_exceeds_bound() {
    let missing: Vec<Commit> = (1..=20).map(commit).collect();
    let r = select_commits(missing);
    assert_eq!(r.len(), MAX_COMMITS_PER_RUN);
    assert_eq!(r, vec![commit(20), commit(19), commit(18)]);
}

#[test]
fn find_first_match() {
    let commits = vec![commit(1), commit(2), Commit { sha: "C2".to_string(), date: 5 }];
    assert_eq!(find_commit(&commits, "C2"), Some(1));
    assert_eq!(find_commit(&commits, "C9"), None);
}

#[test]
fn resolve_known_and_placeholder() {
    let commits: Vec<Commit> = (1..=10).map(commit).collect();
    assert_eq!(resolve_commit(&commits, "C4"), ResolvedCommit::Known(commit(4)));
    let p = resolve_commit(&commits, "deadbeef");
    assert_eq!(p, ResolvedCommit::Placeholder(Commit { sha: "deadbeef".to_string(), date: PLACEHOLDER_DATE }));
    assert_eq!(PLACEHOLDER_DATE, 946_684_800);
    assert_eq!(p.commit().sha, "deadbeef");
}
