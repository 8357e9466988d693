use perf_collector::pass::{Action, Pass, Phase};
use perf_collector::record::Commit;

fn commit(n: i64) -> Commit {
    Commit { sha: format!("C{}", n), date: 1_000 * n }
}

fn history() -> Vec<Commit> {
    (1..=10).map(commit).collect()
}

#[test]
fn failed_retry_aborts_the_run() {
    let (mut p, a) = Pass::start(history());
    assert_eq!(a, Action::PopRetry);
    assert_eq!(p.on_retry(Some("C3".to_string())), Action::Process(commit(3)));
    assert_eq!(p.phase, Phase::RetryRunning);
    let a = p.on_processed(Err("toolchain download failed".to_string()));
    assert_eq!(a, Action::Abort("toolchain download failed".to_string()));
    assert_eq!(p.phase, Phase::Aborted);
}

#[test]
fn retries_then_forward_batch_with_failure_isolated() {
    let (mut p, _) = Pass::start(history());
    assert_eq!(p.on_retry(Some("C2".to_string())), Action::Process(commit(2)));
    assert_eq!(p.on_processed(Ok(())), Action::PopRetry);
    assert_eq!(p.on_retry(None), Action::FindMissing);
    let missing = vec![commit(7), commit(8), commit(9), commit(10)];
    assert_eq!(p.on_missing(missing), Action::Process(commit(10)));
    assert_eq!(p.on_processed(Err("no artifacts".to_string())), Action::LogBroken(commit(10), "no artifacts".to_string()));
    assert_eq!(p.phase, Phase::Logging);
    assert_eq!(p.on_logged(), Action::Process(commit(9)));
    assert_eq!(p.on_processed(Ok(())), Action::Process(commit(8)));
    assert_eq!(p.on_processed(Ok(())), Action::Done);
    assert_eq!(p.phase, Phase::Finished);
}

#[test]
fn last_batch_commit_failing_still_finishes() {
    let (mut p, _) = Pass::start(history());
    p.on_retry(None);
    assert_eq!(p.on_missing(vec![commit(5)]), Action::Process(commit(5)));
    assert_eq!(p.on_processed(Err("e".to_string())), Action::LogBroken(commit(5), "e".to_string()));
    assert_eq!(p.on_logged(), Action::Done);
}

#[test]
fn unknown_retry_stops_the_run() {
    let (mut p, _) = Pass::start(history());
    assert_eq!(p.on_retry(Some("ffff".to_string())), Action::UnknownRetry("ffff".to_string()));
    assert_eq!(p.phase, Phase::Aborted);
}

#[test]
fn empty_history_is_nothing_to_do() {
    let (mut p, _) = Pass::start(Vec::new());
    assert_eq!(p.on_retry(None), Action::Done);
    assert_eq!(p.phase, Phase::Finished);
}

#[test]
fn nothing_missing_finishes() {
    let (mut p, _) = Pass::start(history());
    assert_eq!(p.on_retry(None), Action::FindMissing);
    assert_eq!(p.on_missing(Vec::new()), Action::Done);
}
