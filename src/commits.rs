//! Choosing which commits to process, and finding a commit by its hash.
use vstd::prelude::*;

use crate::record::Commit;
use crate::text::same_text;

verus! {

/// How many missing commits one invocation processes at most.
pub const MAX_COMMITS_PER_RUN: usize = 3;

/// The time given to a commit that the history does not know:
/// 2000-01-01T00:00:00Z, in seconds since the Unix epoch.
pub const PLACEHOLDER_DATE: i64 = 946684800;

/// The commits of `missing` that one invocation processes: the newest ones,
/// newest first, at most `MAX_COMMITS_PER_RUN` of them.
pub open spec fn selection(missing: Seq<Commit>) -> Seq<Commit> {
    let k = if missing.len() < MAX_COMMITS_PER_RUN { missing.len() } else { MAX_COMMITS_PER_RUN as nat };
    Seq::new(k, |i: int| missing[missing.len() - 1 - i])
}

/// The commits of `s` are in chronological order.
pub open spec fn chronological(s: Seq<Commit>) -> bool {
    forall|i: int, j: int| 0 <= i <= j < s.len() ==> (#[trigger] s[i]).date <= (#[trigger] s[j]).date
}

impl Commit {
    /// A copy of this commit.
    pub fn duplicate(&self) -> (r: Commit)
        ensures
            r == *self,
    {
        Commit { sha: self.sha.clone(), date: self.date }
    }
}

/// Picks the commits to process in this invocation out of those that lack a
/// record, given in chronological order: the newest ones, newest first,
/// bounded by `MAX_COMMITS_PER_RUN`. No commits means nothing to do.
pub fn select_commits(missing: Vec<Commit>) -> (r: Vec<Commit>)
    ensures
        r@ == selection(missing@),
{
    let ghost orig = missing@;
    let mut rest = missing;
    let mut picked: Vec<Commit> = Vec::new();
    while picked.len() < MAX_COMMITS_PER_RUN && rest.len() > 0
        invariant
            picked@.len() <= MAX_COMMITS_PER_RUN,
            picked@.len() + rest@.len() == orig.len(),
            rest@ == orig.subrange(0, rest@.len() as int),
            forall|i: int| 0 <= i < picked@.len() ==> #[trigger] picked@[i] == orig[orig.len() - 1 - i],
        decreases rest@.len(),
    {
        let c = rest.pop().unwrap();
        picked.push(c);
    }
    proof {
        assert(picked@ == selection(orig));
    }
    picked
}

/// The position of the first commit of `commits` whose hash is `sha`.
pub fn find_commit(commits: &Vec<Commit>, sha: &str) -> (r: Option<usize>)
    ensures
        match r {
            Some(i) => i < commits@.len() && commits@[i as int].sha@ == sha@
                && forall|j: int| 0 <= j < i ==> (#[trigger] commits@[j]).sha@ != sha@,
            None => forall|j: int| 0 <= j < commits@.len() ==> (#[trigger] commits@[j]).sha@ != sha@,
        },
{
    let mut i: usize = 0;
    while i < commits.len()
        invariant
            i <= commits@.len(),
            forall|j: int| 0 <= j < i ==> (#[trigger] commits@[j]).sha@ != sha@,
        decreases commits@.len() - i,
    {
        if same_text(commits[i].sha.as_str(), sha) {
            return Some(i);
        }
        i += 1;
    }
    None
}

/// A commit named on the command line: one the history knows, or a
/// placeholder made up for a hash it does not know.
#[derive(Debug, Clone, PartialEq, Eq)]
pub enum ResolvedCommit {
    Known(Commit),
    Placeholder(Commit),
}

impl ResolvedCommit {
    /// The commit itself, whichever way it was found.
    pub fn commit(self) -> (r: Commit)
        ensures
            r == match self {
                ResolvedCommit::Known(c) => c,
                ResolvedCommit::Placeholder(c) => c,
            },
    {
        match self {
            ResolvedCommit::Known(c) => c,
            ResolvedCommit::Placeholder(c) => c,
        }
    }
}

/// Looks `sha` up in the history; where it is not there, stands in a
/// placeholder commit with that hash and `PLACEHOLDER_DATE`.
pub fn resolve_commit(commits: &Vec<Commit>, sha: &str) -> (r: ResolvedCommit)
    ensures
        match r {
            ResolvedCommit::Known(c) => exists|i: int|
                0 <= i < commits@.len() && commits@[i] == c && c.sha@ == sha@
                && forall|j: int| 0 <= j < i ==> (#[trigger] commits@[j]).sha@ != sha@,
            ResolvedCommit::Placeholder(c) => c.sha@ == sha@ && c.date == PLACEHOLDER_DATE
                && forall|j: int| 0 <= j < commits@.len() ==> (#[trigger] commits@[j]).sha@ != sha@,
        },
{
    match find_commit(commits, sha) {
        Some(i) => ResolvedCommit::Known(commits[i].duplicate()),
        None => ResolvedCommit::Placeholder(Commit { sha: sha.to_string(), date: PLACEHOLDER_DATE }),
    }
}

/// At most `MAX_COMMITS_PER_RUN` commits are selected, and of commits in
/// chronological order the selected ones come newest first and are no older
/// than any commit left out.
pub proof fn lemma_selection_newest_first(missing: Seq<Commit>)
    requires
        chronological(missing),
    ensures
        selection(missing).len() <= MAX_COMMITS_PER_RUN,
        forall|i: int, j: int| 0 <= i <= j < selection(missing).len()
            ==> (#[trigger] selection(missing)[i]).date >= (#[trigger] selection(missing)[j]).date,
        forall|i: int, k: int| 0 <= i < selection(missing).len() && 0 <= k < missing.len() - selection(missing).len()
            ==> (#[trigger] missing[k]).date <= (#[trigger] selection(missing)[i]).date,
{
    let s = selection(missing);
    assert forall|i: int, j: int| 0 <= i <= j < s.len() implies (#[trigger] s[i]).date >= (#[trigger] s[j]).date by {
        assert(missing[missing.len() - 1 - j].date <= missing[missing.len() - 1 - i].date);
    }
    assert forall|i: int, k: int| 0 <= i < s.len() && 0 <= k < missing.len() - s.len()
        implies (#[trigger] missing[k]).date <= (#[trigger] s[i]).date by {
        assert(missing[k].date <= missing[missing.len() - 1 - i].date);
    }
}

} // verus!
