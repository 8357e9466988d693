//! Stored per-commit results: one outcome per benchmark name.
use vstd::prelude::*;

use crate::text::same_text;

verus! {

broadcast use vstd::seq_lib::group_seq_properties;

/// The stored result of running one benchmark.
#[derive(Debug, Clone, PartialEq, Eq)]
pub enum Outcome {
    /// The measured metrics, in their serialised form.
    Success(String),
    /// A free-form diagnostic of why the run failed.
    Failure(String),
}

/// One benchmark's outcome within a record.
#[derive(Debug, Clone, PartialEq, Eq)]
pub struct Entry {
    pub name: String,
    pub outcome: Outcome,
}

/// Whether some entry of `s` is named `n`.
pub open spec fn has_name(s: Seq<Entry>, n: Seq<char>) -> bool {
    exists|i: int| 0 <= i < s.len() && (#[trigger] s[i]).name@ == n
}

/// No two entries of `s` share a name.
pub open spec fn names_unique(s: Seq<Entry>) -> bool {
    forall|i: int, j: int|
        0 <= i < s.len() && 0 <= j < s.len() && i != j ==> (#[trigger] s[i]).name@ != (#[trigger] s[j]).name@
}

/// The entries of `s` that hold a success.
pub open spec fn successes(s: Seq<Entry>) -> Seq<Entry> {
    s.filter(|e: Entry| e.outcome is Success)
}

/// Holds of the entries not named `n`.
pub open spec fn not_named(n: Seq<char>) -> spec_fn(Entry) -> bool {
    |e: Entry| e.name@ != n
}

/// The entries of `s` not named `n`.
pub open spec fn without_name(s: Seq<Entry>, n: Seq<char>) -> Seq<Entry> {
    s.filter(not_named(n))
}

/// A commit as the library sees it: its hash and its time, in seconds since
/// the Unix epoch (UTC).
#[derive(Debug, Clone, PartialEq, Eq)]
pub struct Commit {
    pub sha: String,
    pub date: i64,
}

/// The outcomes of one commit on one target platform.
#[derive(Debug, Clone, PartialEq, Eq)]
pub struct CommitRecord {
    pub commit: Commit,
    pub triple: String,
    pub benchmarks: Vec<Entry>,
}

impl CommitRecord {
    /// Benchmark names are keys: each occurs once.
    pub open spec fn wf(&self) -> bool {
        names_unique(self.benchmarks@)
    }

    /// Drops every failed outcome, keeping the successes in their order.
    pub fn remove_errors(&mut self)
        ensures
            final(self).commit == old(self).commit,
            final(self).triple == old(self).triple,
            final(self).benchmarks@ == successes(old(self).benchmarks@),
            old(self).wf() ==> final(self).wf(),
    {
        let mut rest: Vec<Entry> = Vec::new();
        core::mem::swap(&mut rest, &mut self.benchmarks);
        let ghost orig = rest@;
        let mut kept: Vec<Entry> = Vec::new();
        while rest.len() > 0
            invariant
                rest@.len() <= orig.len(),
                rest@ == orig.subrange(orig.len() - rest@.len(), orig.len() as int),
                kept@ == successes(orig.subrange(0, orig.len() - rest@.len())),
            decreases rest@.len(),
        {
            let ghost done = orig.len() - rest@.len();
            let e = rest.remove(0);
            proof {
                assert(orig.subrange(0, done + 1) == orig.subrange(0, done).push(e));
                orig.subrange(0, done).lemma_filter_push(e, |e: Entry| e.outcome is Success);
            }
            if matches!(e.outcome, Outcome::Success(_)) {
                kept.push(e);
            }
        }
        proof {
            assert(orig.subrange(0, orig.len() as int) == orig);
            if names_unique(orig) {
                lemma_filter_unique(orig, |e: Entry| e.outcome is Success);
            }
        }
        self.benchmarks = kept;
    }

    /// Drops the entry named `name`, if there is one; the result says whether
    /// there was.
    pub fn remove_benchmark(&mut self, name: &str) -> (removed: bool)
        ensures
            removed == has_name(old(self).benchmarks@, name@),
            final(self).commit == old(self).commit,
            final(self).triple == old(self).triple,
            final(self).benchmarks@ == without_name(old(self).benchmarks@, name@),
            old(self).wf() ==> final(self).wf(),
    {
        let mut rest: Vec<Entry> = Vec::new();
        core::mem::swap(&mut rest, &mut self.benchmarks);
        let ghost orig = rest@;
        let mut kept: Vec<Entry> = Vec::new();
        let mut removed = false;
        while rest.len() > 0
            invariant
                rest@.len() <= orig.len(),
                rest@ == orig.subrange(orig.len() - rest@.len(), orig.len() as int),
                kept@ == without_name(orig.subrange(0, orig.len() - rest@.len()), name@),
                removed == has_name(orig.subrange(0, orig.len() - rest@.len()), name@),
            decreases rest@.len(),
        {
            let ghost done = orig.len() - rest@.len();
            let e = rest.remove(0);
            proof {
                let pre = orig.subrange(0, done);
                assert(orig.subrange(0, done + 1) == pre.push(e));
                pre.lemma_filter_push(e, not_named(name@));
                if has_name(pre.push(e), name@) && !has_name(pre, name@) {
                    let i = choose|i: int| 0 <= i < pre.push(e).len() && (#[trigger] pre.push(e)[i]).name@ == name@;
                    assert(i == pre.len());
                }
                if has_name(pre, name@) {
                    let i = choose|i: int| 0 <= i < pre.len() && (#[trigger] pre[i]).name@ == name@;
                    assert(pre.push(e)[i] == pre[i]);
                }
                if e.name@ == name@ {
                    assert(pre.push(e)[pre.len() as int] == e);
                }
            }
            if same_text(e.name.as_str(), name) {
                removed = true;
            } else {
                kept.push(e);
            }
        }
        proof {
            assert(orig.subrange(0, orig.len() as int) == orig);
            if names_unique(orig) {
                lemma_filter_unique(orig, not_named(name@));
            }
        }
        self.benchmarks = kept;
        removed
    }
}

/// Filtering by a predicate that every element meets changes nothing.
pub proof fn lemma_filter_all<A>(s: Seq<A>, p: spec_fn(A) -> bool)
    requires
        forall|i: int| 0 <= i < s.len() ==> p(#[trigger] s[i]),
    ensures
        s.filter(p) == s,
    decreases s.len(),
{
    if s.len() > 0 {
        lemma_filter_all(s.drop_last(), p);
        s.drop_last().lemma_filter_push(s.last(), p);
        assert(s.drop_last().push(s.last()) == s);
    }
}

/// Filtering keeps names unique.
pub proof fn lemma_filter_unique(s: Seq<Entry>, p: spec_fn(Entry) -> bool)
    requires
        names_unique(s),
    ensures
        names_unique(s.filter(p)),
    decreases s.len(),
{
    if s.len() > 0 {
        let init = s.drop_last();
        assert(names_unique(init)) by {
            assert forall|i: int, j: int|
                0 <= i < init.len() && 0 <= j < init.len() && i != j implies
                (#[trigger] init[i]).name@ != (#[trigger] init[j]).name@ by {
                assert(init[i] == s[i] && init[j] == s[j]);
            }
        }
        lemma_filter_unique(init, p);
        init.lemma_filter_push(s.last(), p);
        assert(init.push(s.last()) == s);
        if p(s.last()) {
            let f = init.filter(p);
            let g = f.push(s.last());
            assert forall|i: int, j: int|
                0 <= i < g.len() && 0 <= j < g.len() && i != j implies
                (#[trigger] g[i]).name@ != (#[trigger] g[j]).name@ by {
                if i < f.len() && j < f.len() {
                    assert(g[i] == f[i] && g[j] == f[j]);
                } else {
                    let k = if i < f.len() { i } else { j };
                    assert(g[k] == f[k]);
                    init.lemma_filter_contains_rev(p, f[k]);
                    assert(f.contains(f[k]));
                    let m = choose|m: int| 0 <= m < init.len() && init[m] == f[k];
                    assert(s[m] == init[m]);
                    assert(s[s.len() - 1] == s.last());
                }
            }
        }
    }
}

/// Removing failures a second time removes nothing more.
pub proof fn lemma_remove_errors_idempotent(s: Seq<Entry>)
    ensures
        successes(successes(s)) == successes(s),
{
    let p = |e: Entry| e.outcome is Success;
    s.filter_lemma(p);
    lemma_filter_all(s.filter(p), p);
}

/// Removing a benchmark that a record does not hold leaves the record as it
/// was.
pub proof fn lemma_remove_absent_benchmark(s: Seq<Entry>, n: Seq<char>)
    requires
        !has_name(s, n),
    ensures
        without_name(s, n) == s,
{
    let p = not_named(n);
    assert forall|i: int| 0 <= i < s.len() implies p(#[trigger] s[i]) by {
        if !p(s[i]) {
            assert(s[i].name@ == n);
            assert(has_name(s, n));
        }
    }
    lemma_filter_all(s, p);
}

} // verus!
