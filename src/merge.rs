//! Building a commit's record from the catalog: outcomes that an earlier
//! record already holds are carried forward, and only the rest are run.
use vstd::prelude::*;

use crate::record::{has_name, names_unique, lemma_filter_all, lemma_filter_unique, Commit, CommitRecord, Entry, Outcome};
use crate::text::same_text;

verus! {

broadcast use vstd::seq_lib::group_seq_properties;

/// Whether the catalog `c` lists a benchmark named `n`.
pub open spec fn in_catalog(c: Seq<String>, n: Seq<char>) -> bool {
    exists|i: int| 0 <= i < c.len() && (#[trigger] c[i])@ == n
}

/// Holds of the entries whose benchmark the catalog `c` lists.
pub open spec fn listed(c: Seq<String>) -> spec_fn(Entry) -> bool {
    |e: Entry| in_catalog(c, e.name@)
}

/// Every benchmark of the catalog `c` has an entry in `s`.
pub open spec fn covers(s: Seq<Entry>, c: Seq<String>) -> bool {
    forall|i: int| 0 <= i < c.len() ==> has_name(s, (#[trigger] c[i])@)
}

/// A record's outcomes under construction for one catalog.
pub struct Merge {
    pub catalog: Vec<String>,
    pub results: Vec<Entry>,
}

impl Merge {
    /// Names are unique, and each is a benchmark of the catalog.
    pub open spec fn wf(&self) -> bool {
        &&& names_unique(self.results@)
        &&& forall|i: int| 0 <= i < self.results@.len() ==> in_catalog(self.catalog@, (#[trigger] self.results@[i]).name@)
    }

    /// Every benchmark of the catalog has an outcome.
    pub open spec fn complete(&self) -> bool {
        covers(self.results@, self.catalog@)
    }

    /// Starts from the outcomes that `prior` holds for benchmarks of the
    /// catalog, in the order of `prior`; with no prior record, from none.
    pub fn new(catalog: Vec<String>, prior: Option<CommitRecord>) -> (m: Merge)
        requires
            prior matches Some(p) ==> p.wf(),
        ensures
            m.wf(),
            m.catalog@ == catalog@,
            m.results@ == match prior {
                Some(p) => p.benchmarks@.filter(listed(catalog@)),
                None => Seq::<Entry>::empty(),
            },
    {
        let mut results: Vec<Entry> = Vec::new();
        match prior {
            None => {},
            Some(p) => {
                let ghost orig = p.benchmarks@;
                let mut rest = p.benchmarks;
                while rest.len() > 0
                    invariant
                        rest@.len() <= orig.len(),
                        rest@ == orig.subrange(orig.len() - rest@.len(), orig.len() as int),
                        results@ == orig.subrange(0, orig.len() - rest@.len()).filter(listed(catalog@)),
                    decreases rest@.len(),
                {
                    let ghost done = orig.len() - rest@.len();
                    let e = rest.remove(0);
                    proof {
                        let pre = orig.subrange(0, done);
                        assert(orig.subrange(0, done + 1) == pre.push(e));
                        pre.lemma_filter_push(e, listed(catalog@));
                    }
                    if catalog_index(&catalog, e.name.as_str()).is_some() {
                        results.push(e);
                    }
                }
                proof {
                    assert(orig.subrange(0, orig.len() as int) == orig);
                    lemma_filter_unique(orig, listed(catalog@));
                    orig.filter_lemma(listed(catalog@));
                }
            },
        }
        Merge { catalog, results }
    }

    /// The first benchmark of the catalog that has no outcome yet, or `None`
    /// when every one has.
    pub fn next_pending(&self) -> (r: Option<usize>)
        ensures
            match r {
                Some(i) => i < self.catalog@.len() && !has_name(self.results@, self.catalog@[i as int]@)
                    && forall|j: int| 0 <= j < i ==> has_name(self.results@, (#[trigger] self.catalog@[j])@),
                None => self.complete(),
            },
    {
        let mut i: usize = 0;
        while i < self.catalog.len()
            invariant
                i <= self.catalog@.len(),
                forall|j: int| 0 <= j < i ==> has_name(self.results@, (#[trigger] self.catalog@[j])@),
            decreases self.catalog@.len() - i,
        {
            if !entry_named(&self.results, self.catalog[i].as_str()) {
                return Some(i);
            }
            i += 1;
        }
        None
    }

    /// Records the outcome of running the `i`-th benchmark of the catalog.
    pub fn record(&mut self, i: usize, outcome: Outcome)
        requires
            old(self).wf(),
            i < old(self).catalog@.len(),
            !has_name(old(self).results@, old(self).catalog@[i as int]@),
        ensures
            final(self).wf(),
            final(self).catalog@ == old(self).catalog@,
            final(self).results@.len() == old(self).results@.len() + 1,
            final(self).results@.drop_last() == old(self).results@,
            final(self).results@.last().name@ == old(self).catalog@[i as int]@,
            final(self).results@.last().outcome == outcome,
    {
        let name = self.catalog[i].clone();
        let ghost pre = self.results@;
        self.results.push(Entry { name, outcome });
        proof {
            assert(self.results@.drop_last() == pre);
            assert(in_catalog(self.catalog@, self.catalog@[i as int]@));
            assert forall|a: int, b: int|
                0 <= a < self.results@.len() && 0 <= b < self.results@.len() && a != b implies
                (#[trigger] self.results@[a]).name@ != (#[trigger] self.results@[b]).name@ by {
                if a < pre.len() && b < pre.len() {
                    assert(self.results@[a] == pre[a] && self.results@[b] == pre[b]);
                } else if a < pre.len() {
                    assert(self.results@[a] == pre[a]);
                } else {
                    assert(self.results@[b] == pre[b]);
                }
            }
            assert forall|a: int| 0 <= a < self.results@.len() implies in_catalog(self.catalog@, (#[trigger] self.results@[a]).name@) by {
                if a < pre.len() {
                    assert(self.results@[a] == pre[a]);
                }
            }
        }
    }

    /// How many benchmarks of the catalog are still to run.
    pub fn remaining(&self) -> (r: usize)
        ensures
            r == if self.results@.len() <= self.catalog@.len() {
                self.catalog@.len() - self.results@.len()
            } else {
                0
            },
    {
        self.catalog.len().saturating_sub(self.results.len())
    }

    /// The finished record of `commit` on the platform `triple`.
    pub fn finish(self, commit: Commit, triple: String) -> (r: CommitRecord)
        requires
            self.wf(),
        ensures
            r.wf(),
            r.commit == commit,
            r.triple == triple,
            r.benchmarks@ == self.results@,
            self.complete() ==> covers(r.benchmarks@, self.catalog@),
    {
        CommitRecord { commit, triple, benchmarks: self.results }
    }
}

/// The position of the first benchmark of `catalog` named `name`.
pub fn catalog_index(catalog: &Vec<String>, name: &str) -> (r: Option<usize>)
    ensures
        r is Some <==> in_catalog(catalog@, name@),
        r matches Some(i) ==> i < catalog@.len() && catalog@[i as int]@ == name@,
{
    let mut i: usize = 0;
    while i < catalog.len()
        invariant
            i <= catalog@.len(),
            forall|j: int| 0 <= j < i ==> (#[trigger] catalog@[j])@ != name@,
        decreases catalog@.len() - i,
    {
        if same_text(catalog[i].as_str(), name) {
            return Some(i);
        }
        i += 1;
    }
    None
}

/// Whether `record` has an outcome for every benchmark of `catalog`; a
/// commit whose record lacks one still has work to do.
pub fn record_covers(record: &CommitRecord, catalog: &Vec<String>) -> (r: bool)
    ensures
        r == covers(record.benchmarks@, catalog@),
{
    let mut i: usize = 0;
    while i < catalog.len()
        invariant
            i <= catalog@.len(),
            forall|j: int| 0 <= j < i ==> has_name(record.benchmarks@, (#[trigger] catalog@[j])@),
        decreases catalog@.len() - i,
    {
        if !entry_named(&record.benchmarks, catalog[i].as_str()) {
            return false;
        }
        i += 1;
    }
    true
}

/// Whether some entry of `entries` is named `name`.
pub fn entry_named(entries: &Vec<Entry>, name: &str) -> (r: bool)
    ensures
        r == has_name(entries@, name@),
{
    let mut i: usize = 0;
    while i < entries.len()
        invariant
            i <= entries@.len(),
            forall|j: int| 0 <= j < i ==> (#[trigger] entries@[j]).name@ != name@,
        decreases entries@.len() - i,
    {
        if same_text(entries[i].name.as_str(), name) {
            return true;
        }
        i += 1;
    }
    false
}

/// Seeding a pass from the record that a complete pass over the same catalog
/// produced keeps every outcome as it is and leaves nothing to run.
pub proof fn lemma_merge_idempotent(catalog: Seq<String>, done: Seq<Entry>)
    requires
        covers(done, catalog),
        forall|i: int| 0 <= i < done.len() ==> in_catalog(catalog, (#[trigger] done[i]).name@),
    ensures
        done.filter(listed(catalog)) == done,
        covers(done.filter(listed(catalog)), catalog),
{
    assert forall|i: int| 0 <= i < done.len() implies #[trigger] listed(catalog)(done[i]) by {
        assert(in_catalog(catalog, done[i].name@));
    }
    lemma_filter_all(done, listed(catalog));
}

} // verus!
