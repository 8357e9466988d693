//! The benchmark catalog: which directories are benchmarks, in a fixed order.
use vstd::prelude::*;

use crate::text::{contains_text, lemma_text_le_total, lemma_text_le_transitive, occurs_in, same_text, text_le, text_leq};

verus! {

broadcast use vstd::seq_lib::group_seq_properties, vstd::seq_lib::group_to_multiset_ensures;

/// An entry of the benchmark directory: its name and whether it is a
/// directory itself.
#[derive(Debug, Clone, PartialEq, Eq)]
pub struct DirCandidate {
    pub name: String,
    pub is_dir: bool,
}

/// The view of an optional text argument.
pub open spec fn opt_text(o: Option<&str>) -> Option<Seq<char>> {
    match o {
        Some(s) => Some(s@),
        None => None,
    }
}

/// Whether `e` is a benchmark under the include filter `filter` and the
/// exclude filter `exclude`: a directory, not version-control metadata nor
/// the scripts directory, whose name holds `filter` and does not hold
/// `exclude`.
pub open spec fn accepted(e: DirCandidate, filter: Option<Seq<char>>, exclude: Option<Seq<char>>) -> bool {
    &&& e.is_dir
    &&& e.name@ != ".git"@
    &&& e.name@ != "scripts"@
    &&& filter matches Some(f) ==> occurs_in(f, e.name@)
    &&& exclude matches Some(x) ==> !occurs_in(x, e.name@)
}

/// Holds of the entries that `accepted` keeps.
pub open spec fn accepts(filter: Option<Seq<char>>, exclude: Option<Seq<char>>) -> spec_fn(DirCandidate) -> bool {
    |e: DirCandidate| accepted(e, filter, exclude)
}

/// The names of `s`.
pub open spec fn names(s: Seq<DirCandidate>) -> Seq<String> {
    s.map_values(|e: DirCandidate| e.name)
}

/// The texts of `s` are in lexicographic order.
pub open spec fn sorted_texts(s: Seq<String>) -> bool {
    forall|i: int, j: int| 0 <= i < j < s.len() ==> text_le((#[trigger] s[i])@, (#[trigger] s[j])@)
}

/// Inserting an element adds it to the multiset.
proof fn lemma_insert_multiset<A>(s: Seq<A>, p: int, x: A)
    requires
        0 <= p <= s.len(),
    ensures
        s.insert(p, x).to_multiset() == s.to_multiset().insert(x),
{
    let a = s.subrange(0, p);
    let b = s.subrange(p, s.len() as int);
    assert(s == a + b);
    vstd::seq_lib::lemma_multiset_commutative(a, b);
    vstd::seq_lib::lemma_multiset_commutative(a.push(x), b);
    assert(a.push(x).to_multiset() == a.to_multiset().insert(x));
    assert(s.insert(p, x).to_multiset() =~= s.to_multiset().insert(x));
}

/// Puts `x` into the sorted `v`, after every name that comes no later.
fn insert_sorted(v: &mut Vec<String>, x: String)
    requires
        sorted_texts(old(v)@),
    ensures
        sorted_texts(final(v)@),
        final(v)@.to_multiset() == old(v)@.to_multiset().insert(x),
{
    let mut p: usize = 0;
    while p < v.len() && text_leq(v[p].as_str(), x.as_str())
        invariant
            p <= v@.len(),
            forall|i: int| 0 <= i < p ==> text_le((#[trigger] v@[i])@, x@),
        decreases v@.len() - p,
    {
        p += 1;
    }
    let ghost pre = v@;
    proof {
        if p < pre.len() {
            lemma_text_le_total(pre[p as int]@, x@);
        }
        lemma_insert_multiset(pre, p as int, x);
    }
    v.insert(p, x);
    proof {
        pre.insert_ensures(p as int, x);
        let s = v@;
        assert forall|i: int, j: int| 0 <= i < j < s.len() implies text_le((#[trigger] s[i])@, (#[trigger] s[j])@) by {
            if j < p {
                assert(s[i] == pre[i] && s[j] == pre[j]);
            } else if j == p {
                assert(s[i] == pre[i]);
            } else if i == p {
                assert(s[j] == pre[j - 1]);
                if j - 1 > p {
                    lemma_text_le_transitive(x@, pre[p as int]@, pre[j - 1]@);
                }
            } else if i < p {
                assert(s[i] == pre[i] && s[j] == pre[j - 1]);
                assert(text_le(pre[i]@, x@));
                lemma_text_le_total(pre[p as int]@, x@);
                if j - 1 > p {
                    lemma_text_le_transitive(x@, pre[p as int]@, pre[j - 1]@);
                }
                lemma_text_le_transitive(pre[i]@, x@, pre[j - 1]@);
            } else {
                assert(s[i] == pre[i - 1] && s[j] == pre[j - 1]);
            }
        }
    }
}

/// The benchmarks among the directory entries `entries`, by name in
/// lexicographic order: directories other than `.git` and `scripts`, whose
/// names hold `filter` (where given) and do not hold `exclude` (where given).
pub fn select_benchmarks(entries: Vec<DirCandidate>, filter: Option<&str>, exclude: Option<&str>) -> (r: Vec<String>)
    ensures
        sorted_texts(r@),
        r@.to_multiset() == names(entries@.filter(accepts(opt_text(filter), opt_text(exclude)))).to_multiset(),
{
    let ghost orig = entries@;
    let ghost pred = accepts(opt_text(filter), opt_text(exclude));
    let mut rest = entries;
    let mut out: Vec<String> = Vec::new();
    while rest.len() > 0
        invariant
            rest@.len() <= orig.len(),
            rest@ == orig.subrange(orig.len() - rest@.len(), orig.len() as int),
            pred == accepts(opt_text(filter), opt_text(exclude)),
            sorted_texts(out@),
            out@.to_multiset() == names(orig.subrange(0, orig.len() - rest@.len()).filter(pred)).to_multiset(),
        decreases rest@.len(),
    {
        let ghost done = orig.len() - rest@.len();
        let e = rest.remove(0);
        proof {
            let pre = orig.subrange(0, done);
            assert(orig.subrange(0, done + 1) == pre.push(e));
            pre.lemma_filter_push(e, pred);
            assert(names(pre.filter(pred).push(e)) == names(pre.filter(pred)).push(e.name));
        }
        if is_benchmark(&e, filter, exclude) {
            insert_sorted(&mut out, e.name);
        }
    }
    proof {
        assert(orig.subrange(0, orig.len() as int) == orig);
    }
    out
}

/// Whether the directory entry `e` is a benchmark under the two filters.
pub fn is_benchmark(e: &DirCandidate, filter: Option<&str>, exclude: Option<&str>) -> (r: bool)
    ensures
        r == accepted(*e, opt_text(filter), opt_text(exclude)),
{
    if !e.is_dir || same_text(e.name.as_str(), ".git") || same_text(e.name.as_str(), "scripts") {
        return false;
    }
    if let Some(f) = filter {
        if !contains_text(e.name.as_str(), f) {
            return false;
        }
    }
    if let Some(x) = exclude {
        if contains_text(e.name.as_str(), x) {
            return false;
        }
    }
    true
}

/// `n` is the name of an entry that the filters accept.
pub open spec fn is_accepted_name(entries: Seq<DirCandidate>, filter: Option<Seq<char>>, exclude: Option<Seq<char>>, n: String) -> bool {
    exists|j: int| 0 <= j < entries.len() && (#[trigger] entries[j]).name == n && accepted(entries[j], filter, exclude)
}

/// No entry that the filters leave out, nor any name that is not an entry's,
/// is in the catalog, and every accepted entry is.
pub proof fn lemma_catalog_exact(entries: Seq<DirCandidate>, filter: Option<Seq<char>>, exclude: Option<Seq<char>>, r: Seq<String>)
    requires
        r.to_multiset() == names(entries.filter(accepts(filter, exclude))).to_multiset(),
    ensures
        forall|i: int| 0 <= i < r.len() ==> is_accepted_name(entries, filter, exclude, #[trigger] r[i]),
        forall|j: int| 0 <= j < entries.len() && accepted(#[trigger] entries[j], filter, exclude) ==> r.contains(entries[j].name),
{
    let p = accepts(filter, exclude);
    let f = entries.filter(p);
    assert forall|i: int| 0 <= i < r.len() implies is_accepted_name(entries, filter, exclude, #[trigger] r[i]) by {
        assert(r.contains(r[i]));
        assert(r.to_multiset().count(r[i]) > 0);
        assert(names(f).contains(r[i]));
        let k = choose|k: int| 0 <= k < names(f).len() && names(f)[k] == r[i];
        entries.lemma_filter_contains_rev(p, f[k]);
        assert(f.contains(f[k]));
        assert(entries.contains(f[k]));
        let j = choose|j: int| 0 <= j < entries.len() && entries[j] == f[k];
        assert(names(f)[k] == f[k].name);
        assert(entries[j].name == r[i] && accepted(entries[j], filter, exclude));
    }
    assert forall|j: int| 0 <= j < entries.len() && accepted(#[trigger] entries[j], filter, exclude) implies r.contains(entries[j].name) by {
        entries.lemma_filter_contains(p, j);
        assert(f.contains(entries[j]));
        let k = choose|k: int| 0 <= k < f.len() && f[k] == entries[j];
        assert(names(f)[k] == entries[j].name);
        assert(names(f).contains(entries[j].name));
        assert(names(f).to_multiset().count(entries[j].name) > 0);
    }
}

} // verus!
