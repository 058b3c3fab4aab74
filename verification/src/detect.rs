//! Change detection: diffing the current listing against the previously
//! observed baseline to find the identifiers that newly appeared.
//!
//! Detection is by exact string equality, reports additions only (a removed
//! identifier is silently dropped), and has no side effects: the result is a
//! function of the two snapshots alone.

use vstd::prelude::*;

verus! {

/// The identifiers of `current` that are absent from `baseline`, kept in
/// `current`'s order.
pub open spec fn spec_detect(current: Seq<Seq<char>>, baseline: Seq<Seq<char>>) -> Seq<Seq<char>>
    decreases current.len(),
{
    if current.len() == 0 {
        Seq::empty()
    } else {
        let rest = spec_detect(current.drop_last(), baseline);
        if baseline.contains(current.last()) {
            rest
        } else {
            rest.push(current.last())
        }
    }
}

/// Membership under a pushed element splits into the old membership and
/// equality with the new element.
pub proof fn lemma_contains_push<A>(s: Seq<A>, x: A, y: A)
    ensures
        s.push(x).contains(y) <==> s.contains(y) || y == x,
{
    if s.push(x).contains(y) {
        let j = choose|j: int| 0 <= j < s.push(x).len() && s.push(x)[j] == y;
        if j < s.len() {
            assert(s[j] == y);
        }
    }
    if s.contains(y) {
        let j = choose|j: int| 0 <= j < s.len() && s[j] == y;
        assert(s.push(x)[j] == y);
    }
    if y == x {
        assert(s.push(x)[s.len() as int] == y);
    }
}

/// The detected set is exactly the set difference `current \ baseline`,
/// whatever the order of either snapshot's elements.
pub proof fn lemma_detect_is_difference(current: Seq<Seq<char>>, baseline: Seq<Seq<char>>)
    ensures
        forall|id: Seq<char>|
            #[trigger] spec_detect(current, baseline).contains(id) <==> current.contains(id)
                && !baseline.contains(id),
    decreases current.len(),
{
    if current.len() == 0 {
    } else {
        let prefix = current.drop_last();
        let last = current.last();
        lemma_detect_is_difference(prefix, baseline);
        assert(current =~= prefix.push(last));
        assert forall|id: Seq<char>|
            #[trigger] spec_detect(current, baseline).contains(id) <==> current.contains(id)
                && !baseline.contains(id) by {
            lemma_contains_push(prefix, last, id);
            lemma_contains_push(spec_detect(prefix, baseline), last, id);
        }
    }
}

/// Detection is a pure function of its two snapshots: two runs on equal
/// inputs return equal results, and neither snapshot is changed.
pub proof fn lemma_detect_idempotent(
    current1: Seq<Seq<char>>,
    baseline1: Seq<Seq<char>>,
    current2: Seq<Seq<char>>,
    baseline2: Seq<Seq<char>>,
)
    requires
        current1 == current2,
        baseline1 == baseline2,
    ensures
        spec_detect(current1, baseline1) == spec_detect(current2, baseline2),
{
}

/// Membership of `id` in a vector of identifiers, by exact string equality.
pub fn contains_id(v: &Vec<String>, id: &String) -> (r: bool)
    ensures
        r == v.deep_view().contains(id@),
{
    let mut i: usize = 0;
    while i < v.len()
        invariant
            i <= v.len(),
            forall|k: int| 0 <= k < i ==> v.deep_view()[k] != id@,
        decreases v.len() - i,
    {
        if v[i].eq(id) {
            assert(v.deep_view()[i as int] == id@);
            return true;
        }
        i = i + 1;
    }
    false
}

/// Returns the identifiers of `current` that are absent from `baseline`,
/// in `current`'s order: the objects that newly appeared since the
/// baseline snapshot was taken.
pub fn detect(current: &Vec<String>, baseline: &Vec<String>) -> (r: Vec<String>)
    ensures
        r.deep_view() == spec_detect(current.deep_view(), baseline.deep_view()),
{
    let ghost cdv = current.deep_view();
    let ghost bdv = baseline.deep_view();
    let mut r: Vec<String> = Vec::new();
    assert(cdv.take(0) =~= Seq::<Seq<char>>::empty());
    assert(r.deep_view() =~= Seq::<Seq<char>>::empty());
    let mut i: usize = 0;
    while i < current.len()
        invariant
            i <= current.len(),
            cdv == current.deep_view(),
            bdv == baseline.deep_view(),
            r.deep_view() == spec_detect(cdv.take(i as int), bdv),
        decreases current.len() - i,
    {
        let ghost prev = r.deep_view();
        if !contains_id(baseline, &current[i]) {
            r.push(current[i].clone());
            assert(r.deep_view() =~= prev.push(cdv[i as int]));
        }
        proof {
            assert(cdv.take(i + 1).drop_last() =~= cdv.take(i as int));
            assert(cdv.take(i + 1).last() == cdv[i as int]);
        }
        i = i + 1;
    }
    assert(cdv.take(current.len() as int) =~= cdv);
    r
}

} // verus!
