//! Grouping newly-appeared identifiers into logical units keyed by the
//! prefix before the first separator token.
//!
//! Identifiers lacking the separator are dropped. Within a group, members
//! keep the order in which they were discovered in this tick's listing;
//! groups appear in order of their key's first appearance.

use vstd::prelude::*;
use crate::detect::lemma_contains_push;
use crate::ids::has_sep;
use crate::ids::key_of;
use crate::ids::unit_key;

verus! {

/// A logical unit: the identifiers that share one derived key.
pub struct Group {
    pub key: String,
    pub members: Vec<String>,
}

impl View for Group {
    type V = (Seq<char>, Seq<Seq<char>>);

    open spec fn view(&self) -> Self::V {
        (self.key@, self.members.deep_view())
    }
}

impl DeepView for Group {
    type V = (Seq<char>, Seq<Seq<char>>);

    open spec fn deep_view(&self) -> Self::V {
        self.view()
    }
}

/// The identifiers of `ids` whose derived key is `k`, in order.
pub open spec fn ids_with_key(ids: Seq<Seq<char>>, k: Seq<char>) -> Seq<Seq<char>>
    decreases ids.len(),
{
    if ids.len() == 0 {
        Seq::empty()
    } else {
        let rest = ids_with_key(ids.drop_last(), k);
        if has_sep(ids.last()) && key_of(ids.last()) == k {
            rest.push(ids.last())
        } else {
            rest
        }
    }
}

/// Every key derived from `ids`, in order of first appearance, each once.
pub open spec fn keys_in_order(ids: Seq<Seq<char>>) -> Seq<Seq<char>>
    decreases ids.len(),
{
    if ids.len() == 0 {
        Seq::empty()
    } else {
        let rest = keys_in_order(ids.drop_last());
        if has_sep(ids.last()) && !rest.contains(key_of(ids.last())) {
            rest.push(key_of(ids.last()))
        } else {
            rest
        }
    }
}

/// `gs` is the grouping of `ids`: one group per derived key, in order of
/// first appearance, each holding exactly the identifiers with that key.
pub open spec fn grouped(ids: Seq<Seq<char>>, gs: Seq<(Seq<char>, Seq<Seq<char>>)>) -> bool {
    &&& gs.len() == keys_in_order(ids).len()
    &&& forall|i: int| 0 <= i < gs.len() ==> (#[trigger] gs[i].0) == keys_in_order(ids)[i]
    &&& forall|i: int| 0 <= i < gs.len() ==> (#[trigger] gs[i].1) == ids_with_key(ids, gs[i].0)
}

/// The grouping of `ids` as one value: for each derived key, in order of
/// first appearance, the identifiers carrying it.
pub open spec fn spec_group(ids: Seq<Seq<char>>) -> Seq<(Seq<char>, Seq<Seq<char>>)> {
    Seq::new(
        keys_in_order(ids).len(),
        |i: int| (keys_in_order(ids)[i], ids_with_key(ids, keys_in_order(ids)[i])),
    )
}

/// `grouped` pins the grouping down to exactly `spec_group`.
pub proof fn lemma_grouped_is_spec_group(ids: Seq<Seq<char>>, gs: Seq<(Seq<char>, Seq<Seq<char>>)>)
    requires
        grouped(ids, gs),
    ensures
        gs == spec_group(ids),
{
    assert forall|i: int| 0 <= i < gs.len() implies gs[i] == spec_group(ids)[i] by {
        assert(gs[i].0 == keys_in_order(ids)[i]);
        assert(gs[i].1 == ids_with_key(ids, gs[i].0));
    }
    assert(gs =~= spec_group(ids));
}

/// The derived keys are distinct: no key appears twice in `keys_in_order`.
pub proof fn lemma_keys_distinct(ids: Seq<Seq<char>>)
    ensures
        forall|i: int, j: int|
            0 <= i < j < keys_in_order(ids).len() ==> keys_in_order(ids)[i] != keys_in_order(
                ids,
            )[j],
    decreases ids.len(),
{
    if ids.len() == 0 {
    } else {
        let rest = keys_in_order(ids.drop_last());
        lemma_keys_distinct(ids.drop_last());
        if has_sep(ids.last()) && !rest.contains(key_of(ids.last())) {
            assert forall|i: int, j: int|
                0 <= i < j < keys_in_order(ids).len() implies keys_in_order(ids)[i]
                != keys_in_order(ids)[j] by {
                if j == rest.len() {
                    assert(rest[i] == keys_in_order(ids)[i]);
                }
            }
        }
    }
}

/// A group member is an identifier of `ids` that carries the separator and
/// whose derived key is the group's key — and conversely.
pub proof fn lemma_ids_with_key_members(ids: Seq<Seq<char>>, k: Seq<char>)
    ensures
        forall|id: Seq<char>|
            #[trigger] ids_with_key(ids, k).contains(id) <==> ids.contains(id) && has_sep(id)
                && key_of(id) == k,
    decreases ids.len(),
{
    if ids.len() == 0 {
    } else {
        let prefix = ids.drop_last();
        let last = ids.last();
        lemma_ids_with_key_members(prefix, k);
        assert(ids =~= prefix.push(last));
        assert forall|id: Seq<char>|
            #[trigger] ids_with_key(ids, k).contains(id) <==> ids.contains(id) && has_sep(id)
                && key_of(id) == k by {
            lemma_contains_push(prefix, last, id);
            lemma_contains_push(ids_with_key(prefix, k), last, id);
        }
    }
}

/// The key of every separator-carrying identifier of `ids` appears in
/// `keys_in_order(ids)`.
pub proof fn lemma_key_in_keys(ids: Seq<Seq<char>>)
    ensures
        forall|id: Seq<char>|
            ids.contains(id) && has_sep(id) ==> keys_in_order(ids).contains(#[trigger] key_of(id)),
    decreases ids.len(),
{
    if ids.len() == 0 {
    } else {
        let prefix = ids.drop_last();
        let last = ids.last();
        let rest = keys_in_order(prefix);
        lemma_key_in_keys(prefix);
        assert(ids =~= prefix.push(last));
        assert forall|id: Seq<char>|
            ids.contains(id) && has_sep(id) implies keys_in_order(ids).contains(
            #[trigger] key_of(id)) by {
            lemma_contains_push(prefix, last, id);
            if prefix.contains(id) {
                assert(rest.contains(key_of(id)));
                if has_sep(last) && !rest.contains(key_of(last)) {
                    lemma_contains_push(rest, key_of(last), key_of(id));
                }
            } else {
                if rest.contains(key_of(last)) {
                } else {
                    lemma_contains_push(rest, key_of(last), key_of(id));
                }
            }
        }
    }
}

/// A key absent from `keys_in_order(ids)` groups no identifier at all.
pub proof fn lemma_absent_key_empty(ids: Seq<Seq<char>>, k: Seq<char>)
    requires
        !keys_in_order(ids).contains(k),
    ensures
        ids_with_key(ids, k) =~= Seq::<Seq<char>>::empty(),
    decreases ids.len(),
{
    if ids.len() == 0 {
    } else {
        let prefix = ids.drop_last();
        let last = ids.last();
        let rest = keys_in_order(prefix);
        if has_sep(last) && !rest.contains(key_of(last)) {
            lemma_contains_push(rest, key_of(last), k);
        }
        assert(!rest.contains(k));
        lemma_absent_key_empty(prefix, k);
        assert(!(has_sep(last) && key_of(last) == k));
    }
}

/// The partition law: grouping puts every separator-carrying identifier in
/// exactly one group — the one keyed by its prefix — keeps group keys
/// distinct, and admits no member from outside `ids` and none lacking the
/// separator.
pub proof fn lemma_group_partitions(ids: Seq<Seq<char>>, gs: Seq<(Seq<char>, Seq<Seq<char>>)>)
    requires
        grouped(ids, gs),
    ensures
        forall|i: int, j: int| 0 <= i < j < gs.len() ==> gs[i].0 != gs[j].0,
        forall|id: Seq<char>|
            ids.contains(id) && #[trigger] has_sep(id) ==> exists|i: int|
                0 <= i < gs.len() && gs[i].0 == key_of(id) && #[trigger] gs[i].1.contains(id),
        forall|i: int, id: Seq<char>|
            0 <= i < gs.len() && #[trigger] gs[i].1.contains(id) ==> ids.contains(id) && has_sep(
                id,
            ) && key_of(id) == gs[i].0,
        forall|i: int, j: int, id: Seq<char>|
            0 <= i < gs.len() && 0 <= j < gs.len() && #[trigger] gs[i].1.contains(id)
                && #[trigger] gs[j].1.contains(id) ==> i == j,
{
    lemma_keys_distinct(ids);
    lemma_key_in_keys(ids);
    assert forall|i: int, id: Seq<char>|
        0 <= i < gs.len() implies ((#[trigger] gs[i].1.contains(id)) <==> ids.contains(id)
        && has_sep(id) && key_of(id) == gs[i].0) by {
        lemma_ids_with_key_members(ids, gs[i].0);
    }
    assert forall|id: Seq<char>|
        ids.contains(id) && #[trigger] has_sep(id) implies exists|i: int|
        0 <= i < gs.len() && gs[i].0 == key_of(id) && #[trigger] gs[i].1.contains(id) by {
        assert(keys_in_order(ids).contains(key_of(id)));
        let i = choose|i: int|
            0 <= i < keys_in_order(ids).len() && keys_in_order(ids)[i] == key_of(id);
        assert(gs[i].0 == key_of(id));
        assert(gs[i].1.contains(id));
    }
}

/// Clones a vector of identifiers.
pub fn clone_ids(v: &Vec<String>) -> (r: Vec<String>)
    ensures
        r.deep_view() == v.deep_view(),
{
    let mut r: Vec<String> = Vec::new();
    assert(r.deep_view() =~= v.deep_view().take(0));
    let mut i: usize = 0;
    while i < v.len()
        invariant
            i <= v.len(),
            r.deep_view() == v.deep_view().take(i as int),
        decreases v.len() - i,
    {
        let ghost prev = r.deep_view();
        r.push(v[i].clone());
        proof {
            assert(r.deep_view() =~= prev.push(v.deep_view()[i as int]));
            assert(v.deep_view().take(i + 1) =~= v.deep_view().take(i as int).push(
                v.deep_view()[i as int],
            ));
        }
        i = i + 1;
    }
    assert(v.deep_view().take(v.len() as int) =~= v.deep_view());
    r
}

impl Group {
    /// An owned copy of this group.
    pub fn duplicate(&self) -> (r: Group)
        ensures
            r@ == self@,
    {
        Group { key: self.key.clone(), members: clone_ids(&self.members) }
    }
}

/// Finds the group of `gs` whose key is `k`, scanning in order.
fn find_group(gs: &Vec<Group>, k: &String) -> (r: Option<usize>)
    ensures
        match r {
            Some(j) => j < gs.len() && gs.deep_view()[j as int].0 == k@,
            None => forall|m: int| 0 <= m < gs.len() ==> gs.deep_view()[m].0 != k@,
        },
{
    let mut j: usize = 0;
    while j < gs.len()
        invariant
            j <= gs.len(),
            forall|m: int| 0 <= m < j ==> gs.deep_view()[m].0 != k@,
        decreases gs.len() - j,
    {
        if gs[j].key.eq(k) {
            assert(gs.deep_view()[j as int].0 == k@);
            return Some(j);
        }
        j = j + 1;
    }
    None
}

/// Partitions this tick's newly-appeared identifiers into groups keyed by
/// the prefix before the first separator token. Identifiers lacking the
/// separator are dropped; members keep discovery order; groups appear in
/// order of their key's first appearance.
pub fn group(new_ids: &Vec<String>) -> (r: Vec<Group>)
    ensures
        grouped(new_ids.deep_view(), r.deep_view()),
{
    let ghost idv = new_ids.deep_view();
    let mut gs: Vec<Group> = Vec::new();
    assert(idv.take(0) =~= Seq::<Seq<char>>::empty());
    assert(gs.deep_view() =~= Seq::<(Seq<char>, Seq<Seq<char>>)>::empty());
    let mut i: usize = 0;
    while i < new_ids.len()
        invariant
            i <= new_ids.len(),
            idv == new_ids.deep_view(),
            grouped(idv.take(i as int), gs.deep_view()),
        decreases new_ids.len() - i,
    {
        let ghost taken = idv.take(i as int);
        let ghost taken1 = idv.take(i + 1);
        proof {
            assert(taken1.drop_last() =~= taken);
            assert(taken1.last() == idv[i as int]);
        }
        match unit_key(&new_ids[i]) {
            None => {
                proof {
                    assert(keys_in_order(taken1) == keys_in_order(taken));
                    assert forall|m: int|
                        0 <= m < gs.deep_view().len() implies (#[trigger] gs.deep_view()[m].1)
                        == ids_with_key(taken1, gs.deep_view()[m].0) by {
                        assert(ids_with_key(taken1, gs.deep_view()[m].0) == ids_with_key(
                            taken,
                            gs.deep_view()[m].0,
                        ));
                    }
                }
            },
            Some(k) => {
                let ghost old_gs = gs.deep_view();
                match find_group(&gs, &k) {
                    Some(j) => {
                        let mut g = gs.remove(j);
                        g.members.push(new_ids[i].clone());
                        let ghost gv = g@;
                        gs.insert(j, g);
                        proof {
                            lemma_keys_distinct(taken);
                            assert(gs.deep_view() =~= old_gs.update(j as int, gv));
                            assert(gv.1 =~= old_gs[j as int].1.push(idv[i as int]));
                            assert(keys_in_order(taken).contains(k@));
                            assert(keys_in_order(taken1) == keys_in_order(taken));
                            assert forall|m: int|
                                0 <= m < gs.deep_view().len() implies (#[trigger] gs.deep_view()[m].1)
                                == ids_with_key(taken1, gs.deep_view()[m].0) by {
                                if m == j {
                                    assert(ids_with_key(taken1, k@) == ids_with_key(
                                        taken,
                                        k@,
                                    ).push(idv[i as int]));
                                } else {
                                    assert(old_gs[m].0 == keys_in_order(taken)[m]);
                                    assert(old_gs[j as int].0 == keys_in_order(taken)[j as int]);
                                    assert(gs.deep_view()[m].0 != k@);
                                    assert(ids_with_key(taken1, gs.deep_view()[m].0)
                                        == ids_with_key(taken, gs.deep_view()[m].0));
                                }
                            }
                        }
                    },
                    None => {
                        let mut members: Vec<String> = Vec::new();
                        members.push(new_ids[i].clone());
                        let g = Group { key: k, members };
                        let ghost gv = g@;
                        gs.push(g);
                        proof {
                            assert(gs.deep_view() =~= old_gs.push(gv));
                            assert forall|m: int|
                                0 <= m < keys_in_order(taken).len() implies keys_in_order(
                                taken,
                            )[m] != k@ by {
                                assert(old_gs[m].0 == keys_in_order(taken)[m]);
                            }
                            if keys_in_order(taken).contains(k@) {
                                let m = choose|m: int|
                                    0 <= m < keys_in_order(taken).len() && keys_in_order(taken)[m]
                                        == k@;
                                assert(false);
                            }
                            assert(keys_in_order(taken1) == keys_in_order(taken).push(k@));
                            lemma_absent_key_empty(taken, k@);
                            assert(gv.1 =~= Seq::<Seq<char>>::empty().push(idv[i as int]));
                            assert(ids_with_key(taken1, k@) == ids_with_key(taken, k@).push(
                                idv[i as int],
                            ));
                            assert forall|m: int|
                                0 <= m < gs.deep_view().len() implies (#[trigger] gs.deep_view()[m].1)
                                == ids_with_key(taken1, gs.deep_view()[m].0) by {
                                if m < old_gs.len() {
                                    assert(gs.deep_view()[m] == old_gs[m]);
                                    assert(gs.deep_view()[m].0 != k@);
                                    assert(ids_with_key(taken1, gs.deep_view()[m].0)
                                        == ids_with_key(taken, gs.deep_view()[m].0));
                                } else {
                                    assert(gs.deep_view()[m] == gv);
                                }
                            }
                            assert forall|m: int|
                                0 <= m < gs.deep_view().len() implies (#[trigger] gs.deep_view()[m].0)
                                == keys_in_order(taken1)[m] by {
                                if m < old_gs.len() {
                                    assert(gs.deep_view()[m] == old_gs[m]);
                                }
                            }
                        }
                    },
                }
            },
        }
        i = i + 1;
    }
    assert(idv.take(new_ids.len() as int) =~= idv);
    gs
}

} // verus!
