//! The synchronization loop's per-tick decisions: which units are ready
//! this tick, what a listing failure means, and the baseline swap.
//!
//! The loop alternates forever between listing and processing. A listing
//! failure is the one fatal error: the tick aborts with the baseline
//! untouched. Otherwise the newly-appeared identifiers are grouped, the
//! groups holding exactly two members are processed — each independently —
//! and the baseline is then replaced wholesale with the tick's listing.

use vstd::prelude::*;
use crate::detect::detect;
use crate::detect::lemma_contains_push;
use crate::detect::spec_detect;
use crate::grouping::Group;
use crate::grouping::group;
use crate::grouping::lemma_grouped_is_spec_group;
use crate::grouping::spec_group;

verus! {

/// The groups that are ready for processing: exactly two members.
pub open spec fn spec_ready(gs: Seq<(Seq<char>, Seq<Seq<char>>)>) -> Seq<
    (Seq<char>, Seq<Seq<char>>),
>
    decreases gs.len(),
{
    if gs.len() == 0 {
        Seq::empty()
    } else {
        let rest = spec_ready(gs.drop_last());
        if gs.last().1.len() == 2 {
            rest.push(gs.last())
        } else {
            rest
        }
    }
}

/// Exactly the groups of two members are ready: a group with fewer or
/// more members never reaches processing.
pub proof fn lemma_ready_exactly_pairs(gs: Seq<(Seq<char>, Seq<Seq<char>>)>)
    ensures
        forall|g: (Seq<char>, Seq<Seq<char>>)|
            #[trigger] spec_ready(gs).contains(g) <==> gs.contains(g) && g.1.len() == 2,
    decreases gs.len(),
{
    if gs.len() == 0 {
    } else {
        let prefix = gs.drop_last();
        let last = gs.last();
        lemma_ready_exactly_pairs(prefix);
        assert(gs =~= prefix.push(last));
        assert forall|g: (Seq<char>, Seq<Seq<char>>)|
            #[trigger] spec_ready(gs).contains(g) <==> gs.contains(g) && g.1.len() == 2 by {
            lemma_contains_push(prefix, last, g);
            if last.1.len() == 2 {
                lemma_contains_push(spec_ready(prefix), last, g);
            }
        }
    }
}

/// One tick's whole decision: the ready units of the grouping of the
/// identifiers that newly appeared since the baseline.
pub open spec fn spec_plan(current: Seq<Seq<char>>, baseline: Seq<Seq<char>>) -> Seq<
    (Seq<char>, Seq<Seq<char>>),
> {
    spec_ready(spec_group(spec_detect(current, baseline)))
}

/// The ready units among `gs`: those with exactly two members, in order.
pub fn ready_units(gs: &Vec<Group>) -> (r: Vec<Group>)
    ensures
        r.deep_view() == spec_ready(gs.deep_view()),
{
    let ghost gsv = gs.deep_view();
    let mut r: Vec<Group> = Vec::new();
    assert(gsv.take(0) =~= Seq::<(Seq<char>, Seq<Seq<char>>)>::empty());
    assert(r.deep_view() =~= Seq::<(Seq<char>, Seq<Seq<char>>)>::empty());
    let mut i: usize = 0;
    while i < gs.len()
        invariant
            i <= gs.len(),
            gsv == gs.deep_view(),
            r.deep_view() == spec_ready(gsv.take(i as int)),
        decreases gs.len() - i,
    {
        let ghost prev = r.deep_view();
        if gs[i].members.len() == 2 {
            r.push(gs[i].duplicate());
            assert(r.deep_view() =~= prev.push(gsv[i as int]));
        }
        proof {
            assert(gsv.take(i + 1).drop_last() =~= gsv.take(i as int));
            assert(gsv.take(i + 1).last() == gsv[i as int]);
        }
        i = i + 1;
    }
    assert(gsv.take(gs.len() as int) =~= gsv);
    r
}

/// Computes one tick's ready units: the identifiers that newly appeared
/// since the baseline, grouped by unit key, kept where the group holds
/// exactly two members.
pub fn plan_tick(current: &Vec<String>, baseline: &Vec<String>) -> (r: Vec<Group>)
    ensures
        r.deep_view() == spec_plan(current.deep_view(), baseline.deep_view()),
        forall|i: int| 0 <= i < r.deep_view().len() ==> (#[trigger] r.deep_view()[i]).1.len() == 2,
{
    let new_ids = detect(current, baseline);
    let gs = group(&new_ids);
    proof {
        lemma_grouped_is_spec_group(new_ids.deep_view(), gs.deep_view());
    }
    let r = ready_units(&gs);
    proof {
        lemma_ready_exactly_pairs(gs.deep_view());
        assert forall|i: int|
            0 <= i < r.deep_view().len() implies (#[trigger] r.deep_view()[i]).1.len() == 2 by {
            assert(r.deep_view().contains(r.deep_view()[i]));
        }
    }
    r
}

/// The baseline snapshot: the listing last observed in full, the diff
/// reference for the next tick. The loop owns it exclusively.
pub struct Baseline {
    pub files: Vec<String>,
}

impl View for Baseline {
    type V = Seq<Seq<char>>;

    open spec fn view(&self) -> Seq<Seq<char>> {
        self.files.deep_view()
    }
}

impl Baseline {
    /// The loop starts with nothing observed: every identifier of the
    /// first listing counts as newly appeared.
    pub fn new() -> (r: Baseline)
        ensures
            r@ == Seq::<Seq<char>>::empty(),
    {
        let b = Baseline { files: Vec::new() };
        assert(b@ =~= Seq::<Seq<char>>::empty());
        b
    }

    /// Replaces the whole baseline with this tick's listing: the one
    /// mutation, made after all of the tick's units have been attempted,
    /// whether or not any of them failed.
    pub fn commit(&mut self, current: Vec<String>)
        ensures
            final(self)@ == current.deep_view(),
    {
        self.files = current;
    }
}

/// What one listing attempt decides for the loop.
pub enum TickOutcome {
    /// The listing failed. This is fatal: the loop stops, the baseline is
    /// untouched, and no unit of this tick is processed.
    Abort(String),
    /// The listing succeeded: these units are ready this tick.
    Planned(Vec<Group>),
}

/// Decides one tick from the listing attempt's outcome: a failure aborts
/// the whole tick with the error surfaced; a successful listing yields
/// the ready units to process against the baseline.
pub fn plan_listing(listing: Result<Vec<String>, String>, baseline: &Baseline) -> (r: TickOutcome)
    ensures
        match r {
            TickOutcome::Abort(e) => listing is Err && e@ == listing->Err_0@,
            TickOutcome::Planned(units) => listing is Ok && units.deep_view() == spec_plan(
                listing->Ok_0.deep_view(),
                baseline@,
            ),
        },
{
    match listing {
        Ok(current) => TickOutcome::Planned(plan_tick(&current, &baseline.files)),
        Err(e) => TickOutcome::Abort(e),
    }
}

} // verus!
