//! Candidate filtering: derives the id set that a filtering ratio keeps
//! eligible. The set is a prefix of the points in their natural enumeration
//! order — deterministic and dataset-order-dependent, not random — and is
//! held in a roaring bitmap so the engines can consume it directly.
//!
//! A ratio of zero ("no filter") produces no set at all: downstream logic
//! treats the absence of a restriction differently from an empty restriction,
//! which no query can satisfy.
use vstd::prelude::*;

use crate::scenarios::{filtering_percent, ScenarioFiltering};

verus! {

broadcast use vstd::set::group_set_axioms;

#[verifier::external_type_specification]
#[verifier::external_body]
pub struct ExRoaringBitmap(roaring::RoaringBitmap);

/// The ids a candidate bitmap holds.
pub uninterp spec fn bitmap_elems(b: roaring::RoaringBitmap) -> Set<u32>;

/// Relies on roaring's `RoaringBitmap::new`: the fresh bitmap is empty.
#[verifier::external_body]
fn bitmap_new() -> (b: roaring::RoaringBitmap)
    ensures
        bitmap_elems(b) == Set::<u32>::empty(),
{
    roaring::RoaringBitmap::new()
}

/// Relies on roaring's `RoaringBitmap::insert`: adds the id to the set and
/// tells whether it was absent before.
#[verifier::external_body]
fn bitmap_insert(b: &mut roaring::RoaringBitmap, id: u32) -> (fresh: bool)
    ensures
        bitmap_elems(*final(b)) == bitmap_elems(*old(b)).insert(id),
        fresh == !bitmap_elems(*old(b)).contains(id),
{
    b.insert(id)
}

/// Relies on roaring's `RoaringBitmap::contains`.
#[verifier::external_body]
pub(crate) fn bitmap_contains(b: &roaring::RoaringBitmap, id: u32) -> (r: bool)
    ensures
        r == bitmap_elems(*b).contains(id),
{
    b.contains(id)
}

/// How many of `n` ids a filtering ratio keeps: the floor of `n` scaled by
/// the ratio.
pub open spec fn selected_len(n: nat, f: ScenarioFiltering) -> nat {
    (n * filtering_percent(f) / 100) as nat
}

/// The candidate set a filtering ratio derives from points enumerated in
/// this id order: nothing for `NoFilter`, else the first `selected_len` ids.
pub open spec fn derive_elems(ids: Seq<u32>, f: ScenarioFiltering) -> Option<Set<u32>> {
    if f == ScenarioFiltering::NoFilter {
        None
    } else {
        Some(ids.take(selected_len(ids.len(), f) as int).to_set())
    }
}

/// Derives the candidate set for one filtering ratio from the points' ids in
/// their natural enumeration order.
pub fn derive(ids: &Vec<u32>, filtering: ScenarioFiltering) -> (r: Option<roaring::RoaringBitmap>)
    ensures
        r is Some <==> derive_elems(ids@, filtering) is Some,
        r is Some ==> bitmap_elems(r->Some_0) == derive_elems(ids@, filtering)->Some_0,
{
    let percent = filtering.to_ratio_percent();
    if percent == 0 {
        proof {
            assert(filtering_percent(filtering) == 0 ==> filtering == ScenarioFiltering::NoFilter);
        }
        return None;
    }
    let count_wide: u128 = (ids.len() as u128) * (percent as u128) / 100;
    let count: usize = count_wide as usize;
    proof {
        assert(ids@.len() * filtering_percent(filtering) / 100 <= ids@.len()) by (nonlinear_arith)
            requires
                0 <= filtering_percent(filtering) <= 100,
        ;
        assert(count as int == selected_len(ids@.len(), filtering));
    }
    let mut b = bitmap_new();
    proof {
        assert(bitmap_elems(b) =~= ids@.take(0).to_set());
    }
    let mut i: usize = 0;
    while i < count
        invariant
            i <= count,
            count <= ids@.len(),
            bitmap_elems(b) == ids@.take(i as int).to_set(),
        decreases count - i,
    {
        bitmap_insert(&mut b, ids[i]);
        proof {
            assert(ids@.take((i + 1) as int) =~= ids@.take(i as int).push(ids@[i as int]));
            Seq::lemma_push_to_set_commute(ids@.take(i as int), ids@[i as int]);
        }
        i += 1;
    }
    Some(b)
}

/// The filtering ratio of one hundred percent keeps every point eligible.
pub proof fn lemma_full_ratio_selects_all(ids: Seq<u32>)
    ensures
        derive_elems(ids, ScenarioFiltering::Filter100) == Some(ids.to_set()),
{
    assert(ids.len() * 100 / 100 == ids.len());
    assert(ids.take(ids.len() as int) =~= ids);
}

} // verus!
