//! Query sampling: per build group, query points are drawn from the dataset
//! with a seeded generator, so that runs are reproducible and the same
//! queries serve every K and every oversampling. Which ids come out is the
//! generator's business; every sampled id is one of the dataset's.
use vstd::prelude::*;

verus! {

#[verifier::external_type_specification]
#[verifier::external_body]
pub struct ExStdRng(rand::rngs::StdRng);

/// Relies on rand's `IndexedRandom::choose` on the id slice: one of its
/// elements, or nothing exactly when the slice is empty. Which element comes
/// back is the generator's choice; nothing more is promised.
#[verifier::external_body]
fn choose_id(rng: &mut rand::rngs::StdRng, ids: &Vec<u32>) -> (r: Option<u32>)
    ensures
        r is Some <==> ids@.len() > 0,
        r is Some ==> ids@.contains(r->Some_0),
{
    rand::seq::IndexedRandom::choose(ids.as_slice(), rng).copied()
}

/// Draws `count` query ids from `ids` with replacement, in generator order.
/// Every drawn id is one of `ids`; an empty dataset yields no queries.
pub fn sample_query_ids(rng: &mut rand::rngs::StdRng, ids: &Vec<u32>, count: usize) -> (r: Vec<
    u32,
>)
    ensures
        ids@.len() > 0 ==> r@.len() == count,
        ids@.len() == 0 ==> r@.len() == 0,
        forall|i: int| 0 <= i < r@.len() ==> ids@.contains(#[trigger] r@[i]),
{
    let mut out: Vec<u32> = Vec::new();
    if ids.len() == 0 {
        return out;
    }
    let mut i: usize = 0;
    while i < count
        invariant
            i <= count,
            out@.len() == i,
            ids@.len() > 0,
            forall|t: int| 0 <= t < out@.len() ==> ids@.contains(#[trigger] out@[t]),
        decreases count - i,
    {
        let id = choose_id(rng, ids).unwrap();
        out.push(id);
        i += 1;
    }
    out
}

} // verus!
