//! Recall scoring with three-valued semantics: a query's correctness count is
//! the number of returned ids that belong to the ground truth, unless the
//! engine returns an id outside the active candidate restriction — then the
//! count becomes an `Invalid` sentinel that no later match can repair, and
//! that poisons the whole batch it is aggregated into. The sentinel surfaces
//! as a visibly negative recall downstream, distinguishable from a
//! legitimately low score.
use vstd::prelude::*;

use crate::candidates::{bitmap_contains, bitmap_elems};

verus! {

/// The candidate restriction a query ran under, as the set of eligible ids;
/// `None` means no restriction.
pub open spec fn restriction_view(candidates: Option<&roaring::RoaringBitmap>) -> Option<Set<u32>> {
    match candidates {
        None => None,
        Some(b) => Some(bitmap_elems(*b)),
    }
}

/// The correctness count of one query answer: how many returned ids belong
/// to the ground truth `relevant`, or `None` once any returned id falls
/// outside an active candidate restriction without being relevant.
pub open spec fn query_score(
    answer: Seq<u32>,
    relevant: Seq<u32>,
    restriction: Option<Set<u32>>,
) -> Option<int>
    decreases answer.len(),
{
    if answer.len() == 0 {
        Some(0)
    } else {
        match query_score(answer.drop_last(), relevant, restriction) {
            None => None,
            Some(c) => {
                let id = answer.last();
                if relevant.contains(id) {
                    Some(c + 1)
                } else if restriction is Some && !restriction->Some_0.contains(id) {
                    None
                } else {
                    Some(c)
                }
            },
        }
    }
}

/// Whether `v` holds `id`.
fn contains_id(v: &Vec<u32>, id: u32) -> (r: bool)
    ensures
        r == v@.contains(id),
{
    let mut i: usize = 0;
    while i < v.len()
        invariant
            i <= v@.len(),
            forall|t: int| 0 <= t < i ==> v@[t] != id,
        decreases v@.len() - i,
    {
        if v[i] == id {
            return true;
        }
        i += 1;
    }
    false
}

/// Scores one query: counts the returned ids that are relevant, switching to
/// the `None` sentinel as soon as a non-relevant id outside the active
/// candidate restriction shows up.
pub fn score_query(
    answer: &Vec<u32>,
    relevant: &Vec<u32>,
    candidates: Option<&roaring::RoaringBitmap>,
) -> (r: Option<u64>)
    ensures
        r is Some <==> query_score(answer@, relevant@, restriction_view(candidates)) is Some,
        r is Some ==> r->Some_0 as int == query_score(
            answer@,
            relevant@,
            restriction_view(candidates),
        )->Some_0,
{
    let ghost restriction = restriction_view(candidates);
    let mut count: u64 = 0;
    let mut i: usize = 0;
    while i < answer.len()
        invariant
            i <= answer@.len(),
            count <= i,
            query_score(answer@.take(i as int), relevant@, restriction) == Some(count as int),
            restriction == restriction_view(candidates),
        decreases answer@.len() - i,
    {
        let id = answer[i];
        proof {
            assert(answer@.take((i + 1) as int).drop_last() =~= answer@.take(i as int));
            assert(answer@.take((i + 1) as int).last() == answer@[i as int]);
        }
        if contains_id(relevant, id) {
            count += 1;
        } else if let Some(b) = candidates {
            if !bitmap_contains(b, id) {
                proof {
                    assert(query_score(answer@.take((i + 1) as int), relevant@, restriction)
                        is None);
                    lemma_query_score_poisoned(answer@, relevant@, restriction, (i + 1) as int);
                    assert(answer@.take(answer@.len() as int) =~= answer@);
                }
                return None;
            }
        }
        i += 1;
    }
    proof {
        assert(answer@.take(answer@.len() as int) =~= answer@);
    }
    Some(count)
}

/// Once a prefix of the answer has scored invalid, the whole answer scores
/// invalid: later matches cannot repair the sentinel.
proof fn lemma_query_score_poisoned(
    answer: Seq<u32>,
    relevant: Seq<u32>,
    restriction: Option<Set<u32>>,
    j: int,
)
    requires
        0 <= j <= answer.len(),
        query_score(answer.take(j), relevant, restriction) is None,
    ensures
        query_score(answer, relevant, restriction) is None,
    decreases answer.len() - j,
{
    if j < answer.len() {
        assert(answer.take(j + 1).drop_last() =~= answer.take(j));
        lemma_query_score_poisoned(answer, relevant, restriction, j + 1);
    } else {
        assert(answer.take(j) =~= answer);
    }
}

/// An answer holding an id that is neither relevant nor inside the active
/// candidate restriction always scores invalid, wherever that id stands and
/// however many other ids match.
pub proof fn lemma_out_of_candidate_invalidates(
    answer: Seq<u32>,
    relevant: Seq<u32>,
    eligible: Set<u32>,
    j: int,
)
    requires
        0 <= j < answer.len(),
        !relevant.contains(answer[j]),
        !eligible.contains(answer[j]),
    ensures
        query_score(answer, relevant, Some(eligible)) is None,
{
    assert(answer.take(j + 1).drop_last() =~= answer.take(j));
    assert(answer.take(j + 1).last() == answer[j]);
    assert(query_score(answer.take(j + 1), relevant, Some(eligible)) is None);
    lemma_query_score_poisoned(answer, relevant, Some(eligible), j + 1);
}

/// The sum of a batch of per-query counts, or `None` if any of them carries
/// the invalid sentinel.
pub open spec fn batch_score(scores: Seq<Option<u64>>) -> Option<int>
    decreases scores.len(),
{
    if scores.len() == 0 {
        Some(0)
    } else {
        match (batch_score(scores.drop_last()), scores.last()) {
            (Some(acc), Some(c)) => Some(acc + c),
            _ => None,
        }
    }
}

/// Combines the scores of a whole batch of queries: their sum, unless any
/// single query scored invalid — one sentinel poisons the aggregate.
pub fn aggregate_scores(scores: &Vec<Option<u64>>) -> (r: Option<u128>)
    ensures
        r is Some <==> batch_score(scores@) is Some,
        r is Some ==> r->Some_0 as int == batch_score(scores@)->Some_0,
        (exists|i: int| 0 <= i < scores@.len() && scores@[i] is None) ==> r is None,
{
    let mut acc: u128 = 0;
    let mut i: usize = 0;
    while i < scores.len()
        invariant
            i <= scores@.len(),
            acc <= i * 0xffff_ffff_ffff_ffff,
            batch_score(scores@.take(i as int)) == Some(acc as int),
        decreases scores@.len() - i,
    {
        proof {
            assert(scores@.take((i + 1) as int).drop_last() =~= scores@.take(i as int));
            assert(scores@.take((i + 1) as int).last() == scores@[i as int]);
        }
        match scores[i] {
            Some(c) => {
                proof {
                    assert(acc + c <= (i + 1) * 0xffff_ffff_ffff_ffff) by (nonlinear_arith)
                        requires
                            acc <= i * 0xffff_ffff_ffff_ffff,
                            c <= 0xffff_ffff_ffff_ffff,
                    ;
                    assert((i + 1) * 0xffff_ffff_ffff_ffff <= 0x1_0000_0000_0000_0000
                        * 0xffff_ffff_ffff_ffff) by (nonlinear_arith)
                        requires
                            i + 1 <= 0x1_0000_0000_0000_0000,
                    ;
                }
                acc = acc + (c as u128);
            },
            None => {
                proof {
                    lemma_batch_score_poisoned(scores@, (i + 1) as int);
                    assert(scores@.take(scores@.len() as int) =~= scores@);
                }
                return None;
            },
        }
        i += 1;
    }
    proof {
        assert(scores@.take(scores@.len() as int) =~= scores@);
        if exists|t: int| 0 <= t < scores@.len() && scores@[t] is None {
            let t = choose|t: int| 0 <= t < scores@.len() && scores@[t] is None;
            assert(scores@.take(t + 1).drop_last() =~= scores@.take(t));
            assert(scores@.take(t + 1).last() == scores@[t]);
            assert(batch_score(scores@.take(t + 1)) is None);
            lemma_batch_score_poisoned(scores@, t + 1);
            assert(false);
        }
    }
    Some(acc)
}

/// Once any prefix of the batch is invalid, the whole batch is invalid.
proof fn lemma_batch_score_poisoned(scores: Seq<Option<u64>>, j: int)
    requires
        0 <= j <= scores.len(),
        batch_score(scores.take(j)) is None,
    ensures
        batch_score(scores) is None,
    decreases scores.len() - j,
{
    if j < scores.len() {
        assert(scores.take(j + 1).drop_last() =~= scores.take(j));
        lemma_batch_score_poisoned(scores, j + 1);
    } else {
        assert(scores.take(j) =~= scores);
    }
}

/// A fully aggregated recall measurement for one configuration and one K:
/// either the invalid sentinel — rendered as a negative score downstream —
/// or the number of correctly retrieved ids out of `K` times the number of
/// queries.
#[derive(Clone, Copy, PartialEq, Eq, Structural, Debug)]
pub enum RecallOutcome {
    Invalid,
    Valid { correct: u128, out_of: u128 },
}

/// Scores one (configuration, K) sweep from its per-query counts: `Invalid`
/// exactly when any single query scored invalid, else the total correct
/// count out of `k` per query.
pub fn recall_outcome(scores: &Vec<Option<u64>>, k: usize) -> (r: RecallOutcome)
    ensures
        r is Invalid <==> batch_score(scores@) is None,
        batch_score(scores@) is Some ==> r == (RecallOutcome::Valid {
            correct: batch_score(scores@)->Some_0 as u128,
            out_of: (k * scores@.len()) as u128,
        }),
{
    match aggregate_scores(scores) {
        None => RecallOutcome::Invalid,
        Some(total) => {
            let n: usize = scores.len();
            proof {
                assert(k * n <= 0xffff_ffff_ffff_ffff * 0xffff_ffff_ffff_ffff)
                    by (nonlinear_arith)
                    requires
                        k <= 0xffff_ffff_ffff_ffff,
                        n <= 0xffff_ffff_ffff_ffff,
                ;
            }
            let out_of: u128 = (k as u128) * (n as u128);
            RecallOutcome::Valid { correct: total, out_of }
        },
    }
}

/// The five-way color bucket a recall score falls into, used to colorize the
/// console report, plus the unstyled bucket for a score that is not a number
/// (zero queries).
#[derive(Clone, Copy, PartialEq, Eq, Structural, Debug)]
pub enum RecallBucket {
    Red,
    Yellow,
    Green,
    Blue,
    Cyan,
    Top,
    Plain,
}

/// Which bucket a recall outcome falls into: the thresholds are a quarter, a
/// half, three quarters, nine tenths and nine hundred ninety-nine
/// thousandths; the invalid sentinel is negative and lands in the lowest
/// bucket.
pub open spec fn bucket_of(r: RecallOutcome) -> RecallBucket {
    match r {
        RecallOutcome::Invalid => RecallBucket::Red,
        RecallOutcome::Valid { correct, out_of } => {
            if out_of == 0 {
                RecallBucket::Plain
            } else if 4 * correct <= out_of {
                RecallBucket::Red
            } else if 2 * correct <= out_of {
                RecallBucket::Yellow
            } else if 4 * correct <= 3 * out_of {
                RecallBucket::Green
            } else if 10 * correct <= 9 * out_of {
                RecallBucket::Blue
            } else if 1000 * correct <= 999 * out_of {
                RecallBucket::Cyan
            } else {
                RecallBucket::Top
            }
        },
    }
}

/// Executable twin of `bucket_of`.
pub fn recall_bucket(r: RecallOutcome) -> (b: RecallBucket)
    requires
        r is Valid ==> r->out_of <= 0xffff_ffff_ffff_ffff_ffff_ffff,
        r is Valid ==> r->correct <= 0xffff_ffff_ffff_ffff_ffff_ffff,
    ensures
        b == bucket_of(r),
{
    match r {
        RecallOutcome::Invalid => RecallBucket::Red,
        RecallOutcome::Valid { correct, out_of } => {
            if out_of == 0 {
                RecallBucket::Plain
            } else if 4 * correct <= out_of {
                RecallBucket::Red
            } else if 2 * correct <= out_of {
                RecallBucket::Yellow
            } else if 4 * correct <= 3 * out_of {
                RecallBucket::Green
            } else if 10 * correct <= 9 * out_of {
                RecallBucket::Blue
            } else if 1000 * correct <= 999 * out_of {
                RecallBucket::Cyan
            } else {
                RecallBucket::Top
            }
        },
    }
}

impl RecallBucket {
    /// The ANSI escape that colors a score of this bucket on the console.
    pub fn ansi_prefix(self) -> (r: &'static str)
        ensures
            self is Red ==> r@ == "\u{1b}[1;31m"@,
            self is Yellow ==> r@ == "\u{1b}[1;33m"@,
            self is Green ==> r@ == "\u{1b}[1;32m"@,
            self is Blue ==> r@ == "\u{1b}[1;34m"@,
            self is Cyan ==> r@ == "\u{1b}[1;36m"@,
            self is Top ==> r@ == "\u{1b}[1;4;36m"@,
            self is Plain ==> r@ == ""@,
    {
        match self {
            RecallBucket::Red => "\u{1b}[1;31m",
            RecallBucket::Yellow => "\u{1b}[1;33m",
            RecallBucket::Green => "\u{1b}[1;32m",
            RecallBucket::Blue => "\u{1b}[1;34m",
            RecallBucket::Cyan => "\u{1b}[1;36m",
            RecallBucket::Top => "\u{1b}[1;4;36m",
            RecallBucket::Plain => "",
        }
    }
}

/// Cuts the precomputed ground-truth answer down to the first K entries:
/// ground truth is computed once at the largest K and re-sliced per K, never
/// recomputed.
pub fn first_k(relevant: &Vec<u32>, k: usize) -> (r: Vec<u32>)
    ensures
        r@ == (if k <= relevant@.len() {
            relevant@.take(k as int)
        } else {
            relevant@
        }),
{
    let mut out: Vec<u32> = Vec::new();
    let limit = if k <= relevant.len() {
        k
    } else {
        relevant.len()
    };
    let mut i: usize = 0;
    while i < limit
        invariant
            i <= limit,
            limit <= relevant@.len(),
            out@ == relevant@.take(limit as int).take(i as int),
        decreases limit - i,
    {
        out.push(relevant[i]);
        proof {
            assert(relevant@.take(limit as int).take((i + 1) as int) =~= relevant@.take(
                limit as int,
            ).take(i as int).push(relevant@[i as int]));
        }
        i += 1;
    }
    proof {
        assert(relevant@.take(limit as int).take(limit as int) =~= relevant@.take(limit as int));
        if k > relevant@.len() {
            assert(relevant@.take(limit as int) =~= relevant@);
        }
    }
    out
}

} // verus!
