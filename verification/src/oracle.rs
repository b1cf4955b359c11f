//! Exact top-K nearest-neighbor selection: the ground-truth oracle that the
//! recall evaluation is scored against.
//!
//! Distances are compared through a total order on unsigned keys: the caller
//! encodes each raw distance as a `u64` so that nearer points carry smaller
//! keys. The oracle keeps a sorted buffer of at most K points and replaces its
//! worst entry whenever a strictly nearer point arrives, so the dataset is
//! never fully sorted.
use vstd::multiset::Multiset;
use vstd::prelude::*;
use vstd::seq_lib::lemma_multiset_commutative;

use crate::seqs::lemma_insert_to_multiset;

verus! {

broadcast use vstd::seq_lib::group_to_multiset_ensures, vstd::multiset::group_multiset_axioms;

/// An item together with its distance to the query, encoded so that smaller
/// keys mean nearer points under the run's distance function.
#[derive(Clone, Copy, PartialEq, Eq, Structural, Debug)]
pub struct Neighbor {
    pub id: u32,
    pub dist: u64,
}

/// The sequence is ordered by nondecreasing distance.
pub open spec fn sorted_by_dist(s: Seq<Neighbor>) -> bool {
    forall|i: int, j: int| 0 <= i < j < s.len() ==> s[i].dist <= s[j].dist
}

/// Every occurrence in `sub` is accounted for by an occurrence in `sup`.
pub open spec fn within(sub: Seq<Neighbor>, sup: Seq<Neighbor>) -> bool {
    forall|e: Neighbor| #[trigger] sub.to_multiset().count(e) <= sup.to_multiset().count(e)
}

/// Every occurrence of `input` that `out` leaves aside lies at least as far
/// from the query as every selected point.
pub open spec fn dominates(input: Seq<Neighbor>, out: Seq<Neighbor>) -> bool {
    forall|e: Neighbor, i: int|
        #![trigger input.to_multiset().count(e), out[i]]
        input.to_multiset().count(e) > out.to_multiset().count(e) && 0 <= i < out.len()
            ==> out[i].dist <= e.dist
}

/// How many points an exact top-K answer holds: K, or fewer when the input
/// runs out first.
pub open spec fn top_len(input: Seq<Neighbor>, k: int) -> int {
    if k < input.len() {
        k
    } else {
        input.len() as int
    }
}

/// `out` is an exact top-K answer for `input`: K of its nearest points (all of
/// them when K exceeds the input), in nondecreasing distance order, with no
/// point left aside that is nearer than a selected one.
pub open spec fn is_top_k(input: Seq<Neighbor>, k: int, out: Seq<Neighbor>) -> bool {
    &&& out.len() == top_len(input, k)
    &&& sorted_by_dist(out)
    &&& within(out, input)
    &&& dominates(input, out)
}

/// No two points of the sequence lie at exactly the same distance.
pub open spec fn distinct_dists(s: Seq<Neighbor>) -> bool {
    forall|i: int, j: int| 0 <= i < j < s.len() ==> s[i].dist != s[j].dist
}

/// In a point set with pairwise distinct distances, each point occurs at most
/// once.
proof fn lemma_distinct_dists_counts(s: Seq<Neighbor>)
    requires
        distinct_dists(s),
    ensures
        forall|e: Neighbor| #[trigger] s.to_multiset().count(e) <= 1,
{
    assert(s.no_duplicates());
    s.lemma_multiset_has_no_duplicates();
    assert forall|e: Neighbor| #[trigger] s.to_multiset().count(e) <= 1 by {
        if s.to_multiset().count(e) > 1 {
            assert(s.to_multiset().contains(e));
        }
    }
}

/// Distinct occurrences of a point set with pairwise distinct distances lie
/// at different distances.
proof fn lemma_members_dist_differ(s: Seq<Neighbor>, x: Neighbor, y: Neighbor)
    requires
        distinct_dists(s),
        s.to_multiset().count(x) > 0,
        s.to_multiset().count(y) > 0,
        x != y,
    ensures
        x.dist != y.dist,
{
    assert(s.contains(x));
    assert(s.contains(y));
    let p = choose|p: int| 0 <= p < s.len() && s[p] == x;
    let q = choose|q: int| 0 <= q < s.len() && s[q] == y;
    assert(p != q);
    assert(s[p].dist != s[q].dist);
}

/// With pairwise distinct distances, the exact top-K answer is unique: any
/// two answers meeting the contract agree point for point, so the oracle's
/// result is exactly what exhaustive comparison would give.
pub proof fn lemma_top_k_unique(s: Seq<Neighbor>, k: int, o1: Seq<Neighbor>, o2: Seq<Neighbor>)
    requires
        distinct_dists(s),
        is_top_k(s, k, o1),
        is_top_k(s, k, o2),
    ensures
        o1 == o2,
{
    lemma_top_k_order_independent(s, s, k, o1, o2);
    lemma_distinct_dists_counts(s);
    let leq = |a: Neighbor, b: Neighbor| a.dist < b.dist || (a.dist == b.dist && a.id <= b.id);
    assert(vstd::relations::total_ordering(leq)) by {
        assert forall|x: Neighbor| #[trigger] leq(x, x) by {}
        assert forall|x: Neighbor, y: Neighbor| #[trigger] leq(x, y) || #[trigger] leq(y, x) by {}
        assert forall|x: Neighbor, y: Neighbor|
            #[trigger] leq(x, y) && #[trigger] leq(y, x) implies x == y by {}
        assert forall|x: Neighbor, y: Neighbor, z: Neighbor|
            #[trigger] leq(x, y) && #[trigger] leq(y, z) implies leq(x, z) by {}
    }
    lemma_top_k_strictly_sorted(s, o1, leq);
    lemma_top_k_strictly_sorted(s, o2, leq);
    vstd::seq_lib::lemma_sorted_unique(o1, o2, leq);
}

/// An answer within a distinct-distance point set, ordered by distance, is
/// ordered under the full order on (distance, id) as well.
proof fn lemma_top_k_strictly_sorted(
    s: Seq<Neighbor>,
    o: Seq<Neighbor>,
    leq: spec_fn(Neighbor, Neighbor) -> bool,
)
    requires
        distinct_dists(s),
        sorted_by_dist(o),
        within(o, s),
        forall|x: Neighbor, y: Neighbor|
            x.dist < y.dist || (x.dist == y.dist && x.id <= y.id) ==> #[trigger] leq(x, y),
    ensures
        vstd::relations::sorted_by(o, leq),
{
    lemma_distinct_dists_counts(s);
    assert forall|x: Neighbor| #[trigger] o.to_multiset().contains(x) implies o.to_multiset().count(
        x,
    ) == 1 by {
        assert(s.to_multiset().count(x) <= 1);
    }
    o.lemma_multiset_has_no_duplicates_conv();
    assert forall|i: int, j: int| 0 <= i < j < o.len() implies #[trigger] leq(o[i], o[j]) by {
        assert(o[i] != o[j]);
        assert(o.to_multiset().count(o[i]) > 0) by {
            assert(o.contains(o[i]));
        }
        assert(o.to_multiset().count(o[j]) > 0) by {
            assert(o.contains(o[j]));
        }
        lemma_members_dist_differ(s, o[i], o[j]);
        assert(o[i].dist < o[j].dist);
    }
}

/// Distinctness of distances is a property of the point multiset, not of the
/// enumeration order.
proof fn lemma_distinct_dists_permuted(a: Seq<Neighbor>, b: Seq<Neighbor>)
    requires
        a.to_multiset() == b.to_multiset(),
        distinct_dists(a),
    ensures
        distinct_dists(b),
{
    lemma_distinct_dists_counts(a);
    assert forall|i: int, j: int| 0 <= i < j < b.len() implies b[i].dist != b[j].dist by {
        if b[i].dist == b[j].dist {
            if b[i] == b[j] {
                let s0 = b.subrange(0, j);
                let s1 = b.subrange(j, b.len() as int);
                assert(b =~= s0 + s1);
                lemma_multiset_commutative(s0, s1);
                assert(s0.contains(b[i])) by {
                    assert(s0[i] == b[i]);
                }
                assert(s1.contains(b[j])) by {
                    assert(s1[0] == b[j]);
                }
                assert(b.to_multiset().count(b[i]) >= 2);
                assert(a.to_multiset().count(b[i]) <= 1);
                assert(false);
            } else {
                assert(a.contains(b[i])) by {
                    assert(b.contains(b[i]));
                    assert(b.to_multiset().count(b[i]) > 0);
                }
                assert(a.contains(b[j])) by {
                    assert(b.contains(b[j]));
                    assert(b.to_multiset().count(b[j]) > 0);
                }
                let p = choose|p: int| 0 <= p < a.len() && a[p] == b[i];
                let q = choose|q: int| 0 <= q < a.len() && a[q] == b[j];
                assert(p != q);
                assert(a[p].dist != a[q].dist);
                assert(false);
            }
        }
    }
}

/// A point of one exact top-K answer belongs to every exact top-K answer of
/// the same point set, in whatever order the set is enumerated, when no two
/// distances tie.
proof fn lemma_top_k_member(
    a: Seq<Neighbor>,
    b: Seq<Neighbor>,
    k: int,
    oa: Seq<Neighbor>,
    ob: Seq<Neighbor>,
    e: Neighbor,
)
    requires
        a.to_multiset() == b.to_multiset(),
        distinct_dists(a),
        is_top_k(a, k, oa),
        is_top_k(b, k, ob),
        oa.to_multiset().count(e) > 0,
    ensures
        ob.to_multiset().count(e) > 0,
{
    broadcast use vstd::set::group_set_axioms;

    lemma_distinct_dists_counts(a);
    if ob.to_multiset().count(e) == 0 {
        assert(a.to_multiset().count(e) >= oa.to_multiset().count(e));
        assert(b.to_multiset().count(e) > ob.to_multiset().count(e));
        // Every selected point of `ob` lies strictly nearer than `e`.
        assert forall|i: int| 0 <= i < ob.len() implies ob[i].dist < e.dist by {
            assert(ob[i].dist <= e.dist);
            assert(ob.to_multiset().count(ob[i]) > 0) by {
                assert(ob.contains(ob[i]));
            }
            assert(a.to_multiset().count(ob[i]) > 0);
            assert(a.contains(ob[i]));
            assert(a.contains(e)) by {
                assert(a.to_multiset().count(e) > 0);
            }
            if ob[i].dist == e.dist {
                let p = choose|p: int| 0 <= p < a.len() && a[p] == ob[i];
                let q = choose|q: int| 0 <= q < a.len() && a[q] == e;
                assert(ob[i] != e);
                assert(p != q);
                assert(a[p].dist != a[q].dist);
                assert(false);
            }
        }
        // `e` sits in `oa`, so every point nearer than `e` was selected there;
        // hence all of `ob`'s points are in `oa` as well.
        let m = choose|m: int| 0 <= m < oa.len() && oa[m] == e;
        assert(oa.contains(e)) by {
            assert(oa.to_multiset().count(e) > 0);
        }
        assert forall|i: int| 0 <= i < ob.len() implies oa.contains(ob[i]) by {
            if oa.to_multiset().count(ob[i]) == 0 {
                assert(ob.to_multiset().count(ob[i]) > 0) by {
                    assert(ob.contains(ob[i]));
                }
                assert(a.to_multiset().count(ob[i]) > ob.to_multiset().count(ob[i]) - 1);
                assert(a.to_multiset().count(ob[i]) > oa.to_multiset().count(ob[i]));
                assert(oa[m].dist <= ob[i].dist);
                assert(e.dist < e.dist);
            }
            assert(oa.to_multiset().count(ob[i]) > 0);
        }
        // Counting: `ob`'s points plus `e` are pairwise distinct members of
        // `oa`, yet `oa` has only as many slots as `ob`.
        assert forall|x: Neighbor| #[trigger] ob.to_multiset().contains(x) implies ob.to_multiset().count(x) == 1 by {
            assert(b.to_multiset().count(x) <= 1);
        }
        ob.lemma_multiset_has_no_duplicates_conv();
        ob.unique_seq_to_set();
        let grown = ob.to_set().insert(e);
        assert(!ob.to_set().contains(e)) by {
            if ob.contains(e) {
                assert(ob.to_multiset().count(e) > 0);
            }
        }
        vstd::seq_lib::seq_to_set_is_finite(ob);
        assert(grown.len() == ob.to_set().len() + 1);
        assert(grown.subset_of(oa.to_set())) by {
            assert forall|x: Neighbor| grown.contains(x) implies oa.to_set().contains(x) by {
                if x == e {
                    assert(oa.contains(e));
                } else {
                    assert(ob.to_set().contains(x));
                    assert(ob.contains(x));
                    let i = choose|i: int| 0 <= i < ob.len() && ob[i] == x;
                    assert(oa.contains(ob[i]));
                }
            }
        }
        vstd::seq_lib::seq_to_set_is_finite(oa);
        vstd::set_lib::lemma_len_subset(grown, oa.to_set());
        oa.lemma_cardinality_of_set();
        assert(a.len() == b.len()) by {
            assert(a.to_multiset().len() == a.len());
            assert(b.to_multiset().len() == b.len());
        }
        assert(oa.len() == ob.len());
        assert(false);
    }
}

/// Permuting the enumeration order of the point set does not change which
/// points an exact top-K answer holds, provided no two points of the set lie
/// at exactly the same distance.
pub proof fn lemma_top_k_order_independent(
    a: Seq<Neighbor>,
    b: Seq<Neighbor>,
    k: int,
    oa: Seq<Neighbor>,
    ob: Seq<Neighbor>,
)
    requires
        a.to_multiset() == b.to_multiset(),
        distinct_dists(a),
        is_top_k(a, k, oa),
        is_top_k(b, k, ob),
    ensures
        oa.to_multiset() == ob.to_multiset(),
{
    lemma_distinct_dists_counts(a);
    assert forall|e: Neighbor| #[trigger] oa.to_multiset().count(e) == ob.to_multiset().count(
        e,
    ) by {
        assert(oa.to_multiset().count(e) <= a.to_multiset().count(e));
        assert(ob.to_multiset().count(e) <= b.to_multiset().count(e));
        if oa.to_multiset().count(e) > 0 {
            lemma_top_k_member(a, b, k, oa, ob, e);
        } else if ob.to_multiset().count(e) > 0 {
            lemma_distinct_dists_permuted(a, b);
            lemma_top_k_member(b, a, k, ob, oa, e);
        }
    }
    assert(oa.to_multiset() =~= ob.to_multiset());
}

/// First index of the sorted buffer whose distance exceeds `d`, found by
/// binary search: the position where a point at distance `d` belongs.
fn insertion_pos(buf: &Vec<Neighbor>, d: u64) -> (pos: usize)
    requires
        sorted_by_dist(buf@),
    ensures
        pos <= buf@.len(),
        forall|i: int| 0 <= i < pos ==> buf@[i].dist <= d,
        forall|i: int| pos <= i < buf@.len() ==> buf@[i].dist > d,
{
    let mut lo: usize = 0;
    let mut hi: usize = buf.len();
    while lo < hi
        invariant
            lo <= hi <= buf@.len(),
            sorted_by_dist(buf@),
            forall|i: int| 0 <= i < lo ==> buf@[i].dist <= d,
            forall|i: int| hi <= i < buf@.len() ==> buf@[i].dist > d,
        decreases hi - lo,
    {
        let mid = lo + (hi - lo) / 2;
        if buf[mid].dist <= d {
            assert(forall|i: int| 0 <= i <= mid ==> buf@[i].dist <= d);
            lo = mid + 1;
        } else {
            assert(forall|i: int| mid <= i < buf@.len() ==> buf@[i].dist > d);
            hi = mid;
        }
    }
    lo
}

/// Puts one more point into a sorted buffer, keeping it sorted.
fn insert_sorted(buf: &mut Vec<Neighbor>, e: Neighbor)
    requires
        sorted_by_dist(old(buf)@),
    ensures
        sorted_by_dist(final(buf)@),
        final(buf)@.len() == old(buf)@.len() + 1,
        final(buf)@.to_multiset() == old(buf)@.to_multiset().insert(e),
{
    let pos = insertion_pos(buf, e.dist);
    let ghost pre = buf@;
    buf.insert(pos, e);
    proof {
        lemma_insert_to_multiset(pre, pos as int, e);
        pre.insert_ensures(pos as int, e);
        assert forall|i: int, j: int| 0 <= i < j < buf@.len() implies buf@[i].dist
            <= buf@[j].dist by {
            if j < pos {
            } else if i < pos && j == pos {
                assert(buf@[i] == pre[i]);
            } else if i < pos && j > pos {
                assert(buf@[i].dist <= e.dist);
                assert(buf@[j] == pre[j - 1]);
            } else if i == pos {
                assert(buf@[j] == pre[j - 1]);
            } else {
                assert(buf@[i] == pre[i - 1]);
                assert(buf@[j] == pre[j - 1]);
            }
        }
    }
}

/// The exact top-K nearest points of `points`: as many as K of them, sorted by
/// nondecreasing distance, leaving aside only points at least as far as every
/// selected one. Ties at equal distance are resolved by encounter order.
pub fn top_k(points: &Vec<Neighbor>, k: usize) -> (out: Vec<Neighbor>)
    ensures
        is_top_k(points@, k as int, out@),
{
    let n = points.len();
    let mut buf: Vec<Neighbor> = Vec::new();
    if k == 0 {
        proof {
            assert(buf@.to_multiset() =~= Multiset::<Neighbor>::empty());
        }
        return buf;
    }
    let init = if k < n {
        k
    } else {
        n
    };
    let mut i: usize = 0;
    while i < init
        invariant
            i <= init,
            init == top_len(points@, k as int),
            n == points@.len(),
            sorted_by_dist(buf@),
            buf@.len() == i,
            buf@.to_multiset() == points@.take(i as int).to_multiset(),
        decreases init - i,
    {
        let e = points[i];
        insert_sorted(&mut buf, e);
        proof {
            assert(points@.take((i + 1) as int) =~= points@.take(i as int).push(points@[i as int]));
        }
        i += 1;
    }
    proof {
        assert(points@.take(init as int).len() == init);
        assert(is_top_k(points@.take(init as int), k as int, buf@));
    }
    let mut j: usize = init;
    while j < n
        invariant
            init <= j <= n,
            k >= 1,
            init == top_len(points@, k as int),
            n == points@.len(),
            is_top_k(points@.take(j as int), k as int, buf@),
        decreases n - j,
    {
        let ghost taken = points@.take(j as int);
        let ghost taken_next = points@.take((j + 1) as int);
        proof {
            assert(taken_next =~= taken.push(points@[j as int]));
        }
        let e = points[j];
        assert(buf@.len() == k);
        let worst = buf[buf.len() - 1];
        if e.dist < worst.dist {
            let pos = insertion_pos(&buf, e.dist);
            let ghost pre = buf@;
            assert(pre[pre.len() - 1].dist > e.dist);
            assert(pos < pre.len());
            buf.pop();
            let ghost mid = buf@;
            proof {
                assert(pre =~= mid.push(worst));
                assert(pre.to_multiset() =~= mid.to_multiset().insert(worst));
            }
            buf.insert(pos, e);
            proof {
                lemma_insert_to_multiset(mid, pos as int, e);
                mid.insert_ensures(pos as int, e);
                // The new buffer is sorted: entries before `pos` stay at most
                // `e.dist`, entries after stay above it.
                assert forall|a: int, b: int| 0 <= a < b < buf@.len() implies buf@[a].dist
                    <= buf@[b].dist by {
                    if b < pos {
                    } else if a < pos && b == pos {
                        assert(buf@[a] == pre[a]);
                    } else if a < pos && b > pos {
                        assert(buf@[a].dist <= e.dist);
                        assert(buf@[b] == pre[b - 1]);
                    } else if a == pos {
                        assert(buf@[b] == pre[b - 1]);
                    } else {
                        assert(buf@[a] == pre[a - 1]);
                        assert(buf@[b] == pre[b - 1]);
                    }
                }
                // Occurrence counts: the worst point left, `e` entered.
                assert forall|f: Neighbor| #[trigger] buf@.to_multiset().count(f)
                    == pre.to_multiset().count(f) - (if f == worst {
                    1int
                } else {
                    0int
                }) + (if f == e {
                    1int
                } else {
                    0int
                }) by {}
                assert(within(buf@, taken_next)) by {
                    assert forall|f: Neighbor| #[trigger] buf@.to_multiset().count(f)
                        <= taken_next.to_multiset().count(f) by {
                        assert(pre.to_multiset().count(f) <= taken.to_multiset().count(f));
                    }
                }
                assert(dominates(taken_next, buf@)) by {
                    assert forall|f: Neighbor, a: int|
                        taken_next.to_multiset().count(f) > buf@.to_multiset().count(f) && 0 <= a
                            < buf@.len() implies buf@[a].dist <= f.dist by {
                        // Every new entry is an old one or `e`, hence at most
                        // the old worst distance.
                        assert(buf@[a].dist <= worst.dist);
                        if f == e {
                            if taken.to_multiset().count(f) > pre.to_multiset().count(f) {
                                assert(pre[pre.len() - 1].dist <= f.dist);
                            }
                        } else if f == worst {
                        } else {
                            assert(taken.to_multiset().count(f) > pre.to_multiset().count(f));
                            assert(pre[pre.len() - 1].dist <= f.dist);
                            assert(buf@[a].dist <= worst.dist);
                        }
                    }
                }
            }
        } else {
            proof {
                assert(within(buf@, taken_next)) by {
                    assert forall|f: Neighbor| #[trigger] buf@.to_multiset().count(f)
                        <= taken_next.to_multiset().count(f) by {
                        assert(buf@.to_multiset().count(f) <= taken.to_multiset().count(f));
                    }
                }
                assert(dominates(taken_next, buf@)) by {
                    assert forall|f: Neighbor, a: int|
                        taken_next.to_multiset().count(f) > buf@.to_multiset().count(f) && 0 <= a
                            < buf@.len() implies buf@[a].dist <= f.dist by {
                        if f == e && !(taken.to_multiset().count(f) > buf@.to_multiset().count(f)) {
                            assert(buf@[a].dist <= buf@[buf@.len() - 1].dist);
                        }
                    }
                }
            }
        }
        j += 1;
    }
    proof {
        assert(points@.take(n as int) =~= points@);
    }
    buf
}

} // verus!
