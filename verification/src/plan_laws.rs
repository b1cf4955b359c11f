//! The planner's counting law: a planned run of pairwise-distinct axes has
//! exactly one build group per (dataset, distance, contender) triple, and
//! every group sweeps the whole (oversampling, filtering) product.
use vstd::prelude::*;
use vstd::relations::{sorted_by, total_ordering};
use vstd::seq_lib::lemma_sorted_unique;

use crate::scenarios::{
    build_le, build_row, builds_seq, contender_rank, contender_row, distance_block, distance_rank,
    filtering_rank, group_scenarios_of, groups_flatten, is_grouping, oversampling_rank,
    scenario_le, scenario_matrix, scenarios_sorted, search_le, search_pairs, search_row,
    lemma_scenario_le_total, Scenario, ScenarioBuild, ScenarioContender, ScenarioDistance,
    ScenarioFiltering, ScenarioGroup, ScenarioOversampling, ScenarioSearch,
};
use crate::seqs::lemma_concat_cancel_suffix;

verus! {

/// Strict order on the build axes.
pub open spec fn build_lt(a: ScenarioBuild, b: ScenarioBuild) -> bool {
    build_le(a, b) && a != b
}

/// The dataset axis in strictly ascending order.
pub open spec fn datasets_ascending(ds: Seq<u32>) -> bool {
    forall|i: int, j: int| 0 <= i < j < ds.len() ==> ds[i] < ds[j]
}

/// The distance axis in strictly ascending order.
pub open spec fn distances_ascending(dis: Seq<ScenarioDistance>) -> bool {
    forall|i: int, j: int|
        0 <= i < j < dis.len() ==> distance_rank(dis[i]) < distance_rank(dis[j])
}

/// The contender axis in strictly ascending order.
pub open spec fn contenders_ascending(cs: Seq<ScenarioContender>) -> bool {
    forall|i: int, j: int|
        0 <= i < j < cs.len() ==> contender_rank(cs[i]) < contender_rank(cs[j])
}

/// The oversampling axis in strictly ascending order.
pub open spec fn oversamplings_ascending(os: Seq<ScenarioOversampling>) -> bool {
    forall|i: int, j: int|
        0 <= i < j < os.len() ==> oversampling_rank(os[i]) < oversampling_rank(os[j])
}

/// The filtering axis in strictly ascending order.
pub open spec fn filterings_ascending(fs: Seq<ScenarioFiltering>) -> bool {
    forall|i: int, j: int|
        0 <= i < j < fs.len() ==> filtering_rank(fs[i]) < filtering_rank(fs[j])
}

/// The search product of ascending axes is sorted, has one entry per pair,
/// and draws its oversamplings from the oversampling axis.
proof fn lemma_search_pairs_props(os: Seq<ScenarioOversampling>, fs: Seq<ScenarioFiltering>)
    requires
        oversamplings_ascending(os),
        filterings_ascending(fs),
    ensures
        search_pairs(os, fs).len() == os.len() * fs.len(),
        forall|i: int, j: int|
            0 <= i < j < search_pairs(os, fs).len() ==> search_le(
                #[trigger] search_pairs(os, fs)[i],
                #[trigger] search_pairs(os, fs)[j],
            ),
        forall|i: int|
            0 <= i < search_pairs(os, fs).len() ==> os.contains(
                (#[trigger] search_pairs(os, fs)[i]).oversampling,
            ),
    decreases os.len(),
{
    let sp = search_pairs(os, fs);
    if os.len() == 0 {
    } else {
        let os0 = os.drop_last();
        let sp0 = search_pairs(os0, fs);
        let row = search_row(os.last(), fs);
        assert(oversamplings_ascending(os0));
        lemma_search_pairs_props(os0, fs);
        assert(sp.len() == os.len() * fs.len()) by (nonlinear_arith)
            requires
                sp.len() == sp0.len() + row.len(),
                sp0.len() == os0.len() * fs.len(),
                row.len() == fs.len(),
                os0.len() == os.len() - 1,
        ;
        assert forall|i: int| 0 <= i < sp.len() implies os.contains(
            (#[trigger] sp[i]).oversampling,
        ) by {
            if i < sp0.len() {
                assert(sp[i] == sp0[i]);
                let k = choose|k: int| 0 <= k < os0.len() && os0[k] == sp0[i].oversampling;
                assert(os[k] == sp[i].oversampling);
            } else {
                assert(sp[i] == row[i - sp0.len()]);
                assert(sp[i].oversampling == os.last());
            }
        }
        assert forall|i: int, j: int| 0 <= i < j < sp.len() implies search_le(
            #[trigger] sp[i],
            #[trigger] sp[j],
        ) by {
            if j < sp0.len() {
                assert(sp[i] == sp0[i] && sp[j] == sp0[j]);
            } else if i < sp0.len() {
                assert(sp[i] == sp0[i] && sp[j] == row[j - sp0.len()]);
                let k = choose|k: int| 0 <= k < os0.len() && os0[k] == sp0[i].oversampling;
                assert(os[k] == sp[i].oversampling);
                assert(sp[j].oversampling == os.last());
                assert(oversampling_rank(os[k]) < oversampling_rank(os[os.len() - 1]));
            } else {
                assert(sp[i] == row[i - sp0.len()] && sp[j] == row[j - sp0.len()]);
                assert(sp[i].oversampling == os.last() && sp[j].oversampling == os.last());
                assert(filtering_rank(fs[i - sp0.len()]) < filtering_rank(fs[j - sp0.len()]));
            }
        }
    }
}

/// The distance-contender product of ascending axes, for one dataset, is
/// strictly ascending, has one entry per pair, and keeps that dataset.
proof fn lemma_distance_block_props(
    d: u32,
    dis: Seq<ScenarioDistance>,
    cs: Seq<ScenarioContender>,
)
    requires
        distances_ascending(dis),
        contenders_ascending(cs),
    ensures
        distance_block(d, dis, cs).len() == dis.len() * cs.len(),
        forall|i: int|
            0 <= i < distance_block(d, dis, cs).len() ==> (#[trigger] distance_block(
                d,
                dis,
                cs,
            )[i]).dataset == d,
        forall|i: int|
            0 <= i < distance_block(d, dis, cs).len() ==> dis.contains(
                (#[trigger] distance_block(d, dis, cs)[i]).distance,
            ),
        forall|i: int, j: int|
            0 <= i < j < distance_block(d, dis, cs).len() ==> build_lt(
                #[trigger] distance_block(d, dis, cs)[i],
                #[trigger] distance_block(d, dis, cs)[j],
            ),
    decreases dis.len(),
{
    let db = distance_block(d, dis, cs);
    if dis.len() == 0 {
    } else {
        let dis0 = dis.drop_last();
        let db0 = distance_block(d, dis0, cs);
        let row = contender_row(d, dis.last(), cs);
        assert(distances_ascending(dis0));
        lemma_distance_block_props(d, dis0, cs);
        assert(db.len() == dis.len() * cs.len()) by (nonlinear_arith)
            requires
                db.len() == db0.len() + row.len(),
                db0.len() == dis0.len() * cs.len(),
                row.len() == cs.len(),
                dis0.len() == dis.len() - 1,
        ;
        assert forall|i: int| 0 <= i < db.len() implies (#[trigger] db[i]).dataset == d
            && dis.contains(db[i].distance) by {
            if i < db0.len() {
                assert(db[i] == db0[i]);
                let k = choose|k: int| 0 <= k < dis0.len() && dis0[k] == db0[i].distance;
                assert(dis[k] == db[i].distance);
            } else {
                assert(db[i] == row[i - db0.len()]);
                assert(db[i].distance == dis.last());
            }
        }
        assert forall|i: int, j: int| 0 <= i < j < db.len() implies build_lt(
            #[trigger] db[i],
            #[trigger] db[j],
        ) by {
            if j < db0.len() {
                assert(db[i] == db0[i] && db[j] == db0[j]);
            } else if i < db0.len() {
                assert(db[i] == db0[i] && db[j] == row[j - db0.len()]);
                let k = choose|k: int| 0 <= k < dis0.len() && dis0[k] == db0[i].distance;
                assert(dis[k] == db[i].distance);
                assert(db[j].distance == dis.last());
                assert(distance_rank(dis[k]) < distance_rank(dis[dis.len() - 1]));
            } else {
                assert(db[i] == row[i - db0.len()] && db[j] == row[j - db0.len()]);
                assert(db[i].distance == dis.last() && db[j].distance == dis.last());
                assert(contender_rank(cs[i - db0.len()]) < contender_rank(cs[j - db0.len()]));
            }
        }
    }
}

/// The build product of ascending axes is strictly ascending and has one
/// entry per (dataset, distance, contender) triple.
proof fn lemma_builds_seq_props(
    ds: Seq<u32>,
    dis: Seq<ScenarioDistance>,
    cs: Seq<ScenarioContender>,
)
    requires
        datasets_ascending(ds),
        distances_ascending(dis),
        contenders_ascending(cs),
    ensures
        builds_seq(ds, dis, cs).len() == ds.len() * (dis.len() * cs.len()),
        forall|i: int|
            0 <= i < builds_seq(ds, dis, cs).len() ==> ds.contains(
                (#[trigger] builds_seq(ds, dis, cs)[i]).dataset,
            ),
        forall|i: int, j: int|
            0 <= i < j < builds_seq(ds, dis, cs).len() ==> build_lt(
                #[trigger] builds_seq(ds, dis, cs)[i],
                #[trigger] builds_seq(ds, dis, cs)[j],
            ),
    decreases ds.len(),
{
    let bs = builds_seq(ds, dis, cs);
    if ds.len() == 0 {
    } else {
        let ds0 = ds.drop_last();
        let bs0 = builds_seq(ds0, dis, cs);
        let block = distance_block(ds.last(), dis, cs);
        assert(datasets_ascending(ds0));
        lemma_builds_seq_props(ds0, dis, cs);
        lemma_distance_block_props(ds.last(), dis, cs);
        assert(bs.len() == ds.len() * (dis.len() * cs.len())) by (nonlinear_arith)
            requires
                bs.len() == bs0.len() + block.len(),
                bs0.len() == ds0.len() * (dis.len() * cs.len()),
                block.len() == dis.len() * cs.len(),
                ds0.len() == ds.len() - 1,
        ;
        assert forall|i: int| 0 <= i < bs.len() implies ds.contains(
            (#[trigger] bs[i]).dataset,
        ) by {
            if i < bs0.len() {
                assert(bs[i] == bs0[i]);
                let k = choose|k: int| 0 <= k < ds0.len() && ds0[k] == bs0[i].dataset;
                assert(ds[k] == bs[i].dataset);
            } else {
                assert(bs[i] == block[i - bs0.len()]);
                assert(bs[i].dataset == ds.last());
            }
        }
        assert forall|i: int, j: int| 0 <= i < j < bs.len() implies build_lt(
            #[trigger] bs[i],
            #[trigger] bs[j],
        ) by {
            if j < bs0.len() {
                assert(bs[i] == bs0[i] && bs[j] == bs0[j]);
            } else if i < bs0.len() {
                assert(bs[i] == bs0[i] && bs[j] == block[j - bs0.len()]);
                let k = choose|k: int| 0 <= k < ds0.len() && ds0[k] == bs0[i].dataset;
                assert(ds[k] == bs[i].dataset);
                assert(bs[j].dataset == ds.last());
                assert(ds[k] < ds[ds.len() - 1]);
            } else {
                assert(bs[i] == block[i - bs0.len()] && bs[j] == block[j - bs0.len()]);
            }
        }
    }
}

/// How long the scenario matrix is: one entry per build and search pair.
proof fn lemma_matrix_len(bs: Seq<ScenarioBuild>, ss: Seq<ScenarioSearch>)
    ensures
        scenario_matrix(bs, ss).len() == bs.len() * ss.len(),
    decreases bs.len(),
{
    if bs.len() == 0 {
    } else {
        lemma_matrix_len(bs.drop_last(), ss);
        assert(scenario_matrix(bs, ss).len() == bs.len() * ss.len()) by (nonlinear_arith)
            requires
                scenario_matrix(bs, ss).len() == scenario_matrix(bs.drop_last(), ss).len()
                    + build_row(bs.last(), ss).len(),
                scenario_matrix(bs.drop_last(), ss).len() == (bs.len() - 1) * ss.len(),
                build_row(bs.last(), ss).len() == ss.len(),
        ;
    }
}

/// The scenario matrix of a strictly ascending build product and a sorted
/// search product is sorted.
proof fn lemma_matrix_sorted(bs: Seq<ScenarioBuild>, ss: Seq<ScenarioSearch>)
    requires
        forall|i: int, j: int| 0 <= i < j < bs.len() ==> build_lt(#[trigger] bs[i], #[trigger] bs[j]),
        forall|i: int, j: int| 0 <= i < j < ss.len() ==> search_le(#[trigger] ss[i], #[trigger] ss[j]),
    ensures
        scenarios_sorted(scenario_matrix(bs, ss)),
        forall|i: int|
            0 <= i < scenario_matrix(bs, ss).len() ==> bs.contains(
                (#[trigger] scenario_matrix(bs, ss)[i]).build,
            ),
    decreases bs.len(),
{
    let m = scenario_matrix(bs, ss);
    if bs.len() == 0 {
    } else {
        let bs0 = bs.drop_last();
        let m0 = scenario_matrix(bs0, ss);
        let row = build_row(bs.last(), ss);
        lemma_matrix_sorted(bs0, ss);
        assert forall|i: int| 0 <= i < m.len() implies bs.contains((#[trigger] m[i]).build) by {
            if i < m0.len() {
                assert(m[i] == m0[i]);
                let k = choose|k: int| 0 <= k < bs0.len() && bs0[k] == m0[i].build;
                assert(bs[k] == m[i].build);
            } else {
                assert(m[i] == row[i - m0.len()]);
                assert(m[i].build == bs.last());
            }
        }
        assert forall|i: int, j: int| 0 <= i < j < m.len() implies scenario_le(
            #[trigger] m[i],
            #[trigger] m[j],
        ) by {
            if j < m0.len() {
                assert(m[i] == m0[i] && m[j] == m0[j]);
            } else if i < m0.len() {
                assert(m[i] == m0[i] && m[j] == row[j - m0.len()]);
                let k = choose|k: int| 0 <= k < bs0.len() && bs0[k] == m0[i].build;
                assert(bs[k] == m[i].build);
                assert(m[j].build == bs.last());
                assert(build_lt(bs[k], bs[bs.len() - 1]));
            } else {
                assert(m[i] == row[i - m0.len()] && m[j] == row[j - m0.len()]);
                assert(m[i].build == bs.last() && m[j].build == bs.last());
                assert(search_le(ss[i - m0.len()], ss[j - m0.len()]));
            }
        }
    }
}

/// A group whose scenarios are exactly one build's row carries that build
/// and sweeps exactly the row's searches.
proof fn lemma_group_matches_row(g: ScenarioGroup, b: ScenarioBuild, ss: Seq<ScenarioSearch>)
    requires
        ss.len() > 0,
        group_scenarios_of(g) == build_row(b, ss),
    ensures
        g.build == b,
        g.searches@ == ss,
{
    let gseq = group_scenarios_of(g);
    let row = build_row(b, ss);
    assert(gseq.len() == g.searches@.len());
    assert(row.len() == ss.len());
    assert(g.searches@.len() == ss.len());
    assert(gseq[0] == row[0]);
    assert forall|t: int| 0 <= t < ss.len() implies g.searches@[t] == ss[t] by {
        assert(gseq[t] == row[t]);
    }
    assert(g.searches@ =~= ss);
}

/// Nonempty groups cannot flatten to nothing.
proof fn lemma_flatten_empty(gs: Seq<ScenarioGroup>)
    requires
        forall|t: int| 0 <= t < gs.len() ==> (#[trigger] gs[t]).searches@.len() > 0,
        groups_flatten(gs).len() == 0,
    ensures
        gs.len() == 0,
{
    if gs.len() > 0 {
        assert(groups_flatten(gs) == groups_flatten(gs.drop_last()) + group_scenarios_of(
            gs.last(),
        ));
        assert(group_scenarios_of(gs.last()).len() > 0);
        assert(false);
    }
}

/// When the last group spans more entries than one search sweep, it would
/// bridge two different builds: impossible.
proof fn lemma_last_run_not_longer(
    gs: Seq<ScenarioGroup>,
    bs: Seq<ScenarioBuild>,
    ss: Seq<ScenarioSearch>,
)
    requires
        ss.len() > 0,
        bs.len() > 0,
        gs.len() > 0,
        forall|i: int, j: int| 0 <= i < j < bs.len() ==> #[trigger] bs[i] != #[trigger] bs[j],
        groups_flatten(gs) == scenario_matrix(bs, ss),
        forall|t: int| 0 <= t < gs.len() ==> (#[trigger] gs[t]).searches@.len() > 0,
    ensures
        gs.last().searches@.len() <= ss.len(),
{
    let m = scenario_matrix(bs, ss);
    lemma_matrix_len(bs, ss);
    let n = bs.len();
    let s = ss.len();
    let total = m.len() as int;
    let g = gs.last();
    let gbody = gs.drop_last();
    let glen = g.searches@.len() as int;
    let gseq = group_scenarios_of(g);
    let bs0 = bs.drop_last();
    let m0 = scenario_matrix(bs0, ss);
    let row = build_row(bs.last(), ss);
    let flat0 = groups_flatten(gbody);
    assert(m == m0 + row);
    assert(groups_flatten(gs) == flat0 + gseq);
    assert(gseq.len() == glen);
    if glen > s {
        assert(n >= 2) by (nonlinear_arith)
            requires
                glen > s,
                glen <= total,
                total == n * s,
                s >= 1,
        ;
        let p = total - s - 1;
        assert(m[p] == m0[p]);
        lemma_matrix_last(bs0, ss);
        assert(m0[p] == m0.last());
        assert(m0.last().build == bs0.last());
        assert((flat0 + gseq)[p] == gseq[p - flat0.len()]);
        assert(gseq[p - flat0.len()].build == g.build);
        assert((flat0 + gseq)[total - 1] == gseq[glen - 1]);
        assert(m[total - 1] == row[s - 1]);
        assert(row[s - 1].build == bs.last());
        assert(g.build == bs.last());
        assert(bs0.last() == bs[n - 2] && bs.last() == bs[n - 1]);
        assert(bs[n - 2] != bs[n - 1]);
        assert(false);
    }
}

/// When the last group spans fewer entries than one search sweep, the group
/// before it would share its build: impossible for maximal runs.
proof fn lemma_last_run_not_shorter(
    gs: Seq<ScenarioGroup>,
    bs: Seq<ScenarioBuild>,
    ss: Seq<ScenarioSearch>,
)
    requires
        ss.len() > 0,
        bs.len() > 0,
        gs.len() > 0,
        groups_flatten(gs) == scenario_matrix(bs, ss),
        forall|t: int| 0 <= t < gs.len() ==> (#[trigger] gs[t]).searches@.len() > 0,
        forall|t: int, u: int|
        #![trigger gs[t], gs[u]]
        0 <= t && u == t + 1 && u < gs.len() ==> gs[t].build != gs[u].build,
    ensures
        gs.last().searches@.len() >= ss.len(),
{
    let m = scenario_matrix(bs, ss);
    lemma_matrix_len(bs, ss);
    let s = ss.len();
    let total = m.len() as int;
    let g = gs.last();
    let gbody = gs.drop_last();
    let glen = g.searches@.len() as int;
    let gseq = group_scenarios_of(g);
    let bs0 = bs.drop_last();
    let m0 = scenario_matrix(bs0, ss);
    let row = build_row(bs.last(), ss);
    let flat0 = groups_flatten(gbody);
    assert(m == m0 + row);
    assert(groups_flatten(gs) == flat0 + gseq);
    assert(gseq.len() == glen);
    if glen < s {
        let p = total - glen - 1;
        assert(p >= m0.len());
        assert(m[p] == row[p - m0.len()]);
        assert(row[p - m0.len()].build == bs.last());
        assert(flat0.len() > 0);
        assert(gbody.len() > 0);
        let g2 = gbody.last();
        assert(flat0 == groups_flatten(gbody.drop_last()) + group_scenarios_of(g2));
        assert(group_scenarios_of(g2).len() > 0);
        assert((flat0 + gseq)[p] == flat0[p]);
        assert(flat0[p] == flat0.last());
        assert(flat0.last() == group_scenarios_of(g2).last());
        assert(group_scenarios_of(g2).last().build == g2.build);
        assert(g2.build == bs.last());
        assert((flat0 + gseq)[total - 1] == gseq[glen - 1]);
        assert(m[total - 1] == row[s - 1]);
        assert(g.build == bs.last());
        assert(gs[gs.len() - 2] == g2 && gs[gs.len() - 1] == g);
        assert(g2.build != g.build);
        assert(false);
    }
}

/// A maximal-run grouping of the scenario matrix of pairwise distinct builds
/// recovers the matrix's structure: one group per build, in order, each
/// sweeping the whole search product.
proof fn lemma_grouping_of_matrix(
    gs: Seq<ScenarioGroup>,
    bs: Seq<ScenarioBuild>,
    ss: Seq<ScenarioSearch>,
)
    requires
        ss.len() > 0,
        forall|i: int, j: int| 0 <= i < j < bs.len() ==> #[trigger] bs[i] != #[trigger] bs[j],
        groups_flatten(gs) == scenario_matrix(bs, ss),
        forall|t: int| 0 <= t < gs.len() ==> (#[trigger] gs[t]).searches@.len() > 0,
        forall|t: int, u: int|
        #![trigger gs[t], gs[u]]
        0 <= t && u == t + 1 && u < gs.len() ==> gs[t].build != gs[u].build,
    ensures
        gs.len() == bs.len(),
        forall|t: int| 0 <= t < gs.len() ==> (#[trigger] gs[t]).build == bs[t],
        forall|t: int| 0 <= t < gs.len() ==> (#[trigger] gs[t]).searches@.len() == ss.len(),
        forall|t: int, u: int|
            0 <= t < gs.len() && 0 <= u < ss.len() ==> #[trigger] gs[t].searches@[u] == ss[u],
    decreases bs.len(),
{
    let m = scenario_matrix(bs, ss);
    lemma_matrix_len(bs, ss);
    if bs.len() == 0 {
        lemma_flatten_empty(gs);
    } else {
        let n = bs.len();
        let s = ss.len();
        let total = m.len();
        assert(total >= s) by (nonlinear_arith)
            requires
                total == n * s,
                n >= 1,
                s >= 1,
        ;
        assert(gs.len() > 0) by {
            if gs.len() == 0 {
                assert(groups_flatten(gs).len() == 0);
            }
        }
        let g = gs.last();
        let gbody = gs.drop_last();
        let gseq = group_scenarios_of(g);
        let bs0 = bs.drop_last();
        let m0 = scenario_matrix(bs0, ss);
        let row = build_row(bs.last(), ss);
        let flat0 = groups_flatten(gbody);
        assert(m == m0 + row);
        assert(groups_flatten(gs) == flat0 + gseq);
        lemma_last_run_not_longer(gs, bs, ss);
        lemma_last_run_not_shorter(gs, bs, ss);
        assert(gseq.len() == s && row.len() == s);
        lemma_concat_cancel_suffix(flat0, gseq, m0, row);
        lemma_group_matches_row(g, bs.last(), ss);
        lemma_grouping_of_matrix(gbody, bs0, ss);
        assert forall|t: int| 0 <= t < gs.len() implies (#[trigger] gs[t]).build == bs[t]
            && gs[t].searches@.len() == ss.len() by {
            if t < gs.len() - 1 {
                assert(gs[t] == gbody[t]);
                assert(bs[t] == bs0[t]);
            }
        }
        assert forall|t: int, u: int|
            0 <= t < gs.len() && 0 <= u < ss.len() implies #[trigger] gs[t].searches@[u]
            == ss[u] by {
            if t < gs.len() - 1 {
                assert(gs[t] == gbody[t]);
            } else {
                assert(gs[t] == g);
            }
        }
    }
}

/// The last scenario of a nonempty matrix carries the last build.
proof fn lemma_matrix_last(bs: Seq<ScenarioBuild>, ss: Seq<ScenarioSearch>)
    requires
        bs.len() > 0,
        ss.len() > 0,
    ensures
        scenario_matrix(bs, ss).len() > 0,
        scenario_matrix(bs, ss).last().build == bs.last(),
{
    let row = build_row(bs.last(), ss);
    assert(scenario_matrix(bs, ss).last() == row[ss.len() - 1]);
}

/// Two sorted scenario lists holding the same entries are equal.
proof fn lemma_sorted_scenarios_unique(a: Seq<Scenario>, b: Seq<Scenario>)
    requires
        scenarios_sorted(a),
        scenarios_sorted(b),
        a.to_multiset() == b.to_multiset(),
    ensures
        a == b,
{
    let leq = |x: Scenario, y: Scenario| scenario_le(x, y);
    lemma_scenario_le_total();
    assert(total_ordering(leq)) by {
        assert forall|x: Scenario| #[trigger] leq(x, x) by {}
        assert forall|x: Scenario, y: Scenario| #[trigger] leq(x, y) || #[trigger] leq(y, x) by {}
        assert forall|x: Scenario, y: Scenario|
            #[trigger] leq(x, y) && #[trigger] leq(y, x) implies x == y by {}
        assert forall|x: Scenario, y: Scenario, z: Scenario|
            #[trigger] leq(x, y) && #[trigger] leq(y, z) implies leq(x, z) by {}
    }
    assert(sorted_by(a, leq)) by {
        assert forall|i: int, j: int| 0 <= i < j < a.len() implies #[trigger] leq(a[i], a[j]) by {
            assert(scenario_le(a[i], a[j]));
        }
    }
    assert(sorted_by(b, leq)) by {
        assert forall|i: int, j: int| 0 <= i < j < b.len() implies #[trigger] leq(b[i], b[j]) by {
            assert(scenario_le(b[i], b[j]));
        }
    }
    lemma_sorted_unique(a, b, leq);
}

/// How long the search product is.
proof fn lemma_search_pairs_len(os: Seq<ScenarioOversampling>, fs: Seq<ScenarioFiltering>)
    ensures
        search_pairs(os, fs).len() == os.len() * fs.len(),
    decreases os.len(),
{
    if os.len() == 0 {
    } else {
        lemma_search_pairs_len(os.drop_last(), fs);
        assert(search_pairs(os, fs).len() == os.len() * fs.len()) by (nonlinear_arith)
            requires
                search_pairs(os, fs).len() == search_pairs(os.drop_last(), fs).len()
                    + search_row(os.last(), fs).len(),
                search_pairs(os.drop_last(), fs).len() == (os.len() - 1) * fs.len(),
                search_row(os.last(), fs).len() == fs.len(),
        ;
    }
}

/// The build product of ascending axes has pairwise distinct entries.
proof fn lemma_builds_distinct(ds: Seq<u32>, dis: Seq<ScenarioDistance>, cs: Seq<ScenarioContender>)
    requires
        datasets_ascending(ds),
        distances_ascending(dis),
        contenders_ascending(cs),
    ensures
        forall|i: int, j: int|
            0 <= i < j < builds_seq(ds, dis, cs).len() ==> #[trigger] builds_seq(ds, dis, cs)[i]
                != #[trigger] builds_seq(ds, dis, cs)[j],
{
    lemma_builds_seq_props(ds, dis, cs);
    assert forall|i: int, j: int|
        0 <= i < j < builds_seq(ds, dis, cs).len() implies #[trigger] builds_seq(ds, dis, cs)[i]
        != #[trigger] builds_seq(ds, dis, cs)[j] by {
        assert(build_lt(builds_seq(ds, dis, cs)[i], builds_seq(ds, dis, cs)[j]));
    }
}

/// The group count and sweep width of a maximal-run grouping of the matrix,
/// stated over abstract build and search products.
proof fn lemma_grouping_counts_abstract(
    gs: Seq<ScenarioGroup>,
    bs: Seq<ScenarioBuild>,
    ss: Seq<ScenarioSearch>,
)
    requires
        ss.len() > 0,
        forall|i: int, j: int| 0 <= i < j < bs.len() ==> #[trigger] bs[i] != #[trigger] bs[j],
        groups_flatten(gs) == scenario_matrix(bs, ss),
        forall|t: int| 0 <= t < gs.len() ==> (#[trigger] gs[t]).searches@.len() > 0,
        forall|t: int, u: int|
        #![trigger gs[t], gs[u]]
        0 <= t && u == t + 1 && u < gs.len() ==> gs[t].build != gs[u].build,
    ensures
        gs.len() == bs.len(),
        forall|t: int| 0 <= t < gs.len() ==> (#[trigger] gs[t]).searches@.len() == ss.len(),
{
    lemma_grouping_of_matrix(gs, bs, ss);
}

/// A grouped, sorted plan whose entries are the scenario matrix's entries
/// is the matrix itself.
proof fn lemma_flatten_is_matrix(
    gs: Seq<ScenarioGroup>,
    ds: Seq<u32>,
    dis: Seq<ScenarioDistance>,
    cs: Seq<ScenarioContender>,
    os: Seq<ScenarioOversampling>,
    fs: Seq<ScenarioFiltering>,
)
    requires
        datasets_ascending(ds),
        distances_ascending(dis),
        contenders_ascending(cs),
        oversamplings_ascending(os),
        filterings_ascending(fs),
        scenarios_sorted(groups_flatten(gs)),
        groups_flatten(gs).to_multiset() == scenario_matrix(
            builds_seq(ds, dis, cs),
            search_pairs(os, fs),
        ).to_multiset(),
    ensures
        groups_flatten(gs) == scenario_matrix(builds_seq(ds, dis, cs), search_pairs(os, fs)),
{
    let bs = builds_seq(ds, dis, cs);
    let ss = search_pairs(os, fs);
    lemma_search_pairs_props(os, fs);
    lemma_builds_seq_props(ds, dis, cs);
    lemma_matrix_sorted(bs, ss);
    lemma_sorted_scenarios_unique(groups_flatten(gs), scenario_matrix(bs, ss));
}

/// Every planned run of strictly ascending axes has exactly one build group
/// per (dataset, distance, contender) triple, and every group sweeps the
/// whole (oversampling, filtering) product: the index of each triple is
/// built once however many search parameters vary on it.
pub proof fn lemma_plan_counts(
    gs: Seq<ScenarioGroup>,
    ds: Seq<u32>,
    dis: Seq<ScenarioDistance>,
    cs: Seq<ScenarioContender>,
    os: Seq<ScenarioOversampling>,
    fs: Seq<ScenarioFiltering>,
)
    requires
        datasets_ascending(ds),
        distances_ascending(dis),
        contenders_ascending(cs),
        oversamplings_ascending(os),
        filterings_ascending(fs),
        os.len() > 0,
        fs.len() > 0,
        is_grouping(groups_flatten(gs), gs),
        scenarios_sorted(groups_flatten(gs)),
        groups_flatten(gs).to_multiset() == scenario_matrix(
            builds_seq(ds, dis, cs),
            search_pairs(os, fs),
        ).to_multiset(),
    ensures
        gs.len() == ds.len() * dis.len() * cs.len(),
        forall|t: int|
            0 <= t < gs.len() ==> (#[trigger] gs[t]).searches@.len() == os.len() * fs.len(),
{
    let bs = builds_seq(ds, dis, cs);
    let ss = search_pairs(os, fs);
    lemma_flatten_is_matrix(gs, ds, dis, cs, os, fs);
    lemma_search_pairs_len(os, fs);
    assert(ss.len() > 0) by (nonlinear_arith)
        requires
            ss.len() == os.len() * fs.len(),
            os.len() > 0,
            fs.len() > 0,
    ;
    lemma_builds_distinct(ds, dis, cs);
    lemma_grouping_counts_abstract(gs, bs, ss);
    lemma_builds_seq_props(ds, dis, cs);
    assert(gs.len() == ds.len() * dis.len() * cs.len()) by (nonlinear_arith)
        requires
            gs.len() == ds.len() * (dis.len() * cs.len()),
    ;
}

} // verus!
