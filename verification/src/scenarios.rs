//! The scenario matrix: the cross product of dataset, distance metric,
//! contender, oversampling factor and filtering ratio, sorted
//! lexicographically and partitioned into build groups. All entries of one
//! group share dataset, distance and contender, so the index they query is
//! built exactly once per group while the search parameters vary.
use vstd::prelude::*;

use crate::seqs::lemma_insert_to_multiset;

verus! {

broadcast use vstd::seq_lib::group_to_multiset_ensures, vstd::multiset::group_multiset_axioms;

/// Distance metric an engine is driven under.
#[derive(Clone, Copy, PartialEq, Eq, Hash, Structural, Debug)]
pub enum ScenarioDistance {
    Cosine,
    Euclidean,
    Manhattan,
}

/// Engine that answers the approximate queries.
#[derive(Clone, Copy, PartialEq, Eq, Hash, Structural, Debug)]
pub enum ScenarioContender {
    Arroy,
    Qdrant,
}

/// Multiplier telling the engine to fetch more candidates than requested
/// before cutting its answer down to K.
#[derive(Clone, Copy, PartialEq, Eq, Hash, Structural, Debug)]
pub enum ScenarioOversampling {
    X1,
    X2,
    X3,
}

/// Share of the points that queries are restricted to; `NoFilter` means no
/// restriction at all, which is distinct from an empty restriction.
#[derive(Clone, Copy, PartialEq, Eq, Hash, Structural, Debug)]
pub enum ScenarioFiltering {
    NoFilter,
    Filter10,
    Filter50,
    Filter100,
}

/// Position of a distance metric in the lexicographic scenario order.
pub open spec fn distance_rank(d: ScenarioDistance) -> int {
    match d {
        ScenarioDistance::Cosine => 0,
        ScenarioDistance::Euclidean => 1,
        ScenarioDistance::Manhattan => 2,
    }
}

/// Position of a contender in the lexicographic scenario order.
pub open spec fn contender_rank(c: ScenarioContender) -> int {
    match c {
        ScenarioContender::Arroy => 0,
        ScenarioContender::Qdrant => 1,
    }
}

/// Position of an oversampling factor in the lexicographic scenario order.
pub open spec fn oversampling_rank(o: ScenarioOversampling) -> int {
    match o {
        ScenarioOversampling::X1 => 0,
        ScenarioOversampling::X2 => 1,
        ScenarioOversampling::X3 => 2,
    }
}

/// Position of a filtering ratio in the lexicographic scenario order.
pub open spec fn filtering_rank(f: ScenarioFiltering) -> int {
    match f {
        ScenarioFiltering::NoFilter => 0,
        ScenarioFiltering::Filter10 => 1,
        ScenarioFiltering::Filter50 => 2,
        ScenarioFiltering::Filter100 => 3,
    }
}

impl ScenarioOversampling {
    /// The oversampling hint handed to an engine: nothing for x1, the factor
    /// itself otherwise.
    pub fn to_non_zero_usize(self) -> (r: Option<usize>)
        ensures
            r == (match self {
                ScenarioOversampling::X1 => None::<usize>,
                ScenarioOversampling::X2 => Some(2usize),
                ScenarioOversampling::X3 => Some(3usize),
            }),
    {
        match self {
            ScenarioOversampling::X1 => None,
            ScenarioOversampling::X2 => Some(2),
            ScenarioOversampling::X3 => Some(3),
        }
    }
}

/// The percentage of points a filtering ratio keeps eligible.
pub open spec fn filtering_percent(f: ScenarioFiltering) -> int {
    match f {
        ScenarioFiltering::NoFilter => 0,
        ScenarioFiltering::Filter10 => 10,
        ScenarioFiltering::Filter50 => 50,
        ScenarioFiltering::Filter100 => 100,
    }
}

impl ScenarioFiltering {
    /// The percentage of points this ratio keeps eligible.
    pub fn to_ratio_percent(self) -> (r: u32)
        ensures
            r as int == filtering_percent(self),
    {
        match self {
            ScenarioFiltering::NoFilter => 0,
            ScenarioFiltering::Filter10 => 10,
            ScenarioFiltering::Filter50 => 50,
            ScenarioFiltering::Filter100 => 100,
        }
    }
}

/// The search parameters that vary inside one build group.
#[derive(Clone, Copy, PartialEq, Eq, Hash, Structural, Debug)]
pub struct ScenarioSearch {
    pub oversampling: ScenarioOversampling,
    pub filtering: ScenarioFiltering,
}

/// The axes that determine which index is built: building is the dominant
/// cost, so scenarios sharing these three fields are evaluated on one index.
#[derive(Clone, Copy, PartialEq, Eq, Hash, Structural, Debug)]
pub struct ScenarioBuild {
    pub dataset: u32,
    pub distance: ScenarioDistance,
    pub contender: ScenarioContender,
}

/// One entry of the scenario matrix.
#[derive(Clone, Copy, PartialEq, Eq, Hash, Structural, Debug)]
pub struct Scenario {
    pub build: ScenarioBuild,
    pub search: ScenarioSearch,
}

/// Lexicographic order on the build axes.
pub open spec fn build_le(a: ScenarioBuild, b: ScenarioBuild) -> bool {
    if a.dataset != b.dataset {
        a.dataset < b.dataset
    } else if distance_rank(a.distance) != distance_rank(b.distance) {
        distance_rank(a.distance) < distance_rank(b.distance)
    } else {
        contender_rank(a.contender) <= contender_rank(b.contender)
    }
}

/// Lexicographic order on the search axes.
pub open spec fn search_le(a: ScenarioSearch, b: ScenarioSearch) -> bool {
    if oversampling_rank(a.oversampling) != oversampling_rank(b.oversampling) {
        oversampling_rank(a.oversampling) < oversampling_rank(b.oversampling)
    } else {
        filtering_rank(a.filtering) <= filtering_rank(b.filtering)
    }
}

/// Lexicographic order over the whole scenario tuple: dataset, then distance,
/// then contender, then oversampling, then filtering.
pub open spec fn scenario_le(a: Scenario, b: Scenario) -> bool {
    if a.build != b.build {
        build_le(a.build, b.build)
    } else {
        search_le(a.search, b.search)
    }
}

/// Ranks are faithful to the variants: equal ranks mean equal values.
proof fn lemma_ranks_injective()
    ensures
        forall|x: ScenarioDistance, y: ScenarioDistance|
            distance_rank(x) == distance_rank(y) ==> x == y,
        forall|x: ScenarioContender, y: ScenarioContender|
            contender_rank(x) == contender_rank(y) ==> x == y,
        forall|x: ScenarioOversampling, y: ScenarioOversampling|
            oversampling_rank(x) == oversampling_rank(y) ==> x == y,
        forall|x: ScenarioFiltering, y: ScenarioFiltering|
            filtering_rank(x) == filtering_rank(y) ==> x == y,
{
}

/// The scenario order compares every pair of scenarios, agreeing both ways
/// only on equal ones.
pub proof fn lemma_scenario_le_total()
    ensures
        forall|a: Scenario| #[trigger] scenario_le(a, a),
        forall|a: Scenario, b: Scenario| #[trigger] scenario_le(a, b) || #[trigger] scenario_le(
            b,
            a,
        ),
        forall|a: Scenario, b: Scenario|
            #[trigger] scenario_le(a, b) && #[trigger] scenario_le(b, a) ==> a == b,
        forall|a: Scenario, b: Scenario, c: Scenario|
            #[trigger] scenario_le(a, b) && #[trigger] scenario_le(b, c) ==> scenario_le(a, c),
{
    lemma_ranks_injective();
    assert forall|a: Scenario, b: Scenario|
        #[trigger] scenario_le(a, b) && #[trigger] scenario_le(b, a) implies a == b by {
        if a.build != b.build {
            assert(build_le(a.build, b.build) && build_le(b.build, a.build));
            assert(false);
        }
    }
    assert forall|a: Scenario, b: Scenario, c: Scenario|
        #[trigger] scenario_le(a, b) && #[trigger] scenario_le(b, c) implies scenario_le(
        a,
        c,
    ) by {}
}

/// The sequence is in lexicographic scenario order.
pub open spec fn scenarios_sorted(s: Seq<Scenario>) -> bool {
    forall|i: int, j: int| 0 <= i < j < s.len() ==> scenario_le(#[trigger] s[i], #[trigger] s[j])
}

/// Whether scenario `a` strictly precedes `b` in the lexicographic order.
fn scenario_le_ex(a: Scenario, b: Scenario) -> (r: bool)
    ensures
        r == scenario_le(a, b),
{
    let (ad, bd) = (a.build.dataset, b.build.dataset);
    if ad != bd {
        return ad < bd;
    }
    let ar = distance_rank_ex(a.build.distance);
    let br = distance_rank_ex(b.build.distance);
    if ar != br {
        return ar < br;
    }
    let ac = contender_rank_ex(a.build.contender);
    let bc = contender_rank_ex(b.build.contender);
    if ac != bc {
        return ac < bc;
    }
    proof {
        lemma_ranks_injective();
        assert(a.build == b.build);
    }
    let ao = oversampling_rank_ex(a.search.oversampling);
    let bo = oversampling_rank_ex(b.search.oversampling);
    if ao != bo {
        return ao < bo;
    }
    let af = filtering_rank_ex(a.search.filtering);
    let bf = filtering_rank_ex(b.search.filtering);
    af <= bf
}

/// Executable twin of `distance_rank`.
fn distance_rank_ex(d: ScenarioDistance) -> (r: u32)
    ensures
        r as int == distance_rank(d),
{
    match d {
        ScenarioDistance::Cosine => 0,
        ScenarioDistance::Euclidean => 1,
        ScenarioDistance::Manhattan => 2,
    }
}

/// Executable twin of `contender_rank`.
fn contender_rank_ex(c: ScenarioContender) -> (r: u32)
    ensures
        r as int == contender_rank(c),
{
    match c {
        ScenarioContender::Arroy => 0,
        ScenarioContender::Qdrant => 1,
    }
}

/// Executable twin of `oversampling_rank`.
fn oversampling_rank_ex(o: ScenarioOversampling) -> (r: u32)
    ensures
        r as int == oversampling_rank(o),
{
    match o {
        ScenarioOversampling::X1 => 0,
        ScenarioOversampling::X2 => 1,
        ScenarioOversampling::X3 => 2,
    }
}

/// Executable twin of `filtering_rank`.
fn filtering_rank_ex(f: ScenarioFiltering) -> (r: u32)
    ensures
        r as int == filtering_rank(f),
{
    match f {
        ScenarioFiltering::NoFilter => 0,
        ScenarioFiltering::Filter10 => 1,
        ScenarioFiltering::Filter50 => 2,
        ScenarioFiltering::Filter100 => 3,
    }
}

/// Puts one scenario into a sorted list, keeping it sorted.
fn scenario_insert_sorted(out: &mut Vec<Scenario>, e: Scenario)
    requires
        scenarios_sorted(old(out)@),
    ensures
        scenarios_sorted(final(out)@),
        final(out)@.len() == old(out)@.len() + 1,
        final(out)@.to_multiset() == old(out)@.to_multiset().insert(e),
{
    proof {
        lemma_scenario_le_total();
    }
    let mut pos: usize = 0;
    while pos < out.len() && scenario_le_ex(out[pos], e)
        invariant
            pos <= out@.len(),
            forall|i: int| 0 <= i < pos ==> scenario_le(#[trigger] out@[i], e),
        decreases out@.len() - pos,
    {
        pos += 1;
    }
    let ghost pre = out@;
    proof {
        lemma_scenario_le_total();
        assert(pos < pre.len() ==> !scenario_le(pre[pos as int], e));
        assert(forall|i: int| pos <= i < pre.len() ==> scenario_le(e, #[trigger] pre[i]));
    }
    out.insert(pos, e);
    proof {
        lemma_insert_to_multiset(pre, pos as int, e);
        pre.insert_ensures(pos as int, e);
        lemma_scenario_le_total();
        assert forall|i: int, j: int| 0 <= i < j < out@.len() implies scenario_le(
            #[trigger] out@[i],
            #[trigger] out@[j],
        ) by {
            if j < pos {
            } else if i < pos && j == pos {
                assert(out@[i] == pre[i]);
            } else if i < pos && j > pos {
                assert(out@[i] == pre[i] && out@[j] == pre[j - 1]);
            } else if i == pos {
                assert(out@[j] == pre[j - 1]);
            } else {
                assert(out@[i] == pre[i - 1] && out@[j] == pre[j - 1]);
            }
        }
    }
}

/// Sorts the scenario list lexicographically.
pub fn sort_scenarios(v: &mut Vec<Scenario>)
    ensures
        scenarios_sorted(final(v)@),
        final(v)@.to_multiset() == old(v)@.to_multiset(),
{
    let mut out: Vec<Scenario> = Vec::new();
    let mut i: usize = 0;
    while i < v.len()
        invariant
            i <= v@.len(),
            scenarios_sorted(out@),
            out@.to_multiset() == v@.take(i as int).to_multiset(),
        decreases v@.len() - i,
    {
        scenario_insert_sorted(&mut out, v[i]);
        proof {
            assert(v@.take((i + 1) as int) =~= v@.take(i as int).push(v@[i as int]));
        }
        i += 1;
    }
    proof {
        assert(v@.take(v@.len() as int) =~= v@);
    }
    *v = out;
}

/// One build group: the shared build axes and the search parameters swept on
/// that single index.
#[derive(Clone, Debug)]
pub struct ScenarioGroup {
    pub build: ScenarioBuild,
    pub searches: Vec<ScenarioSearch>,
}

/// The scenarios one group stands for, in the order its searches are swept.
pub open spec fn group_scenarios_of(g: ScenarioGroup) -> Seq<Scenario> {
    g.searches@.map_values(|srch: ScenarioSearch| Scenario { build: g.build, search: srch })
}

/// The scenario list a grouping stands for: the groups' scenarios, in order.
pub open spec fn groups_flatten(gs: Seq<ScenarioGroup>) -> Seq<Scenario>
    decreases gs.len(),
{
    if gs.len() == 0 {
        Seq::empty()
    } else {
        groups_flatten(gs.drop_last()) + group_scenarios_of(gs.last())
    }
}

/// `gs` partitions `v` into maximal runs of scenarios sharing their build
/// axes: concatenating the groups restores `v`, no group is empty, and
/// neighboring groups are built differently.
pub open spec fn is_grouping(v: Seq<Scenario>, gs: Seq<ScenarioGroup>) -> bool {
    &&& groups_flatten(gs) == v
    &&& forall|t: int| 0 <= t < gs.len() ==> (#[trigger] gs[t]).searches@.len() > 0
    &&& forall|t: int, u: int|
        #![trigger gs[t], gs[u]]
        0 <= t && u == t + 1 && u < gs.len() ==> gs[t].build != gs[u].build
}

/// Partitions a scenario list into maximal runs of adjacent entries sharing
/// dataset, distance and contender.
pub fn group_scenarios(v: &Vec<Scenario>) -> (gs: Vec<ScenarioGroup>)
    ensures
        is_grouping(v@, gs@),
{
    let mut gs: Vec<ScenarioGroup> = Vec::new();
    proof {
        assert(groups_flatten(gs@) =~= v@.take(0));
    }
    let mut i: usize = 0;
    while i < v.len()
        invariant
            i <= v@.len(),
            groups_flatten(gs@) == v@.take(i as int),
            forall|t: int| 0 <= t < gs@.len() ==> (#[trigger] gs@[t]).searches@.len() > 0,
            forall|t: int, u: int|
                #![trigger gs@[t], gs@[u]]
                0 <= t && u == t + 1 && u < gs@.len() ==> gs@[t].build != gs@[u].build,
            gs@.len() == 0 ==> i == 0,
            gs@.len() > 0 ==> i > 0 && gs@[gs@.len() - 1].build == v@[i - 1].build,
        decreases v@.len() - i,
    {
        let s = v[i];
        let ghost old_gs = gs@;
        let extend = gs.len() > 0 && {
            let t = gs.len() - 1;
            gs[t].build == s.build
        };
        if extend {
            let mut g = gs.pop().unwrap();
            let ghost old_g = g;
            g.searches.push(s.search);
            gs.push(g);
            proof {
                assert(gs@ =~= old_gs.drop_last().push(g));
                assert(gs@.drop_last() =~= old_gs.drop_last());
                assert(gs@.last() == g);
                assert(groups_flatten(gs@) == groups_flatten(old_gs.drop_last())
                    + group_scenarios_of(g));
                assert(old_gs.last() == old_g);
                assert(groups_flatten(old_gs) == groups_flatten(old_gs.drop_last())
                    + group_scenarios_of(old_g));
                assert(group_scenarios_of(g) =~= group_scenarios_of(old_g).push(s));
                assert(groups_flatten(gs@) =~= groups_flatten(old_gs).push(s));
                assert(v@.take((i + 1) as int) =~= v@.take(i as int).push(v@[i as int]));
            }
        } else {
            let mut searches: Vec<ScenarioSearch> = Vec::new();
            searches.push(s.search);
            let g = ScenarioGroup { build: s.build, searches };
            gs.push(g);
            proof {
                assert(gs@ =~= old_gs.push(g));
                assert(gs@.drop_last() =~= old_gs);
                assert(gs@.last() == g);
                assert(groups_flatten(gs@) == groups_flatten(old_gs) + group_scenarios_of(g));
                assert(group_scenarios_of(g) =~= seq![s]);
                assert(v@.take((i + 1) as int) =~= v@.take(i as int) + seq![s]);
            }
        }
        i += 1;
    }
    proof {
        assert(v@.take(v@.len() as int) =~= v@);
    }
    gs
}

/// One row of search parameters: a fixed oversampling crossed with every
/// filtering ratio.
pub open spec fn search_row(o: ScenarioOversampling, fs: Seq<ScenarioFiltering>) -> Seq<
    ScenarioSearch,
> {
    fs.map_values(|f: ScenarioFiltering| ScenarioSearch { oversampling: o, filtering: f })
}

/// Cross product of the search axes, oversampling-major.
pub open spec fn search_pairs(
    os: Seq<ScenarioOversampling>,
    fs: Seq<ScenarioFiltering>,
) -> Seq<ScenarioSearch>
    decreases os.len(),
{
    if os.len() == 0 {
        Seq::empty()
    } else {
        search_pairs(os.drop_last(), fs) + search_row(os.last(), fs)
    }
}

/// Builds the cross product of the search axes.
pub fn search_product(os: &Vec<ScenarioOversampling>, fs: &Vec<ScenarioFiltering>) -> (out: Vec<
    ScenarioSearch,
>)
    ensures
        out@ == search_pairs(os@, fs@),
{
    let mut out: Vec<ScenarioSearch> = Vec::new();
    proof {
        assert(search_pairs(os@.take(0), fs@) =~= Seq::<ScenarioSearch>::empty());
    }
    let mut i: usize = 0;
    while i < os.len()
        invariant
            i <= os@.len(),
            out@ == search_pairs(os@.take(i as int), fs@),
        decreases os@.len() - i,
    {
        let o = os[i];
        proof {
            assert(out@ =~= search_pairs(os@.take(i as int), fs@) + search_row(o, fs@).take(0));
        }
        let mut j: usize = 0;
        while j < fs.len()
            invariant
                j <= fs@.len(),
                i < os@.len(),
                o == os@[i as int],
                out@ == search_pairs(os@.take(i as int), fs@) + search_row(o, fs@).take(j as int),
            decreases fs@.len() - j,
        {
            out.push(ScenarioSearch { oversampling: o, filtering: fs[j] });
            proof {
                assert(search_row(o, fs@).take((j + 1) as int) =~= search_row(o, fs@).take(
                    j as int,
                ).push(ScenarioSearch { oversampling: o, filtering: fs@[j as int] }));
                assert(out@ =~= search_pairs(os@.take(i as int), fs@) + search_row(o, fs@).take(
                    (j + 1) as int,
                ));
            }
            j += 1;
        }
        proof {
            assert(search_row(o, fs@).take(fs@.len() as int) =~= search_row(o, fs@));
            assert(os@.take((i + 1) as int).drop_last() =~= os@.take(i as int));
            assert(os@.take((i + 1) as int).last() == os@[i as int]);
            assert(search_pairs(os@.take((i + 1) as int), fs@) == search_pairs(
                os@.take(i as int),
                fs@,
            ) + search_row(os@[i as int], fs@));
        }
        i += 1;
    }
    proof {
        assert(os@.take(os@.len() as int) =~= os@);
    }
    out
}

/// One row of build axes: a fixed dataset and distance crossed with every
/// contender.
pub open spec fn contender_row(
    d: u32,
    di: ScenarioDistance,
    cs: Seq<ScenarioContender>,
) -> Seq<ScenarioBuild> {
    cs.map_values(|c: ScenarioContender| ScenarioBuild { dataset: d, distance: di, contender: c })
}

/// Cross product of distances and contenders for one dataset.
pub open spec fn distance_block(
    d: u32,
    dis: Seq<ScenarioDistance>,
    cs: Seq<ScenarioContender>,
) -> Seq<ScenarioBuild>
    decreases dis.len(),
{
    if dis.len() == 0 {
        Seq::empty()
    } else {
        distance_block(d, dis.drop_last(), cs) + contender_row(d, dis.last(), cs)
    }
}

/// Cross product of the build axes, dataset-major.
pub open spec fn builds_seq(
    ds: Seq<u32>,
    dis: Seq<ScenarioDistance>,
    cs: Seq<ScenarioContender>,
) -> Seq<ScenarioBuild>
    decreases ds.len(),
{
    if ds.len() == 0 {
        Seq::empty()
    } else {
        builds_seq(ds.drop_last(), dis, cs) + distance_block(ds.last(), dis, cs)
    }
}

/// Builds the cross product of the build axes.
pub fn builds_product(
    ds: &Vec<u32>,
    dis: &Vec<ScenarioDistance>,
    cs: &Vec<ScenarioContender>,
) -> (out: Vec<ScenarioBuild>)
    ensures
        out@ == builds_seq(ds@, dis@, cs@),
{
    let mut out: Vec<ScenarioBuild> = Vec::new();
    proof {
        assert(builds_seq(ds@.take(0), dis@, cs@) =~= Seq::<ScenarioBuild>::empty());
    }
    let mut i: usize = 0;
    while i < ds.len()
        invariant
            i <= ds@.len(),
            out@ == builds_seq(ds@.take(i as int), dis@, cs@),
        decreases ds@.len() - i,
    {
        let d = ds[i];
        proof {
            assert(out@ =~= builds_seq(ds@.take(i as int), dis@, cs@) + distance_block(
                d,
                dis@.take(0),
                cs@,
            ));
        }
        let mut j: usize = 0;
        while j < dis.len()
            invariant
                j <= dis@.len(),
                i < ds@.len(),
                d == ds@[i as int],
                out@ == builds_seq(ds@.take(i as int), dis@, cs@) + distance_block(
                    d,
                    dis@.take(j as int),
                    cs@,
                ),
            decreases dis@.len() - j,
        {
            let di = dis[j];
            proof {
                assert(out@ =~= builds_seq(ds@.take(i as int), dis@, cs@) + (distance_block(
                    d,
                    dis@.take(j as int),
                    cs@,
                ) + contender_row(d, di, cs@).take(0)));
            }
            let mut t: usize = 0;
            while t < cs.len()
                invariant
                    t <= cs@.len(),
                    j < dis@.len(),
                    i < ds@.len(),
                    d == ds@[i as int],
                    di == dis@[j as int],
                    out@ == builds_seq(ds@.take(i as int), dis@, cs@) + (distance_block(
                        d,
                        dis@.take(j as int),
                        cs@,
                    ) + contender_row(d, di, cs@).take(t as int)),
                decreases cs@.len() - t,
            {
                out.push(ScenarioBuild { dataset: d, distance: di, contender: cs[t] });
                proof {
                    assert(contender_row(d, di, cs@).take((t + 1) as int) =~= contender_row(
                        d,
                        di,
                        cs@,
                    ).take(t as int).push(
                        ScenarioBuild { dataset: d, distance: di, contender: cs@[t as int] },
                    ));
                    assert(out@ =~= builds_seq(ds@.take(i as int), dis@, cs@) + (distance_block(
                        d,
                        dis@.take(j as int),
                        cs@,
                    ) + contender_row(d, di, cs@).take((t + 1) as int)));
                }
                t += 1;
            }
            proof {
                assert(contender_row(d, di, cs@).take(cs@.len() as int) =~= contender_row(
                    d,
                    di,
                    cs@,
                ));
                assert(dis@.take((j + 1) as int).drop_last() =~= dis@.take(j as int));
                assert(dis@.take((j + 1) as int).last() == dis@[j as int]);
                assert(distance_block(d, dis@.take((j + 1) as int), cs@) == distance_block(
                    d,
                    dis@.take(j as int),
                    cs@,
                ) + contender_row(d, dis@[j as int], cs@));
            }
            j += 1;
        }
        proof {
            assert(distance_block(d, dis@.take(dis@.len() as int), cs@) == distance_block(
                d,
                dis@,
                cs@,
            )) by {
                assert(dis@.take(dis@.len() as int) =~= dis@);
            }
            assert(ds@.take((i + 1) as int).drop_last() =~= ds@.take(i as int));
            assert(ds@.take((i + 1) as int).last() == ds@[i as int]);
            assert(builds_seq(ds@.take((i + 1) as int), dis@, cs@) == builds_seq(
                ds@.take(i as int),
                dis@,
                cs@,
            ) + distance_block(ds@[i as int], dis@, cs@));
        }
        i += 1;
    }
    proof {
        assert(ds@.take(ds@.len() as int) =~= ds@);
    }
    out
}

/// The scenarios one build is swept through.
pub open spec fn build_row(b: ScenarioBuild, ss: Seq<ScenarioSearch>) -> Seq<Scenario> {
    ss.map_values(|s: ScenarioSearch| Scenario { build: b, search: s })
}

/// The whole scenario matrix: every build crossed with every search.
pub open spec fn scenario_matrix(bs: Seq<ScenarioBuild>, ss: Seq<ScenarioSearch>) -> Seq<Scenario>
    decreases bs.len(),
{
    if bs.len() == 0 {
        Seq::empty()
    } else {
        scenario_matrix(bs.drop_last(), ss) + build_row(bs.last(), ss)
    }
}

/// Builds the full scenario matrix from the build and search products.
pub fn cross_product(bs: &Vec<ScenarioBuild>, ss: &Vec<ScenarioSearch>) -> (out: Vec<Scenario>)
    ensures
        out@ == scenario_matrix(bs@, ss@),
{
    let mut out: Vec<Scenario> = Vec::new();
    proof {
        assert(scenario_matrix(bs@.take(0), ss@) =~= Seq::<Scenario>::empty());
    }
    let mut i: usize = 0;
    while i < bs.len()
        invariant
            i <= bs@.len(),
            out@ == scenario_matrix(bs@.take(i as int), ss@),
        decreases bs@.len() - i,
    {
        let b = bs[i];
        proof {
            assert(out@ =~= scenario_matrix(bs@.take(i as int), ss@) + build_row(b, ss@).take(0));
        }
        let mut j: usize = 0;
        while j < ss.len()
            invariant
                j <= ss@.len(),
                i < bs@.len(),
                b == bs@[i as int],
                out@ == scenario_matrix(bs@.take(i as int), ss@) + build_row(b, ss@).take(j as int),
            decreases ss@.len() - j,
        {
            out.push(Scenario { build: b, search: ss[j] });
            proof {
                assert(build_row(b, ss@).take((j + 1) as int) =~= build_row(b, ss@).take(
                    j as int,
                ).push(Scenario { build: b, search: ss@[j as int] }));
                assert(out@ =~= scenario_matrix(bs@.take(i as int), ss@) + build_row(b, ss@).take(
                    (j + 1) as int,
                ));
            }
            j += 1;
        }
        proof {
            assert(build_row(b, ss@).take(ss@.len() as int) =~= build_row(b, ss@));
            assert(bs@.take((i + 1) as int).drop_last() =~= bs@.take(i as int));
            assert(bs@.take((i + 1) as int).last() == bs@[i as int]);
            assert(scenario_matrix(bs@.take((i + 1) as int), ss@) == scenario_matrix(
                bs@.take(i as int),
                ss@,
            ) + build_row(bs@[i as int], ss@));
        }
        i += 1;
    }
    proof {
        assert(bs@.take(bs@.len() as int) =~= bs@);
    }
    out
}

/// Plans a run: the cross product of the five axes, sorted lexicographically
/// and partitioned into build groups, so that every distinct index is built
/// exactly once however many search parameters are swept on it.
pub fn plan(
    datasets: &Vec<u32>,
    distances: &Vec<ScenarioDistance>,
    contenders: &Vec<ScenarioContender>,
    oversamplings: &Vec<ScenarioOversampling>,
    filterings: &Vec<ScenarioFiltering>,
) -> (gs: Vec<ScenarioGroup>)
    ensures
        is_grouping(groups_flatten(gs@), gs@),
        scenarios_sorted(groups_flatten(gs@)),
        groups_flatten(gs@).to_multiset() == scenario_matrix(
            builds_seq(datasets@, distances@, contenders@),
            search_pairs(oversamplings@, filterings@),
        ).to_multiset(),
{
    let ss = search_product(oversamplings, filterings);
    let bs = builds_product(datasets, distances, contenders);
    let mut v = cross_product(&bs, &ss);
    sort_scenarios(&mut v);
    group_scenarios(&v)
}

} // verus!
