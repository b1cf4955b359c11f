use benchmarks::scenarios::{
    group_scenarios, plan, sort_scenarios, Scenario, ScenarioBuild, ScenarioContender,
    ScenarioDistance, ScenarioFiltering, ScenarioOversampling, ScenarioSearch,
};

fn scenario(
    dataset: u32,
    distance: ScenarioDistance,
    contender: ScenarioContender,
    oversampling: ScenarioOversampling,
    filtering: ScenarioFiltering,
) -> Scenario {
    Scenario {
        build: ScenarioBuild { dataset, distance, contender },
        search: ScenarioSearch { oversampling, filtering },
    }
}

#[test]
fn oversampling_hint_values() {
    assert_eq!(ScenarioOversampling::X1.to_non_zero_usize(), None);
    assert_eq!(ScenarioOversampling::X2.to_non_zero_usize(), Some(2));
    assert_eq!(ScenarioOversampling::X3.to_non_zero_usize(), Some(3));
}

#[test]
fn filtering_ratio_values() {
    assert_eq!(ScenarioFiltering::NoFilter.to_ratio_percent(), 0);
    assert_eq!(ScenarioFiltering::Filter10.to_ratio_percent(), 10);
    assert_eq!(ScenarioFiltering::Filter50.to_ratio_percent(), 50);
    assert_eq!(ScenarioFiltering::Filter100.to_ratio_percent(), 100);
}

#[test]
fn sort_orders_lexicographically() {
    let a = scenario(
        0,
        ScenarioDistance::Cosine,
        ScenarioContender::Arroy,
        ScenarioOversampling::X1,
        ScenarioFiltering::NoFilter,
    );
    let b = scenario(
        0,
        ScenarioDistance::Cosine,
        ScenarioContender::Arroy,
        ScenarioOversampling::X1,
        ScenarioFiltering::Filter50,
    );
    let c = scenario(
        0,
        ScenarioDistance::Euclidean,
        ScenarioContender::Arroy,
        ScenarioOversampling::X1,
        ScenarioFiltering::NoFilter,
    );
    let d = scenario(
        1,
        ScenarioDistance::Cosine,
        ScenarioContender::Arroy,
        ScenarioOversampling::X1,
        ScenarioFiltering::NoFilter,
    );
    let mut v = vec![d, c, b, a];
    sort_scenarios(&mut v);
    assert_eq!(v, vec![a, b, c, d]);
}

#[test]
fn grouping_splits_on_build_axes() {
    let a = scenario(
        0,
        ScenarioDistance::Cosine,
        ScenarioContender::Arroy,
        ScenarioOversampling::X1,
        ScenarioFiltering::NoFilter,
    );
    let b = scenario(
        0,
        ScenarioDistance::Cosine,
        ScenarioContender::Arroy,
        ScenarioOversampling::X2,
        ScenarioFiltering::NoFilter,
    );
    let c = scenario(
        0,
        ScenarioDistance::Cosine,
        ScenarioContender::Qdrant,
        ScenarioOversampling::X1,
        ScenarioFiltering::NoFilter,
    );
    let gs = group_scenarios(&vec![a, b, c]);
    assert_eq!(gs.len(), 2);
    assert_eq!(gs[0].build, a.build);
    assert_eq!(gs[0].searches, vec![a.search, b.search]);
    assert_eq!(gs[1].build, c.build);
    assert_eq!(gs[1].searches, vec![c.search]);
}

#[test]
fn plan_makes_one_group_per_build_triple() {
    // 2 datasets x 2 distances x 1 contender x 2 oversamplings x 2
    // filterings: 4 groups of 4 entries each.
    let datasets = vec![0u32, 1];
    let distances = vec![ScenarioDistance::Cosine, ScenarioDistance::Euclidean];
    let contenders = vec![ScenarioContender::Arroy];
    let oversamplings = vec![ScenarioOversampling::X1, ScenarioOversampling::X2];
    let filterings = vec![ScenarioFiltering::NoFilter, ScenarioFiltering::Filter50];
    let gs = plan(&datasets, &distances, &contenders, &oversamplings, &filterings);
    assert_eq!(gs.len(), 4);
    for g in &gs {
        assert_eq!(g.searches.len(), 4);
    }
    let builds: Vec<ScenarioBuild> = gs.iter().map(|g| g.build).collect();
    assert_eq!(
        builds,
        vec![
            ScenarioBuild {
                dataset: 0,
                distance: ScenarioDistance::Cosine,
                contender: ScenarioContender::Arroy,
            },
            ScenarioBuild {
                dataset: 0,
                distance: ScenarioDistance::Euclidean,
                contender: ScenarioContender::Arroy,
            },
            ScenarioBuild {
                dataset: 1,
                distance: ScenarioDistance::Cosine,
                contender: ScenarioContender::Arroy,
            },
            ScenarioBuild {
                dataset: 1,
                distance: ScenarioDistance::Euclidean,
                contender: ScenarioContender::Arroy,
            },
        ]
    );
    // Within one group the searches sweep the whole product, sorted.
    let searches = &gs[0].searches;
    assert_eq!(searches[0].oversampling, ScenarioOversampling::X1);
    assert_eq!(searches[0].filtering, ScenarioFiltering::NoFilter);
    assert_eq!(searches[1].oversampling, ScenarioOversampling::X1);
    assert_eq!(searches[1].filtering, ScenarioFiltering::Filter50);
    assert_eq!(searches[2].oversampling, ScenarioOversampling::X2);
    assert_eq!(searches[3].oversampling, ScenarioOversampling::X2);
}

#[test]
fn plan_of_single_axes_is_single_group() {
    let gs = plan(
        &vec![3u32],
        &vec![ScenarioDistance::Cosine],
        &vec![ScenarioContender::Arroy],
        &vec![ScenarioOversampling::X1],
        &vec![ScenarioFiltering::NoFilter],
    );
    assert_eq!(gs.len(), 1);
    assert_eq!(gs[0].searches.len(), 1);
}
