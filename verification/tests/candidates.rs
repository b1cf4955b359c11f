use benchmarks::scenarios::ScenarioFiltering;

#[test]
fn no_filter_yields_no_set() {
    let ids = vec![1u32, 2, 3, 4];
    assert!(benchmarks::candidates::derive(&ids, ScenarioFiltering::NoFilter).is_none());
}

#[test]
fn full_ratio_selects_every_point() {
    let ids = vec![10u32, 20, 30];
    let b = benchmarks::candidates::derive(&ids, ScenarioFiltering::Filter100).unwrap();
    assert_eq!(b.len(), 3);
    for id in &ids {
        assert!(b.contains(*id));
    }
}

#[test]
fn half_ratio_selects_leading_prefix() {
    // The set is a prefix of the enumeration order, not distance-based.
    let ids = vec![42u32, 7, 99, 3];
    let b = benchmarks::candidates::derive(&ids, ScenarioFiltering::Filter50).unwrap();
    assert!(b.contains(42));
    assert!(b.contains(7));
    assert!(!b.contains(99));
    assert!(!b.contains(3));
}

#[test]
fn small_ratio_may_select_nothing() {
    // A nonzero ratio of few points gives an empty, non-absent set.
    let ids = vec![1u32, 2, 3];
    let b = benchmarks::candidates::derive(&ids, ScenarioFiltering::Filter10).unwrap();
    assert_eq!(b.len(), 0);
}

#[test]
fn derive_is_deterministic() {
    let ids = vec![5u32, 6, 7, 8, 9, 10];
    let a = benchmarks::candidates::derive(&ids, ScenarioFiltering::Filter50).unwrap();
    let b = benchmarks::candidates::derive(&ids, ScenarioFiltering::Filter50).unwrap();
    assert_eq!(a, b);
}
