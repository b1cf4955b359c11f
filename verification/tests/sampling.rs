use benchmarks::sampling::sample_query_ids;
use benchmarks::RNG_SEED;
use rand::rngs::StdRng;
use rand::SeedableRng;

#[test]
fn samples_come_from_the_dataset() {
    let ids = vec![3u32, 14, 15, 92];
    let mut rng = StdRng::seed_from_u64(RNG_SEED);
    let sampled = sample_query_ids(&mut rng, &ids, 100);
    assert_eq!(sampled.len(), 100);
    for id in &sampled {
        assert!(ids.contains(id));
    }
}

#[test]
fn single_point_dataset_pins_every_sample() {
    let ids = vec![7u32];
    let mut rng = StdRng::seed_from_u64(RNG_SEED);
    assert_eq!(sample_query_ids(&mut rng, &ids, 5), vec![7, 7, 7, 7, 7]);
}

#[test]
fn empty_dataset_yields_no_queries() {
    let ids: Vec<u32> = Vec::new();
    let mut rng = StdRng::seed_from_u64(RNG_SEED);
    assert!(sample_query_ids(&mut rng, &ids, 100).is_empty());
}

#[test]
fn fixed_seed_reproduces_the_queries() {
    let ids = vec![1u32, 2, 3, 4, 5, 6, 7, 8];
    let mut rng1 = StdRng::seed_from_u64(RNG_SEED);
    let mut rng2 = StdRng::seed_from_u64(RNG_SEED);
    let a = sample_query_ids(&mut rng1, &ids, 50);
    let b = sample_query_ids(&mut rng2, &ids, 50);
    assert_eq!(a, b);
}
