use benchmarks::oracle::{top_k, Neighbor};

fn n(id: u32, dist: u64) -> Neighbor {
    Neighbor { id, dist }
}

/// A distance key for a non-negative float: for such floats the bit pattern
/// is ordered like the value.
fn key(d: f32) -> u64 {
    d.to_bits() as u64
}

#[test]
fn top_k_exact_two_nearest() {
    let pts = vec![n(1, 5), n(2, 3), n(3, 9), n(4, 7)];
    let out = top_k(&pts, 2);
    assert_eq!(out, vec![n(2, 3), n(1, 5)]);
}

#[test]
fn top_k_zero_k_is_empty() {
    let pts = vec![n(1, 5), n(2, 3)];
    let out = top_k(&pts, 0);
    assert!(out.is_empty());
}

#[test]
fn top_k_empty_points_is_empty() {
    let pts: Vec<Neighbor> = Vec::new();
    let out = top_k(&pts, 4);
    assert!(out.is_empty());
}

#[test]
fn top_k_k_larger_than_points_returns_all_sorted() {
    let pts = vec![n(1, 50), n(2, 10), n(3, 30)];
    let out = top_k(&pts, 10);
    assert_eq!(out, vec![n(2, 10), n(3, 30), n(1, 50)]);
}

#[test]
fn top_k_matches_brute_force() {
    // A fixed pseudo-random point set with distinct distances.
    let mut pts: Vec<Neighbor> = Vec::new();
    let mut x: u64 = 7;
    for id in 0..50u32 {
        x = x.wrapping_mul(6364136223846793005).wrapping_add(1442695040888963407);
        pts.push(n(id, x >> 16));
    }
    for k in [0usize, 1, 3, 10, 49, 50, 60] {
        let got = top_k(&pts, k);
        let mut brute = pts.clone();
        brute.sort_by_key(|e| e.dist);
        brute.truncate(k);
        assert_eq!(got, brute, "k = {k}");
    }
}

#[test]
fn top_k_order_independent() {
    let pts = vec![n(1, 40), n(2, 10), n(3, 30), n(4, 20), n(5, 50)];
    let mut permuted = pts.clone();
    permuted.reverse();
    permuted.swap(0, 2);
    let a = top_k(&pts, 3);
    let b = top_k(&permuted, 3);
    let mut sa = a.clone();
    let mut sb = b.clone();
    sa.sort_by_key(|e| (e.dist, e.id));
    sb.sort_by_key(|e| (e.dist, e.id));
    assert_eq!(sa, sb);
}

#[test]
fn top_k_keeps_encounter_order_ties_sorted() {
    let pts = vec![n(1, 5), n(2, 5), n(3, 5), n(4, 1)];
    let out = top_k(&pts, 2);
    assert_eq!(out.len(), 2);
    assert_eq!(out[0], n(4, 1));
    assert_eq!(out[1].dist, 5);
}

#[test]
fn top_k_euclidean_example() {
    // Dataset of four 2-d points; the query sits at the origin.
    let vectors: [(u32, [f32; 2]); 4] =
        [(0, [0.0, 0.0]), (1, [1.0, 0.0]), (2, [0.0, 1.0]), (3, [10.0, 10.0])];
    let query = [0.0f32, 0.0];
    let pts: Vec<Neighbor> = vectors
        .iter()
        .map(|(id, v)| {
            let d = (v[0] - query[0]).powi(2) + (v[1] - query[1]).powi(2);
            n(*id, key(d.sqrt()))
        })
        .collect();
    let out = top_k(&pts, 2);
    assert_eq!(out[0].id, 0);
    assert!(out[1].id == 1 || out[1].id == 2);
    assert!(out.iter().all(|e| e.id != 3));

    // Under the candidate restriction {0, 3} the true answer is [0, 3].
    let restricted: Vec<Neighbor> =
        pts.iter().copied().filter(|e| e.id == 0 || e.id == 3).collect();
    let out = top_k(&restricted, 2);
    assert_eq!(out[0].id, 0);
    assert_eq!(out[1].id, 3);
}
