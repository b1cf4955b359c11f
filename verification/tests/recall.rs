use benchmarks::recall::{
    aggregate_scores, first_k, recall_bucket, recall_outcome, score_query, RecallBucket,
    RecallOutcome,
};
use roaring::RoaringBitmap;

#[test]
fn score_counts_relevant_ids() {
    let answer = vec![1u32, 2, 3, 4];
    let relevant = vec![2u32, 4, 9];
    assert_eq!(score_query(&answer, &relevant, None), Some(2));
}

#[test]
fn score_empty_answer_is_zero() {
    let answer: Vec<u32> = Vec::new();
    let relevant = vec![1u32];
    assert_eq!(score_query(&answer, &relevant, None), Some(0));
}

#[test]
fn score_out_of_candidate_id_is_invalid() {
    let answer = vec![1u32, 7, 2];
    let relevant = vec![1u32, 2];
    let mut cand = RoaringBitmap::new();
    cand.insert(1);
    cand.insert(2);
    // 7 is neither relevant nor eligible: the whole query scores invalid,
    // though both other ids match.
    assert_eq!(score_query(&answer, &relevant, Some(&cand)), None);
}

#[test]
fn score_in_candidate_miss_only_skips() {
    let answer = vec![1u32, 5];
    let relevant = vec![1u32];
    let mut cand = RoaringBitmap::new();
    cand.insert(1);
    cand.insert(5);
    // 5 is eligible but not relevant: no sentinel, just no credit.
    assert_eq!(score_query(&answer, &relevant, Some(&cand)), Some(1));
}

#[test]
fn scored_invalid_example() {
    // An engine answering [0, 2] under the restriction {0, 3} is invalid,
    // because 2 lies outside the restriction.
    let answer = vec![0u32, 2];
    let relevant = vec![0u32, 3];
    let mut cand = RoaringBitmap::new();
    cand.insert(0);
    cand.insert(3);
    assert_eq!(score_query(&answer, &relevant, Some(&cand)), None);
    let scores = vec![score_query(&answer, &relevant, Some(&cand))];
    assert_eq!(recall_outcome(&scores, 2), RecallOutcome::Invalid);
}

#[test]
fn aggregate_sums_valid_scores() {
    let scores = vec![Some(3u64), Some(0), Some(5)];
    assert_eq!(aggregate_scores(&scores), Some(8));
}

#[test]
fn aggregate_empty_batch_is_zero() {
    let scores: Vec<Option<u64>> = Vec::new();
    assert_eq!(aggregate_scores(&scores), Some(0));
}

#[test]
fn sentinel_poisons_aggregate() {
    // One invalid query among a hundred perfect ones poisons the whole
    // configuration: its recall is the sentinel, not a low number.
    let mut scores = vec![Some(10u64); 100];
    scores[37] = None;
    assert_eq!(aggregate_scores(&scores), None);
    assert_eq!(recall_outcome(&scores, 10), RecallOutcome::Invalid);
}

#[test]
fn outcome_counts_out_of_k_times_cases() {
    let scores = vec![Some(2u64), Some(3)];
    assert_eq!(recall_outcome(&scores, 5), RecallOutcome::Valid { correct: 5, out_of: 10 });
}

#[test]
fn buckets_follow_thresholds() {
    let v = |c: u128, t: u128| RecallOutcome::Valid { correct: c, out_of: t };
    assert_eq!(recall_bucket(v(0, 100)), RecallBucket::Red);
    assert_eq!(recall_bucket(v(25, 100)), RecallBucket::Red);
    assert_eq!(recall_bucket(v(26, 100)), RecallBucket::Yellow);
    assert_eq!(recall_bucket(v(50, 100)), RecallBucket::Yellow);
    assert_eq!(recall_bucket(v(51, 100)), RecallBucket::Green);
    assert_eq!(recall_bucket(v(75, 100)), RecallBucket::Green);
    assert_eq!(recall_bucket(v(76, 100)), RecallBucket::Blue);
    assert_eq!(recall_bucket(v(90, 100)), RecallBucket::Blue);
    assert_eq!(recall_bucket(v(91, 100)), RecallBucket::Cyan);
    assert_eq!(recall_bucket(v(999, 1000)), RecallBucket::Cyan);
    assert_eq!(recall_bucket(v(1000, 1000)), RecallBucket::Top);
    assert_eq!(recall_bucket(RecallOutcome::Invalid), RecallBucket::Red);
    assert_eq!(recall_bucket(v(0, 0)), RecallBucket::Plain);
}

#[test]
fn bucket_ansi_prefixes() {
    assert_eq!(RecallBucket::Red.ansi_prefix(), "\u{1b}[1;31m");
    assert_eq!(RecallBucket::Top.ansi_prefix(), "\u{1b}[1;4;36m");
    assert_eq!(RecallBucket::Plain.ansi_prefix(), "");
}

#[test]
fn first_k_truncates_and_tolerates_large_k() {
    let relevant = vec![4u32, 8, 15, 16];
    assert_eq!(first_k(&relevant, 2), vec![4, 8]);
    assert_eq!(first_k(&relevant, 0), Vec::<u32>::new());
    assert_eq!(first_k(&relevant, 9), relevant);
}
