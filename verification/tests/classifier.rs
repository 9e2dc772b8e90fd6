use nn_classifier::dispatch::{datasets_compatible, run};
use nn_classifier::distance::{distance_sqr, try_distance_sqr};
use nn_classifier::nearest::{check_item, classify, query_compatible_exec};
use nn_classifier::sample::{check_dimensions, EmptyDatasetError, LabelPixel};
use nn_classifier::summary::{summarize, Accuracy};

fn lp(label: i64, pixels: Vec<i64>) -> LabelPixel {
    LabelPixel { label, pixels }
}

#[test]
fn distance_of_vector_to_itself_is_zero() {
    assert_eq!(distance_sqr(&[1, 2, 3], &[1, 2, 3]), 0);
    assert_eq!(distance_sqr(&[], &[]), 0);
}

#[test]
fn distance_is_symmetric_on_concrete_vectors() {
    let a = [0, 3, -4];
    let b = [1, 1, 1];
    assert_eq!(distance_sqr(&a, &b), distance_sqr(&b, &a));
    assert_eq!(distance_sqr(&a, &b), 30);
}

#[test]
fn distance_concrete_values() {
    assert_eq!(distance_sqr(&[0, 0], &[1, 1]), 2);
    assert_eq!(distance_sqr(&[0, 0], &[10, 10]), 200);
    assert_eq!(distance_sqr(&[-5], &[5]), 100);
}

#[test]
fn mismatched_lengths_are_rejected_not_truncated() {
    assert_eq!(try_distance_sqr(&[1, 2], &[1]), None);
    assert_eq!(try_distance_sqr(&[], &[1]), None);
}

#[test]
fn try_distance_agrees_with_distance() {
    assert_eq!(try_distance_sqr(&[1, 2, 3], &[3, 2, 1]), Some(8));
    assert_eq!(try_distance_sqr(&[7], &[7]), Some(0));
}

#[test]
fn try_distance_reports_accumulator_overflow() {
    assert_eq!(try_distance_sqr(&[i64::MAX], &[i64::MIN]), None);
    assert_eq!(try_distance_sqr(&[4_000_000_000], &[-4_000_000_000]), None);
    let big = 3_000_000_000;
    assert_eq!(try_distance_sqr(&[big, big], &[-big, -big]), None);
}

#[test]
fn classify_on_empty_training_set_fails() {
    let r = classify(&[], &[0, 0]);
    assert!(matches!(r, Err(EmptyDatasetError)));
}

#[test]
fn classify_returns_label_of_nearest_sample() {
    let training = vec![lp(0, vec![0, 0]), lp(1, vec![10, 10])];
    assert_eq!(classify(&training, &[1, 1]), Ok(0));
}

#[test]
fn classify_tie_break_prefers_first_in_training_order() {
    let training = vec![lp(0, vec![0, 0]), lp(1, vec![0, 0])];
    assert_eq!(classify(&training, &[0, 0]), Ok(0));
}

#[test]
fn classify_scans_the_whole_training_set() {
    let training = vec![lp(7, vec![0]), lp(8, vec![5]), lp(9, vec![2])];
    assert_eq!(classify(&training, &[3]), Ok(9));
}

#[test]
fn check_item_compares_against_true_label() {
    let training = vec![lp(5, vec![1, 2, 3])];
    assert_eq!(check_item(&training, &lp(5, vec![1, 2, 3])), Ok(true));
    assert_eq!(check_item(&training, &lp(9, vec![1, 2, 3])), Ok(false));
}

#[test]
fn run_produces_one_pair_per_item_and_summarize_halves() {
    let training = vec![lp(5, vec![1, 2, 3])];
    let validation = vec![lp(5, vec![1, 2, 3]), lp(9, vec![1, 2, 3])];
    let results = run(&training, &validation, 1).unwrap();
    let mut sorted = results.clone();
    sorted.sort_unstable();
    assert_eq!(sorted, vec![(0, true), (1, false)]);
    let a = summarize(&results);
    assert_eq!(a, Accuracy { correct: 1, total: 2 });
    let percentage = 100.0 * a.correct as f64 / a.total as f64;
    assert_eq!(percentage, 50.0);
}

#[test]
fn run_on_empty_training_set_is_fatal() {
    let validation = vec![lp(5, vec![1, 2, 3])];
    let r = run(&[], &validation, 3);
    assert!(matches!(r, Err(EmptyDatasetError)));
}

#[test]
fn run_result_set_does_not_depend_on_worker_count() {
    let training = vec![lp(0, vec![0, 0]), lp(1, vec![10, 10])];
    let validation = vec![
        lp(0, vec![1, 1]),
        lp(1, vec![9, 9]),
        lp(1, vec![2, 2]),
        lp(0, vec![8, 8]),
        lp(0, vec![0, 1]),
        lp(1, vec![10, 9]),
        lp(0, vec![4, 4]),
    ];
    let mut reference = run(&training, &validation, 1).unwrap();
    reference.sort_unstable();
    for worker_count in [2, 3, 4, 7, 50] {
        let mut results = run(&training, &validation, worker_count).unwrap();
        results.sort_unstable();
        assert_eq!(results, reference);
    }
}

#[test]
fn run_with_empty_validation_set_yields_no_pairs() {
    let training = vec![lp(0, vec![0])];
    let results = run(&training, &[], 4).unwrap();
    assert!(results.is_empty());
    let a = summarize(&results);
    assert_eq!(a, Accuracy { correct: 0, total: 0 });
}

#[test]
fn summarize_is_100_percent_iff_all_correct() {
    let all = [(0, true), (1, true), (2, true)];
    let a = summarize(&all);
    assert_eq!(a, Accuracy { correct: 3, total: 3 });
    assert_eq!(100.0 * a.correct as f64 / a.total as f64, 100.0);
    let not_all = [(0, true), (1, true), (2, false)];
    let b = summarize(&not_all);
    assert!(b.correct < b.total);
}

#[test]
fn summarize_is_0_percent_iff_none_correct() {
    let none = [(0, false), (1, false)];
    let a = summarize(&none);
    assert_eq!(a, Accuracy { correct: 0, total: 2 });
    assert_eq!(100.0 * a.correct as f64 / a.total as f64, 0.0);
    let some = [(0, false), (1, true)];
    assert!(summarize(&some).correct > 0);
}

#[test]
fn check_dimensions_detects_ragged_datasets() {
    let good = vec![lp(1, vec![1, 2]), lp(2, vec![3, 4])];
    assert!(check_dimensions(&good, 2));
    let ragged = vec![lp(1, vec![1, 2]), lp(2, vec![3])];
    assert!(!check_dimensions(&ragged, 2));
    assert!(check_dimensions(&[], 7));
}

#[test]
fn compatibility_checks_accept_small_data_and_reject_mismatch() {
    let training = vec![lp(0, vec![0, 0]), lp(1, vec![10, 10])];
    assert!(query_compatible_exec(&training, &[1, 1]));
    assert!(!query_compatible_exec(&training, &[1]));
    let validation = vec![lp(0, vec![1, 1])];
    assert!(datasets_compatible(&training, &validation));
    let bad_validation = vec![lp(0, vec![1, 1, 1])];
    assert!(!datasets_compatible(&training, &bad_validation));
}
