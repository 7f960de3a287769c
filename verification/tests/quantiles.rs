use ballast_bench::quantile::{quantile_of, summarize};

const SECOND: u64 = 1_000_000_000;

#[test]
fn no_sample_no_quantile() {
    let samples: Vec<u64> = Vec::new();
    for permille in [0u32, 100, 500, 900, 999, 1000] {
        assert_eq!(quantile_of(&samples, permille), None);
    }
    assert_eq!(summarize(&samples, &vec![500, 900, 1000]), vec![None, None, None]);
}

#[test]
fn median_of_three() {
    let samples = vec![3 * SECOND, SECOND, 2 * SECOND];
    assert_eq!(quantile_of(&samples, 500), Some(2 * SECOND));
}

#[test]
fn top_quantile_is_the_maximum() {
    let samples = vec![5u64, 900, 13, 899, 0, 77];
    assert_eq!(quantile_of(&samples, 1000), Some(900));
    assert_eq!(quantile_of(&vec![42], 1000), Some(42));
}

#[test]
fn bottom_quantile_is_the_minimum() {
    let samples = vec![5u64, 900, 13, 899, 1, 77];
    assert_eq!(quantile_of(&samples, 0), Some(1));
}

#[test]
fn nearest_rank_takes_the_lower_sample_on_a_tie() {
    let samples = vec![40u64, 10, 30, 20];
    assert_eq!(quantile_of(&samples, 500), Some(20));
    assert_eq!(quantile_of(&samples, 250), Some(10));
    assert_eq!(quantile_of(&samples, 251), Some(20));
    assert_eq!(quantile_of(&samples, 750), Some(30));
    assert_eq!(quantile_of(&samples, 751), Some(40));
}

#[test]
fn nearest_rank_on_ten_samples() {
    let samples: Vec<u64> = (1..=10).rev().collect();
    assert_eq!(
        summarize(&samples, &vec![100, 250, 500, 750, 900, 990, 999, 1000]),
        vec![Some(1), Some(3), Some(5), Some(8), Some(9), Some(10), Some(10), Some(10)]
    );
}

#[test]
fn summary_does_not_reorder_the_samples() {
    let samples = vec![3u64, 1, 2];
    let _ = summarize(&samples, &vec![500]);
    assert_eq!(samples, vec![3, 1, 2]);
}
