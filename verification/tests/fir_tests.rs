use sdr_radio::fir::FirFilterDecimate;

fn dot(window: &[i64], coeffs: &[i64]) -> i64 {
    let mut acc = 0;
    for k in 0..coeffs.len() {
        acc += window[k] * coeffs[k];
    }
    acc
}

#[test]
fn fir_windows_newest_first_then_oldest() {
    let mut f = FirFilterDecimate::new(3, 1, 0i64);
    let out = f.process(vec![1, 2, 3, 4]);
    assert_eq!(out, vec![vec![1, 0, 0], vec![2, 0, 1], vec![3, 1, 2], vec![4, 2, 3]]);
}

#[test]
fn fir_decimation_keeps_every_nth() {
    let mut f = FirFilterDecimate::new(3, 2, 0i64);
    let out = f.process(vec![1, 2, 3, 4, 5]);
    assert_eq!(out, vec![vec![1, 0, 0], vec![3, 1, 2], vec![5, 3, 4]]);
}

#[test]
fn fir_blocks_concatenate() {
    let mut whole = FirFilterDecimate::new(4, 3, 0i64);
    let all = whole.process(vec![1, 2, 3, 4, 5, 6, 7]);
    let mut split = FirFilterDecimate::new(4, 3, 0i64);
    let mut parts = split.process(vec![1, 2]);
    parts.extend(split.process(vec![3, 4, 5]));
    parts.extend(split.process(vec![6, 7]));
    assert_eq!(all, parts);
    assert_eq!(all.len(), 3);
}

#[test]
fn fir_holds_latest_samples() {
    let mut f = FirFilterDecimate::new(2, 1, 0i64);
    let out = f.process(vec![9, 8, 7]);
    assert_eq!(out.last().unwrap(), &vec![7, 8]);
}

#[test]
fn fir_single_tap_is_identity() {
    let mut f = FirFilterDecimate::new(1, 1, 0i64);
    let out = f.process(vec![5, -3, 2]);
    assert_eq!(out, vec![vec![5], vec![-3], vec![2]]);
}

#[test]
fn fir_empty_input_gives_nothing() {
    let mut f = FirFilterDecimate::new(0, 4, 0i64);
    assert!(f.process(vec![]).is_empty());
    let mut g = FirFilterDecimate::new(3, 4, 0i64);
    assert!(g.process(vec![]).is_empty());
}

#[test]
fn fir_filter_output_with_coefficients() {
    let coeffs = [1, 10, 100];
    let mut f = FirFilterDecimate::new(3, 1, 0i64);
    let out: Vec<i64> = f.process(vec![1, 2, 3]).iter().map(|w| dot(w, &coeffs)).collect();
    assert_eq!(out, vec![1, 102, 213]);
}
