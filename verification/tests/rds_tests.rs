use sdr_radio::rds::{bit_digits, diff_demod};

#[test]
fn diff_demod_xors_with_previous_bit() {
    assert_eq!(diff_demod(vec![true, true, false, true]), vec![true, false, true, true]);
}

#[test]
fn diff_demod_empty() {
    assert!(diff_demod(vec![]).is_empty());
}

#[test]
fn diff_demod_restarts_each_call() {
    assert_eq!(diff_demod(vec![true]), vec![true]);
    assert_eq!(diff_demod(vec![true]), vec![true]);
}

#[test]
fn diff_demod_round_trip() {
    let bits = vec![false, true, true, false, false, true, false, true];
    let decoded = diff_demod(bits.clone());
    let mut acc = false;
    let encoded: Vec<bool> = decoded
        .iter()
        .map(|b| {
            acc ^= *b;
            acc
        })
        .collect();
    assert_eq!(encoded, bits);
}

#[test]
fn bit_digits_are_ascii() {
    assert_eq!(bit_digits(&vec![true, false, true, true]), b"1011".to_vec());
    assert!(bit_digits(&vec![]).is_empty());
}
