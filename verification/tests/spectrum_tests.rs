use sdr_radio::spectrum::{fft_shift, fit_block};

#[test]
fn fit_block_pads_and_cuts() {
    assert_eq!(fit_block(&vec![1, 2], 4, 0), vec![1, 2, 0, 0]);
    assert_eq!(fit_block(&vec![1, 2, 3, 4, 5], 3, 0), vec![1, 2, 3]);
    assert!(fit_block(&vec![1], 0, 0).is_empty());
}

#[test]
fn fft_shift_moves_centre() {
    assert_eq!(fft_shift(&vec![0, 1, 2, 3]), vec![2, 3, 0, 1]);
    assert_eq!(fft_shift(&vec![0, 1, 2, 3, 4]), vec![2, 3, 4, 0, 1]);
    assert!(fft_shift(&Vec::<i32>::new()).is_empty());
}

#[test]
fn fft_shift_twice_is_identity_for_even_length() {
    let v = vec![5, 6, 7, 8, 9, 10];
    assert_eq!(fft_shift(&fft_shift(&v)), v);
}
