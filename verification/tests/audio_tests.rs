use sdr_radio::audio::{AudioState, UNDERRUN_LEN};

#[test]
fn audio_plays_received_block_then_silence() {
    let (tx, rx) = crossbeam_channel::unbounded::<Vec<i32>>();
    let mut a = AudioState::new(rx, 0);
    tx.send(vec![5, 6]).unwrap();
    assert_eq!(a.get_next_sample(), Some(5));
    assert_eq!(a.get_next_sample(), Some(6));
    for _ in 0..UNDERRUN_LEN {
        assert_eq!(a.get_next_sample(), Some(0));
    }
    tx.send(vec![7]).unwrap();
    assert_eq!(a.get_next_sample(), Some(7));
}

#[test]
fn audio_underrun_block_has_fixed_length() {
    let (tx, rx) = crossbeam_channel::unbounded::<Vec<i32>>();
    let mut a = AudioState::new(rx, -1);
    assert_eq!(a.get_next_sample(), Some(-1));
    tx.send(vec![3]).unwrap();
    for _ in 1..UNDERRUN_LEN {
        assert_eq!(a.get_next_sample(), Some(-1));
    }
    assert_eq!(a.get_next_sample(), Some(3));
    assert_eq!(UNDERRUN_LEN, 100);
}

#[test]
fn audio_empty_block_gives_none() {
    let (tx, rx) = crossbeam_channel::unbounded::<Vec<i32>>();
    let mut a = AudioState::new(rx, 0);
    tx.send(vec![]).unwrap();
    assert_eq!(a.get_next_sample(), None);
    tx.send(vec![4]).unwrap();
    assert_eq!(a.get_next_sample(), Some(4));
}

#[test]
fn audio_disconnected_channel_plays_silence() {
    let (tx, rx) = crossbeam_channel::unbounded::<Vec<i32>>();
    drop(tx);
    let mut a = AudioState::new(rx, 2);
    assert_eq!(a.get_next_sample(), Some(2));
}

#[test]
fn audio_load_and_take() {
    let (_tx, rx) = crossbeam_channel::unbounded::<Vec<i32>>();
    let mut a = AudioState::new(rx, 0);
    assert_eq!(a.take_sample(), None);
    a.load_block(Some(vec![8, 9]));
    assert_eq!(a.take_sample(), Some(8));
    assert_eq!(a.take_sample(), Some(9));
    assert_eq!(a.take_sample(), None);
    a.load_block(None);
    assert_eq!(a.take_sample(), Some(0));
}

#[test]
fn fill_frames_copies_value_to_each_channel() {
    let mut out = vec![0; 7];
    sdr_radio::audio::fill_frames(&mut out, 3, &vec![1, 2, 3]);
    assert_eq!(out, vec![1, 1, 1, 2, 2, 2, 3]);
    let mut mono = vec![0; 3];
    sdr_radio::audio::fill_frames(&mut mono, 1, &vec![4, 5, 6]);
    assert_eq!(mono, vec![4, 5, 6]);
    let mut empty: Vec<i32> = vec![];
    sdr_radio::audio::fill_frames(&mut empty, 2, &vec![]);
    assert!(empty.is_empty());
}

#[test]
fn audio_blocks_in_channel_order_with_silence_between() {
    let (tx, rx) = crossbeam_channel::unbounded::<Vec<i32>>();
    let mut a = AudioState::new(rx, 0);
    tx.send(vec![1, 2]).unwrap();
    tx.send(vec![3]).unwrap();
    let mut got = Vec::new();
    for _ in 0..3 {
        got.push(a.get_next_sample().unwrap());
    }
    assert_eq!(got, vec![1, 2, 3]);
    let silence: Vec<i32> = (0..UNDERRUN_LEN).map(|_| a.get_next_sample().unwrap()).collect();
    assert_eq!(silence, vec![0; UNDERRUN_LEN]);
    tx.send(vec![4, 5]).unwrap();
    assert_eq!(a.get_next_sample(), Some(4));
    assert_eq!(a.get_next_sample(), Some(5));
}

#[test]
fn audio_loaded_block_then_none() {
    let (_tx, rx) = crossbeam_channel::unbounded::<Vec<i32>>();
    let mut a = AudioState::new(rx, 9);
    a.load_block(Some(vec![1, 2, 3]));
    let got: Vec<Option<i32>> = (0..4).map(|_| a.take_sample()).collect();
    assert_eq!(got, vec![Some(1), Some(2), Some(3), None]);
    a.load_block(None);
    let got: Vec<Option<i32>> = (0..UNDERRUN_LEN + 1).map(|_| a.take_sample()).collect();
    assert_eq!(got[..UNDERRUN_LEN].to_vec(), vec![Some(9); UNDERRUN_LEN]);
    assert_eq!(got[UNDERRUN_LEN], None);
}
