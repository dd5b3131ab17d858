use sdr_radio::control::{
    iq_offsets, DspCommand, DspControl, SdrAction, SdrCommand, SdrState, DEFAULT_CENTER_FREQ,
    DEVICE_GAIN, DEVICE_SAMPLE_RATE,
};

#[test]
fn sdr_idle_without_command_sleeps() {
    let mut s = SdrState::new();
    assert!(!s.streaming());
    assert_eq!(s.on_command(None), SdrAction::Pause { millis: 1 });
}

#[test]
fn sdr_on_opens_device_with_defaults() {
    let mut s = SdrState::new();
    assert_eq!(
        s.on_command(Some(SdrCommand::On)),
        SdrAction::OpenDevice { center_freq: 90_300_000, sample_rate: 2_400_000, gain_tenth_db: 496 }
    );
    assert_eq!(DEFAULT_CENTER_FREQ, 90_300_000);
    assert_eq!(DEVICE_SAMPLE_RATE, 2_400_000);
    assert_eq!(DEVICE_GAIN, 496);
    assert!(!s.streaming());
    s.on_device_opened(true);
    assert!(s.streaming());
    assert_eq!(s.on_command(None), SdrAction::Continue);
}

#[test]
fn sdr_failed_open_stays_idle() {
    let mut s = SdrState::new();
    s.on_command(Some(SdrCommand::On));
    s.on_device_opened(false);
    assert!(!s.streaming());
    assert_eq!(s.on_command(Some(SdrCommand::SetTuneFreq(100))), SdrAction::Continue);
    assert_eq!(s.on_command(Some(SdrCommand::SetGain(5))), SdrAction::Continue);
}

#[test]
fn sdr_off_and_on_again() {
    let mut s = SdrState::new();
    s.on_command(Some(SdrCommand::On));
    s.on_device_opened(true);
    assert_eq!(s.on_command(Some(SdrCommand::Off)), SdrAction::Continue);
    assert!(!s.streaming());
    assert_eq!(s.on_command(Some(SdrCommand::SetTuneFreq(101_000_000))), SdrAction::Tune(101_000_000));
    assert_eq!(s.on_command(Some(SdrCommand::SetGain(300))), SdrAction::SetGain(300));
    assert_eq!(s.on_command(Some(SdrCommand::On)), SdrAction::Continue);
    assert!(s.streaming());
}

#[test]
fn sdr_stream_end_disconnects() {
    let mut s = SdrState::new();
    s.on_command(Some(SdrCommand::On));
    s.on_device_opened(true);
    s.on_stream_end();
    assert!(!s.streaming());
    assert!(matches!(s.on_command(Some(SdrCommand::On)), SdrAction::OpenDevice { .. }));
}

#[test]
fn dsp_control_commands() {
    let mut d = DspControl::new();
    assert!(!d.forwards_rds());
    assert_eq!(d.on_command(DspCommand::RdsOn::<i32>), None);
    assert!(d.forwards_rds());
    assert_eq!(d.on_command(DspCommand::SetTuneFreq(-1000)), Some(-1000));
    assert!(d.forwards_rds());
    assert_eq!(d.on_command(DspCommand::RdsOff::<i32>), None);
    assert!(!d.forwards_rds());
}

#[test]
fn iq_offsets_pairs_and_centres() {
    assert_eq!(iq_offsets(&[0, 255, 128, 129, 7]), vec![(-128, 127), (0, 1)]);
    assert!(iq_offsets(&[]).is_empty());
}

#[test]
fn sdr_sequence_forwards_only_while_open() {
    let mut s = SdrState::new();
    let steps = [
        Some(SdrCommand::SetTuneFreq(1)),
        Some(SdrCommand::On),
        None,
        Some(SdrCommand::Off),
        Some(SdrCommand::On),
    ];
    let mut seen = Vec::new();
    for cmd in steps {
        if let SdrAction::OpenDevice { .. } = s.on_command(cmd) {
            s.on_device_opened(true);
        }
        seen.push(s.streaming());
    }
    assert_eq!(seen, vec![false, true, true, false, true]);
    s.on_stream_end();
    assert!(!s.streaming());
    assert_eq!(s.on_command(None), SdrAction::Pause { millis: 1 });
}
