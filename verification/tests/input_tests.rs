use sdr_radio::input::{InputMode, KeyAction, KeyInput};

fn press(m: &mut InputMode, keys: &[KeyInput]) -> Vec<KeyAction> {
    keys.iter().map(|k| m.handle_key_event(*k)).collect()
}

#[test]
fn normal_mode_keys() {
    let mut m = InputMode::NormalMode;
    assert!(matches!(m.handle_key_event(KeyInput::Char('q')), KeyAction::Exit));
    assert!(matches!(m.handle_key_event(KeyInput::Char('j')), KeyAction::TuneDown));
    assert!(matches!(m.handle_key_event(KeyInput::Char('k')), KeyAction::TuneUp));
    assert!(matches!(m.handle_key_event(KeyInput::Char('c')), KeyAction::Connect));
    assert!(matches!(m.handle_key_event(KeyInput::Char('d')), KeyAction::Disconnect));
    assert!(matches!(m.handle_key_event(KeyInput::Char('x')), KeyAction::Nothing));
    assert!(matches!(m.handle_key_event(KeyInput::Enter), KeyAction::Nothing));
    assert!(matches!(m, InputMode::NormalMode));
}

#[test]
fn prompt_collects_digits_and_one_dot() {
    let mut m = InputMode::NormalMode;
    press(&mut m, &[
        KeyInput::Char('t'),
        KeyInput::Char('9'),
        KeyInput::Char('.'),
        KeyInput::Char('1'),
        KeyInput::Char('.'),
        KeyInput::Char('a'),
        KeyInput::Other,
    ]);
    match &m {
        InputMode::FreqInput(b) => assert_eq!(b, &vec!['9', '.', '1']),
        _ => panic!("prompt closed"),
    }
    match m.handle_key_event(KeyInput::Enter) {
        KeyAction::SubmitFrequency(t) => assert_eq!(t, vec!['9', '.', '1']),
        _ => panic!("no submission"),
    }
    assert!(matches!(m, InputMode::NormalMode));
}

#[test]
fn prompt_backspace_undoes_digit() {
    let mut m = InputMode::FreqInput(vec!['1']);
    press(&mut m, &[KeyInput::Char('5'), KeyInput::Backspace]);
    match &m {
        InputMode::FreqInput(b) => assert_eq!(b, &vec!['1']),
        _ => panic!("prompt closed"),
    }
    press(&mut m, &[KeyInput::Backspace, KeyInput::Backspace]);
    match &m {
        InputMode::FreqInput(b) => assert!(b.is_empty()),
        _ => panic!("prompt closed"),
    }
}

#[test]
fn prompt_exits_on_esc_and_t() {
    let mut m = InputMode::FreqInput(vec!['4']);
    assert!(matches!(m.handle_key_event(KeyInput::Esc), KeyAction::Nothing));
    assert!(matches!(m, InputMode::NormalMode));
    let mut m = InputMode::FreqInput(vec!['4']);
    assert!(matches!(m.handle_key_event(KeyInput::Char('t')), KeyAction::Nothing));
    assert!(matches!(m, InputMode::NormalMode));
}

#[test]
fn prompt_ignores_quit_key() {
    let mut m = InputMode::FreqInput(vec![]);
    assert!(matches!(m.handle_key_event(KeyInput::Char('q')), KeyAction::Nothing));
    assert!(matches!(m, InputMode::FreqInput(_)));
}
