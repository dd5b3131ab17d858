//! Keyboard handling of the user interface.
//!
//! In normal mode single keys tune, connect, disconnect or quit; `t` opens a
//! frequency prompt in which digits and one decimal point can be typed. The
//! caller performs the returned action (the frequency arithmetic works on
//! floating-point values and stays with it).
use vstd::prelude::*;

verus! {

/// A key press, as far as the interface reads it.
#[derive(Clone, Copy, Debug, PartialEq, Eq, Structural)]
pub enum KeyInput {
    Char(char),
    Backspace,
    Esc,
    Enter,
    Other,
}

/// What the interface is doing: reacting to single keys, or collecting the
/// text of a frequency.
#[derive(Debug)]
pub enum InputMode {
    NormalMode,
    FreqInput(Vec<char>),
}

/// What the caller is to do after a key press.
#[derive(Debug)]
pub enum KeyAction {
    Nothing,
    Exit,
    TuneDown,
    TuneUp,
    Connect,
    Disconnect,
    /// Parse this text as a frequency and, if it parses, tune to it.
    SubmitFrequency(Vec<char>),
}

/// Abstract view of `InputMode`.
pub enum ModeView {
    Normal,
    FreqInput(Seq<char>),
}

/// Abstract view of `KeyAction`.
pub enum ActionView {
    Nothing,
    Exit,
    TuneDown,
    TuneUp,
    Connect,
    Disconnect,
    SubmitFrequency(Seq<char>),
}

impl View for InputMode {
    type V = ModeView;

    open spec fn view(&self) -> ModeView {
        match self {
            InputMode::NormalMode => ModeView::Normal,
            InputMode::FreqInput(b) => ModeView::FreqInput(b@),
        }
    }
}

impl View for KeyAction {
    type V = ActionView;

    open spec fn view(&self) -> ActionView {
        match self {
            KeyAction::Nothing => ActionView::Nothing,
            KeyAction::Exit => ActionView::Exit,
            KeyAction::TuneDown => ActionView::TuneDown,
            KeyAction::TuneUp => ActionView::TuneUp,
            KeyAction::Connect => ActionView::Connect,
            KeyAction::Disconnect => ActionView::Disconnect,
            KeyAction::SubmitFrequency(t) => ActionView::SubmitFrequency(t@),
        }
    }
}

pub open spec fn is_ascii_digit(c: char) -> bool {
    '0' <= c && c <= '9'
}

/// Mode and action after pressing `k` in mode `m`.
pub open spec fn key_step(m: ModeView, k: KeyInput) -> (ModeView, ActionView) {
    match m {
        ModeView::Normal => match k {
            KeyInput::Char(c) => if c == 'q' {
                (ModeView::Normal, ActionView::Exit)
            } else if c == 'j' {
                (ModeView::Normal, ActionView::TuneDown)
            } else if c == 'k' {
                (ModeView::Normal, ActionView::TuneUp)
            } else if c == 'c' {
                (ModeView::Normal, ActionView::Connect)
            } else if c == 'd' {
                (ModeView::Normal, ActionView::Disconnect)
            } else if c == 't' {
                (ModeView::FreqInput(Seq::empty()), ActionView::Nothing)
            } else {
                (ModeView::Normal, ActionView::Nothing)
            },
            _ => (ModeView::Normal, ActionView::Nothing),
        },
        ModeView::FreqInput(b) => match k {
            KeyInput::Char(c) => if is_ascii_digit(c) {
                (ModeView::FreqInput(b.push(c)), ActionView::Nothing)
            } else if c == '.' {
                (
                    ModeView::FreqInput(
                        if b.contains('.') {
                            b
                        } else {
                            b.push('.')
                        },
                    ),
                    ActionView::Nothing,
                )
            } else if c == 't' {
                (ModeView::Normal, ActionView::Nothing)
            } else {
                (ModeView::FreqInput(b), ActionView::Nothing)
            },
            KeyInput::Backspace => (
                ModeView::FreqInput(
                    if b.len() > 0 {
                        b.drop_last()
                    } else {
                        b
                    },
                ),
                ActionView::Nothing,
            ),
            KeyInput::Esc => (ModeView::Normal, ActionView::Nothing),
            KeyInput::Enter => (ModeView::Normal, ActionView::SubmitFrequency(b)),
            KeyInput::Other => (ModeView::FreqInput(b), ActionView::Nothing),
        },
    }
}

fn contains_dot(b: &Vec<char>) -> (r: bool)
    ensures
        r == b@.contains('.'),
{
    let mut i: usize = 0;
    while i < b.len()
        invariant
            i <= b@.len(),
            forall|j: int| 0 <= j < i ==> b@[j] != '.',
        decreases b@.len() - i,
    {
        if b[i] == '.' {
            assert(b@[i as int] == '.');
            return true;
        }
        i += 1;
    }
    false
}

impl InputMode {
    /// Reacts to a key press: updates the mode and returns what the caller
    /// is to do.
    pub fn handle_key_event(&mut self, key: KeyInput) -> (act: KeyAction)
        ensures
            (final(self)@, act@) == key_step(old(self)@, key),
    {
        let mut mode = InputMode::NormalMode;
        std::mem::swap(&mut mode, self);
        match mode {
            InputMode::NormalMode => match key {
                KeyInput::Char(c) => {
                    if c == 'q' {
                        KeyAction::Exit
                    } else if c == 'j' {
                        KeyAction::TuneDown
                    } else if c == 'k' {
                        KeyAction::TuneUp
                    } else if c == 'c' {
                        KeyAction::Connect
                    } else if c == 'd' {
                        KeyAction::Disconnect
                    } else if c == 't' {
                        *self = InputMode::FreqInput(Vec::new());
                        KeyAction::Nothing
                    } else {
                        KeyAction::Nothing
                    }
                },
                _ => KeyAction::Nothing,
            },
            InputMode::FreqInput(mut buffer) => match key {
                KeyInput::Char(c) => {
                    if '0' <= c && c <= '9' {
                        buffer.push(c);
                        *self = InputMode::FreqInput(buffer);
                    } else if c == '.' {
                        if !contains_dot(&buffer) {
                            buffer.push('.');
                        }
                        *self = InputMode::FreqInput(buffer);
                    } else if c != 't' {
                        *self = InputMode::FreqInput(buffer);
                    }
                    KeyAction::Nothing
                },
                KeyInput::Backspace => {
                    buffer.pop();
                    *self = InputMode::FreqInput(buffer);
                    KeyAction::Nothing
                },
                KeyInput::Esc => KeyAction::Nothing,
                KeyInput::Enter => KeyAction::SubmitFrequency(buffer),
                KeyInput::Other => {
                    *self = InputMode::FreqInput(buffer);
                    KeyAction::Nothing
                },
            },
        }
    }
}

/// Normal-mode law: `q` and only `q` quits; `j`, `k`, `c`, `d` tune down,
/// tune up, connect and disconnect; `t` opens an empty prompt; every other
/// key (Esc, Enter, Backspace included) does nothing and stays in normal mode.
pub proof fn lemma_normal_mode_keys(k: KeyInput)
    ensures
        key_step(ModeView::Normal, k).1 is Exit <==> k == KeyInput::Char('q'),
        k == KeyInput::Char('j') ==> key_step(ModeView::Normal, k) == (
            ModeView::Normal,
            ActionView::TuneDown,
        ),
        k == KeyInput::Char('k') ==> key_step(ModeView::Normal, k) == (
            ModeView::Normal,
            ActionView::TuneUp,
        ),
        k == KeyInput::Char('c') ==> key_step(ModeView::Normal, k) == (
            ModeView::Normal,
            ActionView::Connect,
        ),
        k == KeyInput::Char('d') ==> key_step(ModeView::Normal, k) == (
            ModeView::Normal,
            ActionView::Disconnect,
        ),
        k == KeyInput::Char('t') ==> key_step(ModeView::Normal, k) == (
            ModeView::FreqInput(Seq::empty()),
            ActionView::Nothing,
        ),
        k != KeyInput::Char('q') && k != KeyInput::Char('j') && k != KeyInput::Char('k') && k
            != KeyInput::Char('c') && k != KeyInput::Char('d') && k != KeyInput::Char('t')
            ==> key_step(ModeView::Normal, k) == (ModeView::Normal, ActionView::Nothing),
{
}

/// Prompt-editing law: in the prompt a digit is appended, a point is
/// appended only when the text has none, Backspace drops the last character
/// (if any), other keys but Esc, `t` and Enter leave the text as it is, and
/// no key in the prompt quits, tunes, connects or disconnects.
pub proof fn lemma_prompt_edits(b: Seq<char>, k: KeyInput)
    ensures
        (k matches KeyInput::Char(c) && '0' <= c <= '9') ==> key_step(
            ModeView::FreqInput(b),
            k,
        ).0 == ModeView::FreqInput(b + seq![k->Char_0]),
        k == KeyInput::Char('.') ==> key_step(ModeView::FreqInput(b), k).0 == ModeView::FreqInput(
            if (exists|i: int| 0 <= i < b.len() && b[i] == '.') {
                b
            } else {
                b + seq!['.']
            },
        ),
        k == KeyInput::Backspace ==> key_step(ModeView::FreqInput(b), k).0 == ModeView::FreqInput(
            b.take(if b.len() > 0 {
                b.len() - 1
            } else {
                0
            }),
        ),
        (k == KeyInput::Other || (k matches KeyInput::Char(c) && !('0' <= c <= '9') && c != '.'
            && c != 't')) ==> key_step(ModeView::FreqInput(b), k).0 == ModeView::FreqInput(b),
        k != KeyInput::Enter ==> key_step(ModeView::FreqInput(b), k).1 is Nothing,
{
    if k == KeyInput::Char('.') {
        if exists|i: int| 0 <= i < b.len() && b[i] == '.' {
            let i = choose|i: int| 0 <= i < b.len() && b[i] == '.';
            assert(b.contains('.'));
        } else {
            assert(!b.contains('.'));
            assert(b.push('.') =~= b + seq!['.']);
        }
    }
    if let KeyInput::Char(c) = k {
        assert(b.push(c) =~= b + seq![c]);
    }
    if b.len() > 0 {
        assert(b.drop_last() =~= b.take(b.len() - 1));
    } else {
        assert(b =~= b.take(0));
    }
}

/// Text that the frequency prompt can hold: ASCII digits and at most one
/// decimal point.
pub open spec fn freq_text_ok(b: Seq<char>) -> bool {
    &&& forall|i: int| 0 <= i < b.len() ==> is_ascii_digit(#[trigger] b[i]) || b[i] == '.'
    &&& forall|i: int, j: int|
        0 <= i < b.len() && 0 <= j < b.len() && #[trigger] b[i] == '.' && #[trigger] b[j] == '.'
            ==> i == j
}

pub open spec fn mode_ok(m: ModeView) -> bool {
    match m {
        ModeView::Normal => true,
        ModeView::FreqInput(b) => freq_text_ok(b),
    }
}

/// Prompt law: whatever keys are pressed, the prompt only ever holds digits
/// and at most one decimal point, and only such text is submitted.
pub proof fn lemma_prompt_text_stays_valid(m: ModeView, k: KeyInput)
    requires
        mode_ok(m),
    ensures
        mode_ok(key_step(m, k).0),
        key_step(m, k).1 matches ActionView::SubmitFrequency(t) ==> freq_text_ok(t),
{
    if let ModeView::FreqInput(b) = m {
        if let KeyInput::Char(c) = k {
            if c == '.' && !b.contains('.') {
                let nb = b.push('.');
                assert forall|i: int, j: int|
                    0 <= i < nb.len() && 0 <= j < nb.len() && #[trigger] nb[i] == '.'
                        && #[trigger] nb[j] == '.' implies i == j by {
                    if i < b.len() {
                        assert(b[i] == '.');
                    }
                    if j < b.len() {
                        assert(b[j] == '.');
                    }
                }
            }
        }
    }
}

/// Undo law: in the prompt, Backspace removes exactly the digit just typed.
pub proof fn lemma_backspace_undoes_digit(b: Seq<char>, c: char)
    requires
        is_ascii_digit(c),
    ensures
        key_step(key_step(ModeView::FreqInput(b), KeyInput::Char(c)).0, KeyInput::Backspace).0
            == ModeView::FreqInput(b),
{
    assert(b.push(c).drop_last() =~= b);
}

/// Leaving the prompt: Esc, `t` and Enter always return to normal mode, and
/// only Enter submits the typed text.
pub proof fn lemma_prompt_exits(b: Seq<char>)
    ensures
        key_step(ModeView::FreqInput(b), KeyInput::Esc) == (ModeView::Normal, ActionView::Nothing),
        key_step(ModeView::FreqInput(b), KeyInput::Char('t')) == (
            ModeView::Normal,
            ActionView::Nothing,
        ),
        key_step(ModeView::FreqInput(b), KeyInput::Enter) == (
            ModeView::Normal,
            ActionView::SubmitFrequency(b),
        ),
{
}

} // verus!
