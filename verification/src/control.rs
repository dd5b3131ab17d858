//! Decisions of the receiver threads.
//!
//! The radio thread alternates between reading the device and serving
//! commands; `SdrState` decides what to do next and the thread performs it.
//! The demodulator thread retunes and switches RDS forwarding on command;
//! `DspControl` holds that decision.
use vstd::prelude::*;

verus! {

/// Centre frequency the device is tuned to when it is opened, in Hz.
pub const DEFAULT_CENTER_FREQ: u32 = 90_300_000;

/// Sample rate the device is opened with, in samples per second.
pub const DEVICE_SAMPLE_RATE: u32 = 2_400_000;

/// Manual gain the device is opened with, in tenths of a dB.
pub const DEVICE_GAIN: i32 = 496;

/// How long the radio thread sleeps when it is idle and no command came, in ms.
pub const IDLE_SLEEP_MS: u64 = 1;

/// Commands for the radio thread.
#[derive(Clone, Copy, Debug, PartialEq, Eq, Structural)]
pub enum SdrCommand {
    On,
    Off,
    SetTuneFreq(u32),
    SetGain(i32),
}

/// What the radio thread is to do next.
#[derive(Clone, Copy, Debug, PartialEq, Eq, Structural)]
pub enum SdrAction {
    /// Nothing to do.
    Continue,
    /// Sleep for this many milliseconds.
    Pause { millis: u64 },
    /// Open the first device, tune it, set its sample rate and manual gain,
    /// start streaming, then report the outcome with `on_device_opened`.
    OpenDevice { center_freq: u32, sample_rate: u32, gain_tenth_db: i32 },
    /// Tune the open device to this centre frequency (Hz).
    Tune(u32),
    /// Set the manual gain of the open device (tenths of a dB).
    SetGain(i32),
}

/// State of the radio thread: whether a device is open and streaming, and
/// whether its samples are being forwarded.
pub struct SdrState {
    running: bool,
    connected: bool,
}

/// Abstract view of `SdrState`.
pub struct SdrStateView {
    pub running: bool,
    pub connected: bool,
}

impl View for SdrState {
    type V = SdrStateView;

    closed spec fn view(&self) -> SdrStateView {
        SdrStateView { running: self.running, connected: self.connected }
    }
}

/// Invariant of the radio thread: it only forwards samples from an open device.
pub open spec fn sdr_inv(s: SdrStateView) -> bool {
    s.running ==> s.connected
}

/// The decision taken for a polled command (`None`: no command was waiting).
pub open spec fn sdr_command_step(s: SdrStateView, cmd: Option<SdrCommand>) -> (
    SdrStateView,
    SdrAction,
) {
    match cmd {
        None => (
            s,
            if s.running {
                SdrAction::Continue
            } else {
                SdrAction::Pause { millis: IDLE_SLEEP_MS }
            },
        ),
        Some(SdrCommand::Off) => (SdrStateView { running: false, ..s }, SdrAction::Continue),
        Some(SdrCommand::On) => if s.connected {
            (SdrStateView { running: true, ..s }, SdrAction::Continue)
        } else {
            (
                s,
                SdrAction::OpenDevice {
                    center_freq: DEFAULT_CENTER_FREQ,
                    sample_rate: DEVICE_SAMPLE_RATE,
                    gain_tenth_db: DEVICE_GAIN,
                },
            )
        },
        Some(SdrCommand::SetTuneFreq(f)) => (
            s,
            if s.connected {
                SdrAction::Tune(f)
            } else {
                SdrAction::Continue
            },
        ),
        Some(SdrCommand::SetGain(g)) => (
            s,
            if s.connected {
                SdrAction::SetGain(g)
            } else {
                SdrAction::Continue
            },
        ),
    }
}

impl SdrState {
    /// No device open, nothing forwarded.
    pub fn new() -> (r: Self)
        ensures
            !r@.running,
            !r@.connected,
    {
        SdrState { running: false, connected: false }
    }

    /// Whether the thread should read the next block from the device.
    pub fn streaming(&self) -> (r: bool)
        ensures
            r == (self@.running && self@.connected),
    {
        self.running && self.connected
    }

    /// The device stream ended: the device is closed and nothing is forwarded.
    pub fn on_stream_end(&mut self)
        ensures
            !final(self)@.running,
            !final(self)@.connected,
            final(self)@ == sdr_event_step(old(self)@, SdrEvent::StreamEnd),
    {
        self.running = false;
        self.connected = false;
    }

    /// Serves a polled command (`None` when none was waiting) and says what
    /// to do for it.
    pub fn on_command(&mut self, cmd: Option<SdrCommand>) -> (act: SdrAction)
        ensures
            (final(self)@, act) == sdr_command_step(old(self)@, cmd),
            final(self)@ == sdr_event_step(old(self)@, SdrEvent::Poll(cmd)),
            sdr_inv(old(self)@) ==> sdr_inv(final(self)@),
    {
        match cmd {
            None => {
                if self.running {
                    SdrAction::Continue
                } else {
                    SdrAction::Pause { millis: IDLE_SLEEP_MS }
                }
            },
            Some(SdrCommand::Off) => {
                self.running = false;
                SdrAction::Continue
            },
            Some(SdrCommand::On) => {
                if self.connected {
                    self.running = true;
                    SdrAction::Continue
                } else {
                    SdrAction::OpenDevice {
                        center_freq: DEFAULT_CENTER_FREQ,
                        sample_rate: DEVICE_SAMPLE_RATE,
                        gain_tenth_db: DEVICE_GAIN,
                    }
                }
            },
            Some(SdrCommand::SetTuneFreq(f)) => {
                if self.connected {
                    SdrAction::Tune(f)
                } else {
                    SdrAction::Continue
                }
            },
            Some(SdrCommand::SetGain(g)) => {
                if self.connected {
                    SdrAction::SetGain(g)
                } else {
                    SdrAction::Continue
                }
            },
        }
    }

    /// Outcome of an `OpenDevice` action: when the device opened it is
    /// connected, and a connected device is forwarded.
    pub fn on_device_opened(&mut self, opened: bool)
        ensures
            final(self)@.connected == (old(self)@.connected || opened),
            final(self)@.running == (old(self)@.running || old(self)@.connected || opened),
            final(self)@ == sdr_event_step(old(self)@, SdrEvent::Opened(opened)),
            sdr_inv(old(self)@) ==> sdr_inv(final(self)@),
    {
        if opened {
            self.connected = true;
        }
        if self.connected {
            self.running = true;
        }
    }
}

/// Law: after `Off`, whatever the state, no samples are forwarded until the
/// next `On`; after `On` from a connected state they are.
pub proof fn lemma_on_off(s: SdrStateView)
    ensures
        !sdr_command_step(s, Some(SdrCommand::Off)).0.running,
        s.connected ==> sdr_command_step(s, Some(SdrCommand::On)).0.running,
        !s.connected ==> sdr_command_step(s, Some(SdrCommand::On)).1 is OpenDevice,
{
}

/// What the radio thread reacts to: a polled command (`None` when none was
/// waiting), the outcome of opening the device, or the end of its stream.
pub enum SdrEvent {
    Poll(Option<SdrCommand>),
    Opened(bool),
    StreamEnd,
}

/// State after one event.
pub open spec fn sdr_event_step(s: SdrStateView, e: SdrEvent) -> SdrStateView {
    match e {
        SdrEvent::Poll(cmd) => sdr_command_step(s, cmd).0,
        SdrEvent::Opened(ok) => SdrStateView {
            connected: s.connected || ok,
            running: s.running || s.connected || ok,
        },
        SdrEvent::StreamEnd => SdrStateView { running: false, connected: false },
    }
}

/// State after a sequence of events.
pub open spec fn sdr_after(s: SdrStateView, evs: Seq<SdrEvent>) -> SdrStateView
    decreases evs.len(),
{
    if evs.len() == 0 {
        s
    } else {
        sdr_event_step(sdr_after(s, evs.drop_last()), evs.last())
    }
}

/// The events on which forwarding may start in state `s`: `On` with a device
/// open, or a device that is open or was just opened.
pub open spec fn starts_forwarding(s: SdrStateView, e: SdrEvent) -> bool {
    match e {
        SdrEvent::Poll(Some(SdrCommand::On)) => s.connected,
        SdrEvent::Opened(ok) => ok || s.connected,
        _ => false,
    }
}

/// What one step may change: forwarding starts only as `starts_forwarding`
/// allows, `Off` and the end of the stream stop it, and the device only
/// becomes open by opening it and only closes when its stream ends.
pub open spec fn sdr_step_ok(a: SdrStateView, e: SdrEvent, b: SdrStateView) -> bool {
    &&& (!a.running && b.running ==> starts_forwarding(a, e))
    &&& (e matches SdrEvent::Poll(Some(SdrCommand::Off)) ==> !b.running)
    &&& (e is StreamEnd ==> !b.running && !b.connected)
    &&& (!a.connected && b.connected ==> e matches SdrEvent::Opened(true))
    &&& (a.connected && !b.connected ==> e is StreamEnd)
}

proof fn lemma_sdr_inv_after(s: SdrStateView, evs: Seq<SdrEvent>)
    requires
        sdr_inv(s),
    ensures
        sdr_inv(sdr_after(s, evs)),
    decreases evs.len(),
{
    if evs.len() > 0 {
        lemma_sdr_inv_after(s, evs.drop_last());
    }
}

/// Radio-thread law over any sequence of polled commands, device-open
/// outcomes and stream ends: samples are only forwarded while a device is
/// open, and every step changes forwarding and the device only as
/// `sdr_step_ok` allows.
pub proof fn lemma_sdr_event_sequence(s: SdrStateView, evs: Seq<SdrEvent>)
    requires
        sdr_inv(s),
    ensures
        forall|i: int| 0 <= i <= evs.len() ==> sdr_inv(#[trigger] sdr_after(s, evs.take(i))),
        forall|i: int|
            0 <= i < evs.len() ==> sdr_step_ok(
                sdr_after(s, evs.take(i)),
                evs[i],
                #[trigger] sdr_after(s, evs.take(i + 1)),
            ),
{
    assert forall|i: int| 0 <= i <= evs.len() implies sdr_inv(
        #[trigger] sdr_after(s, evs.take(i)),
    ) by {
        lemma_sdr_inv_after(s, evs.take(i));
    }
    assert forall|i: int| 0 <= i < evs.len() implies sdr_step_ok(
        sdr_after(s, evs.take(i)),
        evs[i],
        #[trigger] sdr_after(s, evs.take(i + 1)),
    ) by {
        assert(evs.take(i + 1).drop_last() =~= evs.take(i));
        assert(evs.take(i + 1).last() == evs[i]);
        lemma_sdr_inv_after(s, evs.take(i));
    }
}

/// Command law: what each polled command does, for every state.
/// - no command: nothing changes; the thread sleeps `IDLE_SLEEP_MS` exactly
///   when it is not forwarding;
/// - `Off`: forwarding stops, the device stays as it is;
/// - `On`: with a device open, forwarding starts; without one, the device is
///   opened at 90.3 MHz, 2.4 MS/s and a gain of 49.6 dB;
/// - `SetTuneFreq(f)` / `SetGain(g)`: whenever a device is open, forwarding
///   or not, it is retuned to `f` / set to gain `g`; without one, nothing
///   happens. Neither changes the state.
pub proof fn lemma_sdr_commands(s: SdrStateView, f: u32, g: i32)
    ensures
        sdr_command_step(s, None).0 == s,
        sdr_command_step(s, None).1 == (if s.running {
            SdrAction::Continue
        } else {
            SdrAction::Pause { millis: 1 }
        }),
        !sdr_command_step(s, Some(SdrCommand::Off)).0.running,
        sdr_command_step(s, Some(SdrCommand::Off)).0.connected == s.connected,
        sdr_command_step(s, Some(SdrCommand::Off)).1 == SdrAction::Continue,
        s.connected ==> sdr_command_step(s, Some(SdrCommand::On)).0 == (SdrStateView {
            running: true,
            connected: true,
        }) && sdr_command_step(s, Some(SdrCommand::On)).1 == SdrAction::Continue,
        !s.connected ==> sdr_command_step(s, Some(SdrCommand::On)).0 == s && sdr_command_step(
            s,
            Some(SdrCommand::On),
        ).1 == (SdrAction::OpenDevice {
            center_freq: 90_300_000,
            sample_rate: 2_400_000,
            gain_tenth_db: 496,
        }),
        sdr_command_step(s, Some(SdrCommand::SetTuneFreq(f))).0 == s,
        sdr_command_step(s, Some(SdrCommand::SetTuneFreq(f))).1 == (if s.connected {
            SdrAction::Tune(f)
        } else {
            SdrAction::Continue
        }),
        sdr_command_step(s, Some(SdrCommand::SetGain(g))).0 == s,
        sdr_command_step(s, Some(SdrCommand::SetGain(g))).1 == (if s.connected {
            SdrAction::SetGain(g)
        } else {
            SdrAction::Continue
        }),
{
}

/// Commands for the demodulator thread; `F` is the frequency type.
#[derive(Debug)]
pub enum DspCommand<F> {
    SetTuneFreq(F),
    RdsOn,
    RdsOff,
}

/// Whether the demodulator forwards its output to the RDS decoder.
pub struct DspControl {
    rds_on: bool,
}

impl DspControl {
    /// Whether demodulated samples go to the RDS decoder too.
    pub closed spec fn rds(&self) -> bool {
        self.rds_on
    }

    /// RDS forwarding starts switched off.
    pub fn new() -> (r: Self)
        ensures
            !r.rds(),
    {
        DspControl { rds_on: false }
    }

    /// Serves a command; returns the frequency to retune the mixer to, if any.
    pub fn on_command<F>(&mut self, cmd: DspCommand<F>) -> (retune: Option<F>)
        ensures
            match cmd {
                DspCommand::SetTuneFreq(f) => retune == Some(f) && final(self).rds() == old(
                    self,
                ).rds(),
                DspCommand::RdsOn => retune is None && final(self).rds(),
                DspCommand::RdsOff => retune is None && !final(self).rds(),
            },
    {
        match cmd {
            DspCommand::SetTuneFreq(f) => Some(f),
            DspCommand::RdsOn => {
                self.rds_on = true;
                None
            },
            DspCommand::RdsOff => {
                self.rds_on = false;
                None
            },
        }
    }

    /// Whether the current block of demodulated samples goes to RDS too.
    pub fn forwards_rds(&self) -> (r: bool)
        ensures
            r == self.rds(),
    {
        self.rds_on
    }
}

/// Raw 8-bit I/Q samples centred on zero: `(i - 128, q - 128)` for each
/// complete pair of bytes; a trailing odd byte is dropped.
pub open spec fn iq_offsets_spec(data: Seq<u8>) -> Seq<(i16, i16)> {
    Seq::new(
        data.len() / 2,
        |k: int| ((data[2 * k] - 128) as i16, (data[2 * k + 1] - 128) as i16),
    )
}

/// Centring law: each complete byte pair gives one sample pair, in order,
/// and adding 128 back to a sample gives its byte; every value lies in
/// `-128..=127`.
pub proof fn lemma_iq_offsets_recover_bytes(data: Seq<u8>)
    ensures
        2 * iq_offsets_spec(data).len() <= data.len() < 2 * iq_offsets_spec(data).len() + 2,
        forall|k: int|
            0 <= k < iq_offsets_spec(data).len() ==> {
                &&& #[trigger] iq_offsets_spec(data)[k].0 + 128 == data[2 * k]
                &&& iq_offsets_spec(data)[k].1 + 128 == data[2 * k + 1]
                &&& -128 <= iq_offsets_spec(data)[k].0 <= 127
                &&& -128 <= iq_offsets_spec(data)[k].1 <= 127
            },
{
}

/// Splits interleaved unsigned I/Q bytes into pairs centred on zero. The
/// floating-point samples are these values divided by 128.
pub fn iq_offsets(data: &[u8]) -> (r: Vec<(i16, i16)>)
    ensures
        r@ == iq_offsets_spec(data@),
{
    let len = data.len();
    let n = len / 2;
    let mut r: Vec<(i16, i16)> = Vec::new();
    let mut k: usize = 0;
    while k < n
        invariant
            len == data@.len(),
            n == len / 2,
            k <= n,
            r@ == iq_offsets_spec(data@).take(k as int),
        decreases n - k,
    {
        let i = data[2 * k] as i16 - 128;
        let q = data[2 * k + 1] as i16 - 128;
        r.push((i, q));
        k += 1;
        assert(r@ =~= iq_offsets_spec(data@).take(k as int));
    }
    assert(iq_offsets_spec(data@).take(n as int) =~= iq_offsets_spec(data@));
    r
}

} // verus!
