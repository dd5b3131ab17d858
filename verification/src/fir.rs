//! Delay line and decimation of a FIR filter.
//!
//! The filter keeps its last `taps` samples in a mirrored ring of length
//! `2 * taps`: every sample is written at `pos` and at `pos + taps`, and the
//! write position walks downwards. For every `decimation`-th input sample the
//! filter hands out the tap vector that the coefficients are multiplied with,
//! in coefficient order. The multiply-accumulate itself works on floating-point
//! values and is done by the caller.
use vstd::prelude::*;

verus! {

/// Abstract state of the delay line: the last `taps` samples, newest first,
/// and the decimation phase (an output is due when it is 0).
pub struct FirState<T> {
    pub recent: Seq<T>,
    pub phase: nat,
}

/// `recent` after the sample `x` came in: `x` in front, the oldest sample gone.
pub open spec fn shift_in<T>(recent: Seq<T>, x: T) -> Seq<T> {
    seq![x] + recent.take(recent.len() - 1)
}

/// The tap vector read for an output, in coefficient order: the newest
/// sample first, then the remaining samples from the oldest to the newest.
pub open spec fn tap_window<T>(recent: Seq<T>) -> Seq<T> {
    Seq::new(
        recent.len(),
        |k: int|
            if k == 0 {
                recent[0]
            } else {
                recent[recent.len() - k]
            },
    )
}

/// State and emitted tap vectors after feeding `xs` to a delay line in
/// state `s` with the given decimation.
pub open spec fn run_fir<T>(s: FirState<T>, decimation: nat, xs: Seq<T>) -> (FirState<T>, Seq<
    Seq<T>,
>)
    decreases xs.len(),
{
    if xs.len() == 0 {
        (s, Seq::empty())
    } else {
        let prev = run_fir(s, decimation, xs.drop_last());
        let r = shift_in(prev.0.recent, xs.last());
        let outs = if prev.0.phase == 0 {
            prev.1.push(tap_window(r))
        } else {
            prev.1
        };
        (FirState { recent: r, phase: (prev.0.phase + 1) % decimation }, outs)
    }
}

/// Streaming law: feeding `a` and then `b` gives the same final state as
/// feeding `a + b` at once, and the outputs of the two calls, concatenated,
/// are the outputs of the single call.
pub proof fn lemma_fir_blocks_concatenate<T>(s: FirState<T>, decimation: nat, a: Seq<T>, b: Seq<T>)
    ensures
        run_fir(s, decimation, a + b).0 == run_fir(run_fir(s, decimation, a).0, decimation, b).0,
        run_fir(s, decimation, a + b).1 == run_fir(s, decimation, a).1 + run_fir(
            run_fir(s, decimation, a).0,
            decimation,
            b,
        ).1,
    decreases b.len(),
{
    let mid = run_fir(s, decimation, a).0;
    if b.len() == 0 {
        assert(a + b =~= a);
        assert(run_fir(s, decimation, a).1 + Seq::<Seq<T>>::empty() =~= run_fir(s, decimation, a).1);
    } else {
        lemma_fir_blocks_concatenate(s, decimation, a, b.drop_last());
        assert((a + b).drop_last() =~= a + b.drop_last());
        assert((a + b).last() == b.last());
        let prev_b = run_fir(mid, decimation, b.drop_last());
        let r = shift_in(prev_b.0.recent, b.last());
        if prev_b.0.phase == 0 {
            assert(run_fir(s, decimation, a).1 + prev_b.1.push(tap_window(r)) =~= (run_fir(
                s,
                decimation,
                a,
            ).1 + prev_b.1).push(tap_window(r)));
        }
    }
}

/// The `stream` seen by a delay line in state `s` that is then fed `xs`:
/// the samples it holds, oldest first, followed by `xs`.
pub open spec fn fir_stream<T>(s: FirState<T>, xs: Seq<T>) -> Seq<T> {
    s.recent.reverse() + xs
}

/// Window law: after any input, the delay line holds exactly the last
/// `taps` samples of its stream, newest first.
pub proof fn lemma_fir_holds_latest_samples<T>(s: FirState<T>, decimation: nat, xs: Seq<T>)
    requires
        s.recent.len() > 0,
    ensures
        run_fir(s, decimation, xs).0.recent == Seq::new(
            s.recent.len(),
            |j: int| fir_stream(s, xs)[fir_stream(s, xs).len() - 1 - j],
        ),
    decreases xs.len(),
{
    let len = s.recent.len();
    let st = fir_stream(s, xs);
    if xs.len() == 0 {
        assert(st =~= s.recent.reverse());
        assert(run_fir(s, decimation, xs).0.recent =~= Seq::new(
            len,
            |j: int| st[st.len() - 1 - j],
        ));
    } else {
        lemma_fir_holds_latest_samples(s, decimation, xs.drop_last());
        let st0 = fir_stream(s, xs.drop_last());
        assert(st0 =~= st.drop_last());
        let prev = run_fir(s, decimation, xs.drop_last()).0.recent;
        assert(shift_in(prev, xs.last()) =~= Seq::new(len, |j: int| st[st.len() - 1 - j]));
    }
}

/// Decimation law: the phase advances by one per input sample, modulo the
/// decimation, so an output falls due exactly every `decimation` samples.
pub proof fn lemma_fir_phase<T>(s: FirState<T>, decimation: nat, xs: Seq<T>)
    requires
        decimation > 0,
        s.phase < decimation,
    ensures
        run_fir(s, decimation, xs).0.phase == (s.phase + xs.len()) % decimation,
    decreases xs.len(),
{
    if xs.len() == 0 {
        vstd::arithmetic::div_mod::lemma_small_mod(s.phase, decimation);
    } else {
        lemma_fir_phase(s, decimation, xs.drop_last());
        vstd::arithmetic::div_mod::lemma_add_mod_noop_right(
            1,
            s.phase + xs.len() - 1,
            decimation as int,
        );
    }
}

/// Window law: the tap vector emitted for an input is fixed by the input
/// stream alone. With `t` taps and the stream (the samples held, oldest
/// first, then all inputs) ending in the new sample `x` at position
/// `n - 1`: when an output is due, exactly one vector is appended; its entry
/// 0 is `x` and its entry `k` (`0 < k < t`) is the stream sample at
/// `n - 1 - t + k`, i.e. `t - k` inputs before `x`. When no output is due,
/// nothing is appended.
pub proof fn lemma_fir_window_from_stream<T>(s: FirState<T>, decimation: nat, xs: Seq<T>, x: T)
    requires
        decimation > 0,
        s.phase < decimation,
        s.recent.len() > 0,
    ensures
        ({
            let stream = s.recent.reverse() + xs.push(x);
            let n = stream.len();
            let t = s.recent.len();
            let before = run_fir(s, decimation, xs).1;
            let after = run_fir(s, decimation, xs.push(x)).1;
            &&& (s.phase + xs.len()) % decimation == 0 ==> {
                &&& after.len() == before.len() + 1
                &&& after.drop_last() == before
                &&& after.last().len() == t
                &&& after.last()[0] == x
                &&& forall|k: int| 0 < k < t ==> #[trigger] after.last()[k] == stream[n - 1 - t + k]
            }
            &&& (s.phase + xs.len()) % decimation != 0 ==> after == before
        }),
{
    let ys = xs.push(x);
    assert(ys.drop_last() =~= xs);
    assert(ys.last() == x);
    lemma_fir_phase(s, decimation, xs);
    lemma_fir_holds_latest_samples(s, decimation, ys);
    let stream = s.recent.reverse() + ys;
    assert(fir_stream(s, ys) == stream);
    let n = stream.len();
    let t = s.recent.len();
    let prev = run_fir(s, decimation, xs);
    let r = shift_in(prev.0.recent, x);
    assert(run_fir(s, decimation, ys).0.recent == r);
    assert(r == Seq::new(t, |j: int| stream[n - 1 - j]));
    let w = tap_window(r);
    assert(w.len() == t);
    assert(stream[n - 1] == x);
    assert forall|k: int| 0 < k < t implies #[trigger] w[k] == stream[n - 1 - t + k] by {
        assert(w[k] == r[t - k]);
    }
    if prev.0.phase == 0 {
        assert(run_fir(s, decimation, ys).1 == prev.1.push(w));
        assert(prev.1.push(w).drop_last() =~= prev.1);
    }
}

/// A decimating FIR delay line over samples of type `T`.
pub struct FirFilterDecimate<T> {
    history: Vec<T>,
    pos: usize,
    taps: usize,
    decimation: usize,
    d_count: usize,
}

impl<T> View for FirFilterDecimate<T> {
    type V = FirState<T>;

    closed spec fn view(&self) -> FirState<T> {
        FirState {
            recent: if self.taps == 0 {
                Seq::empty()
            } else {
                self.history@.subrange(self.pos + 1, self.pos + 1 + self.taps)
            },
            phase: self.d_count as nat,
        }
    }
}

impl<T: Copy> FirFilterDecimate<T> {
    /// Number of coefficients (and of samples kept).
    pub closed spec fn taps(&self) -> nat {
        self.taps as nat
    }

    /// Keep one output out of this many input samples.
    pub closed spec fn decimation(&self) -> nat {
        self.decimation as nat
    }

    /// Internal consistency of the mirrored ring.
    pub closed spec fn wf(&self) -> bool {
        &&& self.history@.len() == 2 * self.taps
        &&& (self.taps == 0 ==> self.pos == 0)
        &&& (self.taps > 0 ==> self.pos < self.taps)
        &&& (forall|s: int|
            0 <= s < self.taps ==> #[trigger] self.history@[s] == self.history@[s + self.taps])
        &&& (self.decimation > 0 ==> self.d_count < self.decimation)
        &&& (self.decimation == 0 ==> self.d_count == 0)
    }

    /// A delay line for `num_taps` coefficients, filled with `zero`, that
    /// keeps one output out of `decimation` input samples.
    pub fn new(num_taps: usize, decimation: usize, zero: T) -> (r: Self)
        requires
            num_taps <= usize::MAX / 2,
        ensures
            r.wf(),
            r.taps() == num_taps,
            r.decimation() == decimation,
            r@.recent == Seq::new(num_taps as nat, |i: int| zero),
            r@.phase == 0,
    {
        let len = num_taps * 2;
        let mut history: Vec<T> = Vec::new();
        let mut i: usize = 0;
        while i < len
            invariant
                len == num_taps * 2,
                i <= len,
                history@.len() == i,
                forall|j: int| 0 <= j < i ==> history@[j] == zero,
            decreases len - i,
        {
            history.push(zero);
            i += 1;
        }
        let r = FirFilterDecimate { history, pos: 0, taps: num_taps, decimation, d_count: 0 };
        assert(r@.recent =~= Seq::new(num_taps as nat, |i: int| zero));
        r
    }

    /// Feeds `input_vec` through the delay line and returns the tap vectors
    /// of the outputs that fall due, in order.
    pub fn process(&mut self, input_vec: Vec<T>) -> (out: Vec<Vec<T>>)
        requires
            old(self).wf(),
            old(self).decimation() > 0,
            input_vec@.len() > 0 ==> old(self).taps() > 0,
        ensures
            final(self).wf(),
            final(self).taps() == old(self).taps(),
            final(self).decimation() == old(self).decimation(),
            final(self)@ == run_fir(old(self)@, old(self).decimation(), input_vec@).0,
            out@.map_values(|w: Vec<T>| w@) == run_fir(
                old(self)@,
                old(self).decimation(),
                input_vec@,
            ).1,
    {
        let ghost s0 = self@;
        let ghost d = self.decimation();
        let n = input_vec.len();
        let mut out: Vec<Vec<T>> = Vec::new();
        let mut i: usize = 0;
        assert(input_vec@.take(0) =~= Seq::<T>::empty());
        while i < n
            invariant
                n == input_vec@.len(),
                i <= n,
                self.wf(),
                self.taps() == old(self).taps(),
                self.decimation() == d,
                d == old(self).decimation(),
                d > 0,
                n > 0 ==> self.taps() > 0,
                s0 == old(self)@,
                self@ == run_fir(s0, d, input_vec@.take(i as int)).0,
                out@.map_values(|w: Vec<T>| w@) == run_fir(s0, d, input_vec@.take(i as int)).1,
            decreases n - i,
        {
            let ghost prev = run_fir(s0, d, input_vec@.take(i as int));
            assert(input_vec@.take(i + 1).drop_last() =~= input_vec@.take(i as int));
            assert(input_vec@.take(i + 1).last() == input_vec@[i as int]);
            let input = input_vec[i];
            self.push_sample(input, &mut out);
            i += 1;
        }
        assert(input_vec@.take(n as int) =~= input_vec@);
        out
    }

    /// One input sample: writes it into the ring, appends the tap vector to
    /// `out` when an output is due, and advances position and phase.
    fn push_sample(&mut self, input: T, out: &mut Vec<Vec<T>>)
        requires
            old(self).wf(),
            old(self).decimation > 0,
            old(self).taps > 0,
        ensures
            final(self).wf(),
            final(self).taps == old(self).taps,
            final(self).decimation == old(self).decimation,
            final(self)@.recent == shift_in(old(self)@.recent, input),
            final(self)@.phase == (old(self)@.phase + 1) % (old(self).decimation as nat),
            final(out)@.map_values(|w: Vec<T>| w@) == if old(self)@.phase == 0 {
                old(out)@.map_values(|w: Vec<T>| w@).push(tap_window(final(self)@.recent))
            } else {
                old(out)@.map_values(|w: Vec<T>| w@)
            },
    {
        let taps = self.taps;
        let pos = self.pos;
        let ghost old_hist = self.history@;
        let hlen = self.history.len();
        assert(pos + taps < hlen);
        let mirror = pos + taps;
        self.history[pos] = input;
        self.history[mirror] = input;
        let ghost hist = self.history@;
        assert(forall|s: int| 0 <= s < taps ==> #[trigger] hist[s] == hist[s + taps]) by {
            assert forall|s: int| 0 <= s < taps implies #[trigger] hist[s] == hist[s + taps] by {
                if s != pos {
                    assert(old_hist[s] == old_hist[s + taps]);
                }
            }
        }
        let ghost fresh = hist.subrange(pos as int, pos + taps);
        assert(fresh =~= shift_in(old(self)@.recent, input)) by {
            assert forall|m: int| 1 <= m < taps implies #[trigger] fresh[m] == old_hist[pos + m] by {}
        }
        if self.d_count == 0 {
            let mut window: Vec<T> = Vec::new();
            let mut idx = pos;
            let mut k: usize = 0;
            while k < taps
                invariant
                    hlen == 2 * taps,
                    self.history@ == hist,
                    taps > 0,
                    pos < taps,
                    k <= taps,
                    hist.len() == 2 * taps,
                    forall|s: int| 0 <= s < taps ==> #[trigger] hist[s] == hist[s + taps],
                    idx == if k <= pos {
                        pos - k
                    } else {
                        pos + 2 * taps - k
                    },
                    window@.len() == k,
                    forall|j: int|
                        0 <= j < k ==> #[trigger] window@[j] == if j == 0 {
                            hist[pos as int]
                        } else {
                            hist[pos + taps - j]
                        },
                decreases taps - k,
            {
                let v = self.history[idx];
                proof {
                    if k > 0 && k <= pos {
                        assert(hist[pos - k] == hist[pos - k + taps]);
                    } else if k > pos {
                        assert(hist[pos + taps - k] == hist[pos + taps - k + taps]);
                    }
                }
                window.push(v);
                if idx == 0 {
                    idx = hlen - 1;
                } else {
                    idx -= 1;
                }
                k += 1;
            }
            assert(window@ =~= tap_window(fresh));
            out.push(window);
            assert(out@.map_values(|w: Vec<T>| w@) =~= old(out)@.map_values(|w: Vec<T>| w@).push(
                tap_window(fresh),
            ));
        }
        self.pos = if pos == 0 {
            taps - 1
        } else {
            pos - 1
        };
        self.d_count = (self.d_count + 1) % self.decimation;
        assert(self@.recent =~= fresh);
    }
}

} // verus!
