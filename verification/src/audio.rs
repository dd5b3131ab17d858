//! Sample source for the audio output callback.
//!
//! The demodulator sends blocks of samples over a channel; the audio callback
//! pulls one sample at a time. When the current block is used up, the next
//! block is taken from the channel without waiting; when none is waiting, a
//! block of silence keeps the output going.
use crossbeam_channel::Receiver;
use vstd::prelude::*;

verus! {

#[verifier::external_type_specification]
#[verifier::external_body]
#[verifier::reject_recursive_types(T)]
pub struct ExReceiver<T>(Receiver<T>);

/// Calls `crossbeam_channel::Receiver::try_recv`, which returns a waiting
/// message or fails at once when the channel is empty or disconnected; the
/// failure becomes `None`. Whether a block is waiting, and which, depends on
/// the sending thread, so no clause is stated of the result.
#[verifier::external_body]
fn try_recv_block<T>(rx: &Receiver<Vec<T>>) -> (r: Option<Vec<T>>) {
    rx.try_recv().ok()
}

/// Number of silent samples played when no block is waiting.
pub const UNDERRUN_LEN: usize = 100;

/// The block played when nothing arrived: `UNDERRUN_LEN` samples of silence.
pub open spec fn underrun_block<T>(silence: T) -> Seq<T> {
    Seq::new(UNDERRUN_LEN as nat, |i: int| silence)
}

/// One `take_sample` on `block` at index `idx`: the sample there and the
/// next index, or `None` and the same index past the end.
pub open spec fn take_spec<T>(block: Seq<T>, idx: nat) -> (Option<T>, nat) {
    if idx < block.len() {
        (Some(block[idx as int]), idx + 1)
    } else {
        (None, idx)
    }
}

/// The results of `n` calls of `take_sample` on `block`, starting at `idx`.
pub open spec fn take_run<T>(block: Seq<T>, idx: nat, n: nat) -> Seq<Option<T>>
    decreases n,
{
    if n == 0 {
        Seq::empty()
    } else {
        seq![take_spec(block, idx).0] + take_run(block, take_spec(block, idx).1, (n - 1) as nat)
    }
}

/// From index `k`, the rest of `block` comes out in order, then `None`.
proof fn lemma_take_run_rest<T>(block: Seq<T>, k: nat)
    requires
        k <= block.len(),
    ensures
        take_run(block, k, (block.len() - k + 1) as nat) == block.subrange(
            k as int,
            block.len() as int,
        ).map_values(|x: T| Some(x)).push(None),
    decreases block.len() - k,
{
    if k == block.len() {
        assert(take_run(block, k, 0) =~= Seq::<Option<T>>::empty());
        assert(take_run(block, k, 1) =~= seq![None]);
        assert(block.subrange(k as int, block.len() as int).map_values(|x: T| Some(x)).push(None)
            =~= seq![None]);
    } else {
        lemma_take_run_rest(block, k + 1);
        assert(take_run(block, k, (block.len() - k + 1) as nat) =~= block.subrange(
            k as int,
            block.len() as int,
        ).map_values(|x: T| Some(x)).push(None));
    }
}

/// Fewer calls give a prefix of the results.
proof fn lemma_take_run_prefix<T>(block: Seq<T>, idx: nat, n: nat)
    ensures
        take_run(block, idx, n) == take_run(block, idx, n + 1).take(n as int),
    decreases n,
{
    let next = take_spec(block, idx).1;
    lemma_take_run_len(block, next, n);
    if n > 0 {
        lemma_take_run_prefix(block, next, (n - 1) as nat);
        lemma_take_run_len(block, next, (n - 1) as nat);
        assert(take_run(block, idx, n) == seq![take_spec(block, idx).0] + take_run(
            block,
            next,
            (n - 1) as nat,
        ));
        assert(take_run(block, idx, n + 1) == seq![take_spec(block, idx).0] + take_run(
            block,
            next,
            n,
        ));
    }
    assert(take_run(block, idx, n) =~= take_run(block, idx, n + 1).take(n as int));
}

proof fn lemma_take_run_len<T>(block: Seq<T>, idx: nat, n: nat)
    ensures
        take_run(block, idx, n).len() == n,
    decreases n,
{
    if n > 0 {
        lemma_take_run_len(block, take_spec(block, idx).1, (n - 1) as nat);
    }
}

/// Playback law: after `load_block(Some(b))` (block `b`, index 0), the
/// next `b.len()` calls of `take_sample` return `b` in order and the one
/// after returns `None`; after `load_block(None)` the next `UNDERRUN_LEN`
/// calls return the silence value.
pub proof fn lemma_block_played_in_order<T>(b: Seq<T>, silence: T)
    ensures
        take_run(b, 0, b.len() + 1) == b.map_values(|x: T| Some(x)).push(None),
        take_run(underrun_block(silence), 0, UNDERRUN_LEN as nat) == Seq::new(
            UNDERRUN_LEN as nat,
            |i: int| Some(silence),
        ),
{
    lemma_take_run_rest(b, 0);
    assert(b.subrange(0, b.len() as int) =~= b);
    let u = underrun_block(silence);
    lemma_take_run_rest(u, 0);
    assert(u.subrange(0, u.len() as int) =~= u);
    lemma_take_run_prefix(u, 0, UNDERRUN_LEN as nat);
    assert(take_run(u, 0, UNDERRUN_LEN as nat) =~= Seq::new(
        UNDERRUN_LEN as nat,
        |i: int| Some(silence),
    ));
}

/// The block that is played after a refill: the block that arrived, or
/// silence when nothing did.
pub open spec fn block_of<T>(fetched: Option<Seq<T>>, silence: T) -> Seq<T> {
    match fetched {
        Some(b) => b,
        None => underrun_block(silence),
    }
}

/// One `get_next_sample` on `block` at index `idx`, where `fetched` is what
/// the channel hands over if a refill is needed: the sample returned, and
/// the block and index afterwards.
pub open spec fn next_sample_spec<T>(
    block: Seq<T>,
    idx: nat,
    silence: T,
    fetched: Option<Seq<T>>,
) -> (Option<T>, Seq<T>, nat) {
    if idx < block.len() {
        (Some(block[idx as int]), block, idx + 1)
    } else {
        let nb = block_of(fetched, silence);
        (take_spec(nb, 0).0, nb, take_spec(nb, 0).1)
    }
}

/// Refill law: when the current block is used up and the channel hands over
/// a block `b`, the block loaded is exactly `b`, whatever its length: the
/// call returns `b[0]` (or `None` when `b` is empty), and the following
/// `b.len() - 1` calls return the rest of `b` in order. When nothing is
/// handed over, `UNDERRUN_LEN` samples of silence are loaded instead.
pub proof fn lemma_refill_plays_handed_block<T>(block: Seq<T>, idx: nat, silence: T, b: Seq<T>)
    requires
        idx >= block.len(),
    ensures
        next_sample_spec(block, idx, silence, Some(b)).1 == b,
        b.len() > 0 ==> next_sample_spec(block, idx, silence, Some(b)).0 == Some(b[0])
            && next_sample_spec(block, idx, silence, Some(b)).2 == 1,
        b.len() == 0 ==> next_sample_spec(block, idx, silence, Some(b)).0 is None,
        b.len() > 0 ==> take_run(b, 1, (b.len() - 1) as nat).len() == b.len() - 1,
        b.len() > 0 ==> forall|k: int|
            0 <= k < b.len() - 1 ==> #[trigger] take_run(b, 1, (b.len() - 1) as nat)[k] == Some(
                b[k + 1],
            ),
        next_sample_spec(block, idx, silence, None).1.len() == UNDERRUN_LEN,
        forall|k: int|
            0 <= k < UNDERRUN_LEN ==> #[trigger] next_sample_spec(block, idx, silence, None).1[k]
                == silence,
{
    if b.len() > 0 {
        lemma_take_run_rest(b, 1);
        lemma_take_run_prefix(b, 1, (b.len() - 1) as nat);
        lemma_take_run_len(b, 1, (b.len() - 1) as nat);
        let run = take_run(b, 1, (b.len() - 1) as nat);
        let full = take_run(b, 1, b.len());
        assert(full == b.subrange(1, b.len() as int).map_values(|x: T| Some(x)).push(None));
        assert forall|k: int| 0 <= k < b.len() - 1 implies #[trigger] run[k] == Some(b[k + 1]) by {
            assert(run[k] == full[k]);
        }
    }
}

/// Results of `n` calls of `get_next_sample`, where each refill takes the
/// next entry of `fs` (what the channel hands over, in channel order; once
/// `fs` is used up, nothing is waiting).
pub open spec fn play_run<T>(
    block: Seq<T>,
    idx: nat,
    silence: T,
    fs: Seq<Option<Seq<T>>>,
    n: nat,
) -> Seq<Option<T>>
    decreases n,
{
    if n == 0 {
        Seq::empty()
    } else {
        let refill = idx >= block.len() && fs.len() > 0;
        let f = if refill {
            fs[0]
        } else {
            None
        };
        let rest = if refill {
            fs.drop_first()
        } else {
            fs
        };
        let st = next_sample_spec(block, idx, silence, f);
        seq![st.0] + play_run(st.1, st.2, silence, rest, (n - 1) as nat)
    }
}

/// The samples of the blocks in `fs`, in order, with silence for each
/// refill at which nothing was waiting.
pub open spec fn played<T>(fs: Seq<Option<Seq<T>>>, silence: T) -> Seq<T>
    decreases fs.len(),
{
    if fs.len() == 0 {
        Seq::empty()
    } else {
        block_of(fs[0], silence) + played(fs.drop_first(), silence)
    }
}

proof fn lemma_play_rest_of_block<T>(
    b: Seq<T>,
    k: nat,
    silence: T,
    fs: Seq<Option<Seq<T>>>,
    m: nat,
)
    requires
        k <= b.len(),
    ensures
        play_run(b, k, silence, fs, (b.len() - k + m) as nat) == b.subrange(
            k as int,
            b.len() as int,
        ).map_values(|x: T| Some(x)) + play_run(b, b.len(), silence, fs, m),
    decreases b.len() - k,
{
    if k == b.len() {
        assert(b.subrange(k as int, b.len() as int).map_values(|x: T| Some(x)) =~= Seq::<
            Option<T>,
        >::empty());
        assert(Seq::<Option<T>>::empty() + play_run(b, b.len(), silence, fs, m) =~= play_run(
            b,
            b.len(),
            silence,
            fs,
            m,
        ));
    } else {
        lemma_play_rest_of_block(b, k + 1, silence, fs, m);
        assert(play_run(b, k, silence, fs, (b.len() - k + m) as nat) =~= b.subrange(
            k as int,
            b.len() as int,
        ).map_values(|x: T| Some(x)) + play_run(b, b.len(), silence, fs, m));
    }
}

/// Channel-order law: starting from a used-up block, if every block that
/// arrives is non-empty, the samples returned by successive
/// `get_next_sample` calls are the arriving blocks, each whole, once and in
/// channel order, with `UNDERRUN_LEN` silent samples for each refill at
/// which nothing was waiting.
pub proof fn lemma_playback_in_channel_order<T>(
    block: Seq<T>,
    idx: nat,
    silence: T,
    fs: Seq<Option<Seq<T>>>,
)
    requires
        idx >= block.len(),
        forall|i: int| 0 <= i < fs.len() && #[trigger] fs[i] is Some ==> fs[i]->0.len() > 0,
    ensures
        play_run(block, idx, silence, fs, played(fs, silence).len()) == played(
            fs,
            silence,
        ).map_values(|x: T| Some(x)),
    decreases fs.len(),
{
    if fs.len() == 0 {
        assert(played(fs, silence) =~= Seq::<T>::empty());
        assert(play_run(block, idx, silence, fs, 0) =~= played(fs, silence).map_values(
            |x: T| Some(x),
        ));
    } else {
        let b = block_of(fs[0], silence);
        let rest = fs.drop_first();
        assert(b.len() > 0);
        let m = played(rest, silence).len();
        assert forall|i: int| 0 <= i < rest.len() && #[trigger] rest[i] is Some implies rest[
            i
        ]->0.len() > 0 by {
            assert(rest[i] == fs[i + 1]);
        }
        lemma_playback_in_channel_order(b, b.len(), silence, rest);
        lemma_play_rest_of_block(b, 1, silence, rest, m);
        let n = played(fs, silence).len();
        assert(n == b.len() + m);
        assert(play_run(block, idx, silence, fs, n) == seq![Some(b[0])] + play_run(
            b,
            1,
            silence,
            rest,
            (n - 1) as nat,
        ));
        assert(play_run(block, idx, silence, fs, n) =~= played(fs, silence).map_values(
            |x: T| Some(x),
        ));
    }
}

/// The values handed over by the channel at the refills of a run of calls:
/// `fetched[i]` counts only for a call that found its block used up.
pub open spec fn refills<T>(
    blocks: Seq<Seq<T>>,
    idxs: Seq<nat>,
    fetched: Seq<Option<Seq<T>>>,
) -> Seq<Option<Seq<T>>>
    decreases fetched.len(),
{
    if fetched.len() == 0 {
        Seq::empty()
    } else {
        (if idxs[0] >= blocks[0].len() {
            seq![fetched[0]]
        } else {
            Seq::empty()
        }) + refills(blocks.drop_first(), idxs.drop_first(), fetched.drop_first())
    }
}

/// Composition law: a run of `get_next_sample` calls, each of which follows
/// `next_sample_spec` for the value it was handed (as its contract states),
/// returns what `play_run` gives for the values handed over at its refills,
/// in order.
pub proof fn lemma_calls_follow_play_run<T>(
    blocks: Seq<Seq<T>>,
    idxs: Seq<nat>,
    silence: T,
    fetched: Seq<Option<Seq<T>>>,
    outs: Seq<Option<T>>,
)
    requires
        blocks.len() == outs.len() + 1,
        idxs.len() == outs.len() + 1,
        fetched.len() == outs.len(),
        forall|i: int|
            0 <= i < outs.len() ==> (outs[i], blocks[i + 1], idxs[i + 1]) == #[trigger] next_sample_spec(
                blocks[i],
                idxs[i],
                silence,
                fetched[i],
            ),
    ensures
        outs == play_run(blocks[0], idxs[0], silence, refills(blocks, idxs, fetched), outs.len()),
    decreases outs.len(),
{
    if outs.len() == 0 {
        assert(outs =~= Seq::<Option<T>>::empty());
    } else {
        let tb = blocks.drop_first();
        let ti = idxs.drop_first();
        let tf = fetched.drop_first();
        let to = outs.drop_first();
        assert forall|i: int| 0 <= i < to.len() implies (to[i], tb[i + 1], ti[i + 1])
            == #[trigger] next_sample_spec(tb[i], ti[i], silence, tf[i]) by {
            assert((outs[i + 1], blocks[i + 2], idxs[i + 2]) == next_sample_spec(
                blocks[i + 1],
                idxs[i + 1],
                silence,
                fetched[i + 1],
            ));
        }
        lemma_calls_follow_play_run(tb, ti, silence, tf, to);
        let st = next_sample_spec(blocks[0], idxs[0], silence, fetched[0]);
        assert((outs[0], blocks[1], idxs[1]) == st);
        let fs = refills(blocks, idxs, fetched);
        let rest = refills(tb, ti, tf);
        if idxs[0] >= blocks[0].len() {
            assert(fs =~= seq![fetched[0]] + rest);
            assert(fs.drop_first() =~= rest);
        } else {
            assert(fs =~= rest);
        }
        assert(outs =~= seq![outs[0]] + to);
    }
}

/// Pulls samples one by one out of the blocks that arrive on a channel.
#[verifier::reject_recursive_types(T)]
pub struct AudioState<T> {
    current_block: Vec<T>,
    idx: usize,
    rx: Receiver<Vec<T>>,
    silence: T,
}

impl<T: Copy> AudioState<T> {
    /// The block being played.
    pub closed spec fn block(&self) -> Seq<T> {
        self.current_block@
    }

    /// Index of the next sample to play in `block()`.
    pub closed spec fn idx(&self) -> nat {
        self.idx as nat
    }

    /// The value that underrun blocks are filled with.
    pub closed spec fn silence(&self) -> T {
        self.silence
    }

    /// The channel that blocks are taken from.
    pub closed spec fn receiver(&self) -> Receiver<Vec<T>> {
        self.rx
    }

    /// A source reading blocks from `rx`, starting with an empty block, that
    /// plays `silence` when nothing arrives.
    pub fn new(rx: Receiver<Vec<T>>, silence: T) -> (r: Self)
        ensures
            r.block() == Seq::<T>::empty(),
            r.idx() == 0,
            r.silence() == silence,
            r.receiver() == rx,
    {
        AudioState { current_block: Vec::new(), idx: 0, rx, silence }
    }

    /// Replaces the used-up block by `next`, or by `UNDERRUN_LEN` samples of
    /// silence when nothing arrived, and restarts at its first sample.
    pub fn load_block(&mut self, next: Option<Vec<T>>)
        ensures
            final(self).receiver() == old(self).receiver(),
            final(self).block() == (match next {
                Some(b) => b@,
                None => underrun_block(old(self).silence()),
            }),
            final(self).idx() == 0,
            final(self).silence() == old(self).silence(),
    {
        match next {
            Some(b) => {
                self.current_block = b;
            },
            None => {
                let mut block: Vec<T> = Vec::new();
                let mut i: usize = 0;
                while i < UNDERRUN_LEN
                    invariant
                        i <= UNDERRUN_LEN,
                        block@.len() == i,
                        forall|j: int| 0 <= j < i ==> block@[j] == self.silence,
                    decreases UNDERRUN_LEN - i,
                {
                    block.push(self.silence);
                    i += 1;
                }
                assert(block@ =~= underrun_block(self.silence));
                self.current_block = block;
            },
        }
        self.idx = 0;
    }

    /// Plays the sample at `idx()`, or returns `None` when the block holds
    /// no sample there.
    pub fn take_sample(&mut self) -> (r: Option<T>)
        ensures
            final(self).receiver() == old(self).receiver(),
            final(self).block() == old(self).block(),
            final(self).silence() == old(self).silence(),
            (r, final(self).idx()) == take_spec(old(self).block(), old(self).idx()),
            old(self).idx() < old(self).block().len() ==> r == Some(old(self).block()[old(
                self,
            ).idx() as int]) && final(self).idx() == old(self).idx() + 1,
            old(self).idx() >= old(self).block().len() ==> r is None && final(self).idx() == old(
                self,
            ).idx(),
    {
        if self.idx < self.current_block.len() {
            let sample = self.current_block[self.idx];
            self.idx += 1;
            Some(sample)
        } else {
            None
        }
    }

    /// The next sample to play. When the current block is used up, the next
    /// block is taken from the channel (silence if none is waiting). `None`
    /// comes back only when the block taken from the channel is empty.
    pub fn get_next_sample(&mut self) -> (r: Option<T>)
        ensures
            final(self).receiver() == old(self).receiver(),
            final(self).silence() == old(self).silence(),
            exists|fetched: Option<Seq<T>>|
                (r, final(self).block(), final(self).idx()) == #[trigger] next_sample_spec(
                    old(self).block(),
                    old(self).idx(),
                    old(self).silence(),
                    fetched,
                ),
            old(self).idx() < old(self).block().len() ==> {
                &&& r == Some(old(self).block()[old(self).idx() as int])
                &&& final(self).block() == old(self).block()
                &&& final(self).idx() == old(self).idx() + 1
            },
            old(self).idx() >= old(self).block().len() ==> {
                &&& final(self).block().len() > 0 ==> r == Some(final(self).block()[0])
                    && final(self).idx() == 1
                &&& final(self).block().len() == 0 ==> r is None && final(self).idx() == 0
            },
    {
        let ghost mut fetched: Option<Seq<T>> = None;
        if self.idx >= self.current_block.len() {
            let next = try_recv_block(&self.rx);
            proof {
                fetched = match next {
                    Some(ref v) => Some(v@),
                    None => None,
                };
            }
            self.load_block(next);
        }
        let r = self.take_sample();
        assert((r, self.block(), self.idx()) == next_sample_spec(
            old(self).block(),
            old(self).idx(),
            old(self).silence(),
            fetched,
        ));
        r
    }
}

/// Number of frames of `channels` samples (the last one possibly short)
/// that `len` samples make up.
pub open spec fn frame_count(len: nat, channels: nat) -> nat {
    ((len + channels - 1) / (channels as int)) as nat
}

/// Fills interleaved output: frame `f` (samples `f * channels` up to the
/// next frame or the end) gets `values[f]` on every channel, so sample `i`
/// is `values[i / channels]`.
pub fn fill_frames<T: Copy>(out: &mut [T], channels: usize, values: &Vec<T>)
    requires
        channels > 0,
        values@.len() == frame_count(old(out)@.len(), channels as nat),
    ensures
        final(out)@.len() == old(out)@.len(),
        forall|i: int|
            0 <= i < final(out)@.len() ==> #[trigger] final(out)@[i] == values@[i / (
            channels as int)],
{
    let len = out.len();
    let mut i: usize = 0;
    let mut f: usize = 0;
    let mut c: usize = 0;
    while i < len
        invariant
            len == out@.len(),
            channels > 0,
            values@.len() == frame_count(len as nat, channels as nat),
            i <= len,
            c < channels,
            i == f * channels + c,
            forall|j: int| 0 <= j < i ==> #[trigger] out@[j] == values@[j / (channels as int)],
        decreases len - i,
    {
        proof {
            vstd::arithmetic::div_mod::lemma_fundamental_div_mod_converse(
                i as int,
                channels as int,
                f as int,
                c as int,
            );
            assert(f < values@.len()) by (nonlinear_arith)
                requires
                    i == f * channels + c,
                    i < len,
                    c < channels,
                    channels > 0,
                    values@.len() == (len + channels - 1) / (channels as int),
            {
                assert(f * channels + channels <= len + channels - 1);
                assert((f + 1) * channels <= len + channels - 1);
            }
        }
        out[i] = values[f];
        i += 1;
        if c + 1 == channels {
            assert((f + 1) * channels == f * channels + channels) by (nonlinear_arith);
            c = 0;
            f += 1;
        } else {
            c += 1;
        }
    }
}

} // verus!
