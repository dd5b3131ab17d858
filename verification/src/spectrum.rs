//! Index logic of the spectrum display: fitting the latest sample block to
//! the FFT length, and reordering the FFT bins so that the centre frequency
//! lands in the middle. Windowing, the FFT and the magnitudes are
//! floating-point work done by the caller.
use vstd::prelude::*;

verus! {

/// The first `size` samples of `block`, padded with `zero` when it is shorter.
pub open spec fn fit_block_spec<T>(block: Seq<T>, size: nat, zero: T) -> Seq<T> {
    Seq::new(size, |i: int| if i < block.len() { block[i] } else { zero })
}

/// Brings a sample block to exactly `size` samples: longer blocks are cut,
/// shorter ones padded with `zero`.
pub fn fit_block<T: Copy>(block: &Vec<T>, size: usize, zero: T) -> (r: Vec<T>)
    ensures
        r@ == fit_block_spec(block@, size as nat, zero),
{
    let mut r: Vec<T> = Vec::new();
    let mut i: usize = 0;
    while i < size
        invariant
            i <= size,
            r@ == fit_block_spec(block@, size as nat, zero).take(i as int),
        decreases size - i,
    {
        let v = if i < block.len() {
            block[i]
        } else {
            zero
        };
        r.push(v);
        i += 1;
        assert(r@ =~= fit_block_spec(block@, size as nat, zero).take(i as int));
    }
    assert(fit_block_spec(block@, size as nat, zero).take(size as int) =~= fit_block_spec(
        block@,
        size as nat,
        zero,
    ));
    r
}

/// Fitting law: a block at least `size` long is cut to its first `size`
/// samples; a shorter one is kept whole and followed by `zero`s up to `size`.
pub proof fn lemma_fit_block_cut_or_pad<T>(block: Seq<T>, size: nat, zero: T)
    ensures
        block.len() >= size ==> fit_block_spec(block, size, zero) == block.take(size as int),
        block.len() < size ==> fit_block_spec(block, size, zero).take(block.len() as int)
            == block,
        block.len() < size ==> fit_block_spec(block, size, zero).len() == size,
        block.len() < size ==> forall|i: int|
            block.len() <= i < size ==> #[trigger] fit_block_spec(block, size, zero)[i] == zero,
{
    if block.len() >= size {
        assert(fit_block_spec(block, size, zero) =~= block.take(size as int));
    } else {
        assert(fit_block_spec(block, size, zero).take(block.len() as int) =~= block);
    }
}

/// FFT bins reordered from `0, 1, .., n-1` to start at bin `n / 2`, so that
/// the negative frequencies come first.
pub open spec fn fft_shift_spec<T>(bins: Seq<T>) -> Seq<T> {
    Seq::new(bins.len(), |i: int| bins[(i + bins.len() / 2) % (bins.len() as int)])
}

/// Reorders FFT bins so that output `i` is bin `(i + n/2) % n`.
pub fn fft_shift<T: Copy>(bins: &Vec<T>) -> (r: Vec<T>)
    ensures
        r@ == fft_shift_spec(bins@),
{
    let n = bins.len();
    let half = n / 2;
    let mut r: Vec<T> = Vec::new();
    let mut i: usize = 0;
    while i < n
        invariant
            n == bins@.len(),
            half == n / 2,
            i <= n,
            r@ == fft_shift_spec(bins@).take(i as int),
        decreases n - i,
    {
        let idx = if i < n - half {
            i + half
        } else {
            i - (n - half)
        };
        proof {
            if i + half < n {
                vstd::arithmetic::div_mod::lemma_small_mod((i + half) as nat, n as nat);
            } else {
                vstd::arithmetic::div_mod::lemma_mod_add_multiples_vanish(
                    i + half - n,
                    n as int,
                );
                vstd::arithmetic::div_mod::lemma_small_mod((i + half - n) as nat, n as nat);
            }
        }
        r.push(bins[idx]);
        i += 1;
        assert(r@ =~= fft_shift_spec(bins@).take(i as int));
    }
    assert(fft_shift_spec(bins@).take(n as int) =~= fft_shift_spec(bins@));
    r
}

/// Rotation law: for every length `n`, the reordered bins are the upper
/// `n - n/2` bins followed by the lower `n/2` bins, so output `i` is bin
/// `i + n/2` for `i < n - n/2` and bin `i - (n - n/2)` after that.
pub proof fn lemma_fft_shift_rotates<T>(bins: Seq<T>)
    ensures
        fft_shift_spec(bins) == bins.subrange((bins.len() / 2) as int, bins.len() as int)
            + bins.subrange(0, (bins.len() / 2) as int),
{
    let n = bins.len() as int;
    let h = n / 2;
    let rot = bins.subrange(h, n) + bins.subrange(0, h);
    assert forall|i: int| 0 <= i < n implies #[trigger] fft_shift_spec(bins)[i] == rot[i] by {
        if i + h < n {
            vstd::arithmetic::div_mod::lemma_small_mod((i + h) as nat, n as nat);
        } else {
            vstd::arithmetic::div_mod::lemma_mod_add_multiples_vanish(i + h - n, n);
            vstd::arithmetic::div_mod::lemma_small_mod((i + h - n) as nat, n as nat);
        }
    }
    assert(fft_shift_spec(bins) =~= rot);
}

/// Reordering law: for an even number of bins the reordering swaps the two
/// halves, so applying it twice gives back the original order.
pub proof fn lemma_fft_shift_twice<T>(bins: Seq<T>)
    requires
        bins.len() % 2 == 0,
    ensures
        fft_shift_spec(fft_shift_spec(bins)) == bins,
{
    let n = bins.len() as int;
    let once = fft_shift_spec(bins);
    assert forall|i: int| 0 <= i < n implies #[trigger] fft_shift_spec(once)[i] == bins[i] by {
        let h = n / 2;
        let j = (i + h) % n;
        if i + h < n {
            vstd::arithmetic::div_mod::lemma_small_mod((i + h) as nat, n as nat);
        } else {
            vstd::arithmetic::div_mod::lemma_mod_add_multiples_vanish(i + h - n, n);
            vstd::arithmetic::div_mod::lemma_small_mod((i + h - n) as nat, n as nat);
        }
        assert(0 <= j < n);
        if j + h < n {
            vstd::arithmetic::div_mod::lemma_small_mod((j + h) as nat, n as nat);
        } else {
            vstd::arithmetic::div_mod::lemma_mod_add_multiples_vanish(j + h - n, n);
            vstd::arithmetic::div_mod::lemma_small_mod((j + h - n) as nat, n as nat);
        }
    }
    assert(fft_shift_spec(once) =~= bins);
}

} // verus!
