//! Bit-level steps of the RDS decoder: differential decoding and the text
//! form in which decoded bits are logged.
use vstd::prelude::*;

verus! {

/// Differentially decoded bits: each bit is XORed with the bit before it;
/// the first one with `false`.
pub open spec fn diff_decoded(bits: Seq<bool>) -> Seq<bool> {
    Seq::new(
        bits.len(),
        |i: int|
            bits[i] != (if i == 0 {
                false
            } else {
                bits[i - 1]
            }),
    )
}

/// Differential encoding: the running XOR of `bits`.
pub open spec fn running_xor(bits: Seq<bool>) -> Seq<bool>
    decreases bits.len(),
{
    if bits.len() == 0 {
        Seq::empty()
    } else {
        let prev = running_xor(bits.drop_last());
        prev.push(
            bits.last() != (if prev.len() == 0 {
                false
            } else {
                prev.last()
            }),
        )
    }
}

/// Decodes a block of differentially encoded bits. Every call starts from a
/// previous bit of `false`.
pub fn diff_demod(samples: Vec<bool>) -> (out: Vec<bool>)
    ensures
        out@ == diff_decoded(samples@),
{
    let mut prev = false;
    let mut out: Vec<bool> = Vec::new();
    let n = samples.len();
    let mut i: usize = 0;
    while i < n
        invariant
            n == samples@.len(),
            i <= n,
            out@ == diff_decoded(samples@).take(i as int),
            prev == (if i == 0 {
                false
            } else {
                samples@[i - 1]
            }),
        decreases n - i,
    {
        let x = samples[i];
        out.push(x ^ prev);
        prev = x;
        i += 1;
        assert(out@ =~= diff_decoded(samples@).take(i as int));
    }
    assert(diff_decoded(samples@).take(n as int) =~= diff_decoded(samples@));
    out
}

/// Round-trip law: differential decoding loses nothing. Re-encoding the
/// decoded bits with a running XOR gives back the received bits.
pub proof fn lemma_diff_decode_inverts_encoding(bits: Seq<bool>)
    ensures
        running_xor(diff_decoded(bits)) == bits,
    decreases bits.len(),
{
    if bits.len() > 0 {
        lemma_diff_decode_inverts_encoding(bits.drop_last());
        assert(diff_decoded(bits).drop_last() =~= diff_decoded(bits.drop_last()));
        lemma_running_xor_len(diff_decoded(bits.drop_last()));
        assert(running_xor(diff_decoded(bits)) =~= bits);
    } else {
        assert(diff_decoded(bits) =~= Seq::<bool>::empty());
        assert(bits =~= Seq::<bool>::empty());
    }
}

proof fn lemma_running_xor_len(bits: Seq<bool>)
    ensures
        running_xor(bits).len() == bits.len(),
    decreases bits.len(),
{
    if bits.len() > 0 {
        lemma_running_xor_len(bits.drop_last());
    }
}

/// The ASCII digit that logs a bit: `'1'` for `true`, `'0'` for `false`.
pub open spec fn bit_digit(b: bool) -> u8 {
    if b {
        0x31u8
    } else {
        0x30u8
    }
}

/// Log law: the log of `bits` has one byte per bit, in order, and that byte
/// minus the ASCII code of `'0'` is the bit's value.
pub proof fn lemma_bit_digits_values(bits: Seq<bool>)
    ensures
        bits.map_values(|b: bool| bit_digit(b)).len() == bits.len(),
        forall|i: int|
            #![trigger bits[i]]
            0 <= i < bits.len() ==> bits.map_values(|b: bool| bit_digit(b))[i] - 48
                == (if bits[i] {
                1int
            } else {
                0int
            }),
{
}

/// The bytes written to the bit log for `bits`: one ASCII digit per bit.
pub fn bit_digits(bits: &Vec<bool>) -> (text: Vec<u8>)
    ensures
        text@ == bits@.map_values(|b: bool| bit_digit(b)),
{
    let mut text: Vec<u8> = Vec::new();
    let n = bits.len();
    let mut i: usize = 0;
    while i < n
        invariant
            n == bits@.len(),
            i <= n,
            text@ == bits@.take(i as int).map_values(|b: bool| bit_digit(b)),
        decreases n - i,
    {
        let d: u8 = if bits[i] {
            0x31u8
        } else {
            0x30u8
        };
        text.push(d);
        assert(bits@.take(i + 1).drop_last() =~= bits@.take(i as int));
        i += 1;
        assert(text@ =~= bits@.take(i as int).map_values(|b: bool| bit_digit(b)));
    }
    assert(bits@.take(n as int) =~= bits@);
    text
}

} // verus!
