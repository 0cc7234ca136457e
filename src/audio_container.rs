//! The compressed container's side of the library: how decoded channel
//! blocks become one interleaved buffer, and how an interleaved buffer is
//! split back into channels for the encoder.
use vstd::prelude::*;
use vstd::arithmetic::div_mod::{
    lemma_fundamental_div_mod_converse_div, lemma_fundamental_div_mod_converse_mod,
};

verus! {

/// The Ogg Vorbis container, the one format the tool reads and writes.
#[derive(Debug, Clone, Copy, PartialEq, Eq)]
pub struct OggContainer;

/// `frames` frames of the given channels, interleaved: sample `k` is frame
/// `k / c` of channel `k % c`, where `c` is the number of channels.
pub open spec fn interleaved<S>(channels: Seq<Seq<S>>, frames: nat) -> Seq<S> {
    Seq::new(frames * channels.len(), |k: int| channels[k % channels.len() as int][k / channels.len() as int])
}

/// The samples at even positions: the left channel of an interleaved
/// stereo buffer.
pub open spec fn even_samples<S>(s: Seq<S>) -> Seq<S> {
    Seq::new(((s.len() + 1) / 2) as nat, |k: int| s[2 * k])
}

/// The samples at odd positions: the right channel of an interleaved
/// stereo buffer.
pub open spec fn odd_samples<S>(s: Seq<S>) -> Seq<S> {
    Seq::new((s.len() / 2) as nat, |k: int| s[2 * k + 1])
}

/// The contents of each channel vector.
pub open spec fn channel_views<S>(v: Seq<Vec<S>>) -> Seq<Seq<S>> {
    v.map_values(|c: Vec<S>| c@)
}

proof fn lemma_div_mod_of(k: int, c: int, q: int, r: int)
    requires
        c > 0,
        0 <= r < c,
        k == q * c + r,
    ensures
        k / c == q,
        k % c == r,
{
    lemma_fundamental_div_mod_converse_div(k, c, q, r);
    lemma_fundamental_div_mod_converse_mod(k, c, q, r);
}

impl OggContainer {
    /// File extension of the container, without the dot.
    pub fn extension(&self) -> (r: &'static str)
        ensures
            r@ == "ogg"@,
    {
        "ogg"
    }

    /// Appends one decoded block, given channel by channel, to `out` as
    /// interleaved frames. The first channel sets the block's frame count.
    pub fn append_block<S: Copy>(&self, out: &mut Vec<S>, block: &Vec<Vec<S>>)
        requires
            block@.len() > 0,
            forall|j: int| 0 <= j < block@.len() ==> #[trigger] block@[j]@.len() >= block@[0]@.len(),
        ensures
            final(out)@ == old(out)@ + interleaved(channel_views(block@), block@[0]@.len()),
    {
        let ghost chs = channel_views(block@);
        let ghost c = block@.len() as int;
        let num_samples = block[0].len();
        let mut i: usize = 0;
        while i < num_samples
            invariant
                i <= num_samples == block@[0]@.len(),
                c == block@.len() > 0,
                chs == channel_views(block@),
                forall|j: int| 0 <= j < block@.len() ==> #[trigger] block@[j]@.len() >= block@[0]@.len(),
                out@ == old(out)@ + Seq::new((i * c) as nat, |k: int| chs[k % c][k / c]),
            decreases num_samples - i,
        {
            let mut j: usize = 0;
            while j < block.len()
                invariant
                    i < num_samples == block@[0]@.len(),
                    j <= block@.len(),
                    c == block@.len() > 0,
                    chs == channel_views(block@),
                    forall|j: int| 0 <= j < block@.len() ==> #[trigger] block@[j]@.len() >= block@[0]@.len(),
                    out@ == old(out)@ + Seq::new((i * c + j) as nat, |k: int| chs[k % c][k / c]),
                decreases block@.len() - j,
            {
                let ghost prev = out@;
                assert(block@[j as int]@.len() >= block@[0]@.len());
                out.push(block[j][i]);
                proof {
                    lemma_div_mod_of(i * c + j, c, i as int, j as int);
                    assert(out@ =~= old(out)@ + Seq::new((i * c + j + 1) as nat, |k: int| chs[k % c][k / c]));
                }
                j = j + 1;
            }
            assert((i + 1) * c == i * c + c) by (nonlinear_arith);
            i = i + 1;
        }
        assert(interleaved(chs, block@[0]@.len()) =~= Seq::new((i * c) as nat, |k: int| chs[k % c][k / c]));
    }

    /// Splits an interleaved buffer into its left (even positions) and
    /// right (odd positions) channels.
    pub fn split_channels<S: Copy>(&self, audio: &Vec<S>) -> (r: (Vec<S>, Vec<S>))
        ensures
            r.0@ == even_samples(audio@),
            r.1@ == odd_samples(audio@),
    {
        let mut left: Vec<S> = Vec::new();
        let mut right: Vec<S> = Vec::new();
        let mut i: usize = 0;
        while i < audio.len()
            invariant
                i <= audio@.len(),
                left@.len() == (i + 1) / 2,
                right@.len() == i / 2,
                forall|k: int| 0 <= k < left@.len() ==> #[trigger] left@[k] == audio@[2 * k],
                forall|k: int| 0 <= k < right@.len() ==> #[trigger] right@[k] == audio@[2 * k + 1],
            decreases audio@.len() - i,
        {
            if i % 2 != 0 {
                right.push(audio[i]);
            } else {
                left.push(audio[i]);
            }
            i = i + 1;
        }
        assert(left@ =~= even_samples(audio@));
        assert(right@ =~= odd_samples(audio@));
        (left, right)
    }
}

/// Splitting an interleaved stereo buffer into its channels and
/// interleaving them again gives back the buffer, sample for sample.
pub proof fn lemma_split_then_interleave<S>(s: Seq<S>)
    requires
        s.len() % 2 == 0,
    ensures
        interleaved(seq![even_samples(s), odd_samples(s)], s.len() / 2) == s,
{
    let chs = seq![even_samples(s), odd_samples(s)];
    let r = interleaved(chs, s.len() / 2);
    assert(chs.len() == 2);
    assert(chs[0] == even_samples(s) && chs[1] == odd_samples(s));
    assert((s.len() / 2) * 2 == s.len());
    assert(r.len() == s.len());
    assert forall|k: int| 0 <= k < s.len() implies #[trigger] r[k] == s[k] by {
        lemma_div_mod_of(k, 2, k / 2, k % 2);
        if k % 2 == 0 {
            assert(r[k] == even_samples(s)[k / 2]);
        } else {
            assert(r[k] == odd_samples(s)[k / 2]);
        }
    }
    assert(r =~= s);
}

/// Interleaving two channels of equal length and splitting the result
/// gives back the two channels.
pub proof fn lemma_interleave_then_split<S>(left: Seq<S>, right: Seq<S>)
    requires
        left.len() == right.len(),
    ensures
        even_samples(interleaved(seq![left, right], left.len())) == left,
        odd_samples(interleaved(seq![left, right], left.len())) == right,
{
    let chs = seq![left, right];
    let s = interleaved(chs, left.len());
    assert(chs.len() == 2);
    assert(chs[0] == left && chs[1] == right);
    assert(s.len() == left.len() * 2);
    assert(even_samples(s).len() == left.len());
    assert(odd_samples(s).len() == right.len());
    assert forall|k: int| 0 <= k < left.len() implies #[trigger] even_samples(s)[k] == left[k] by {
        lemma_div_mod_of(2 * k, 2, k, 0);
    }
    assert forall|k: int| 0 <= k < right.len() implies #[trigger] odd_samples(s)[k] == right[k] by {
        lemma_div_mod_of(2 * k + 1, 2, k, 1);
    }
    assert(even_samples(s) =~= left);
    assert(odd_samples(s) =~= right);
}

} // verus!
