//! The samples of the audio stream.

use vstd::prelude::*;

verus! {

/// `data` with `samples` written from its start on, each sample once for every
/// channel.
pub open spec fn interleaved(data: Seq<u8>, samples: Seq<u8>, channels: int) -> Seq<u8> {
    Seq::new(
        data.len(),
        |k: int|
            if channels > 0 && k < samples.len() * channels {
                samples[k / channels]
            } else {
                data[k]
            },
    )
}

/// Writes `samples` from the start of `data` on, each sample once for every
/// channel.
pub fn interleave(data: &mut Vec<u8>, samples: &Vec<u8>, channels: i32)
    requires
        channels > 0 ==> samples@.len() * channels <= old(data)@.len(),
    ensures
        final(data)@ == interleaved(old(data)@, samples@, channels as int),
        final(data)@.len() == old(data)@.len(),
        forall|k: int|
            0 <= k < old(data)@.len() ==> #[trigger] final(data)@[k] == if channels > 0 && k
                < samples@.len() * channels {
                samples@[k / channels as int]
            } else {
                old(data)@[k]
            },
{
    let ghost before = data@;
    let mut index: usize = 0;
    let mut j: usize = 0;
    while j < samples.len()
        invariant
            j <= samples.len(),
            channels > 0 ==> samples@.len() * channels <= before.len(),
            data.len() == before.len(),
            channels > 0 ==> index == j * channels,
            data@ == interleaved(before, samples@.take(j as int), channels as int),
        decreases samples.len() - j,
    {
        let ghost partial = data@;
        let ghost start = index;
        assert(channels > 0 ==> j * channels + channels <= samples@.len() * channels)
            by (nonlinear_arith)
            requires
                j + 1 <= samples@.len(),
        ;
        let mut c: i32 = 0;
        while c < channels
            invariant
                j < samples.len(),
                0 <= c,
                if channels > 0 {
                    c <= channels
                } else {
                    c == 0
                },
                channels > 0 ==> start + channels <= before.len(),
                data.len() == before.len(),
                partial.len() == before.len(),
                index == start + c,
                forall|k: int|
                    0 <= k < before.len() ==> #[trigger] data@[k] == if start <= k < start + c {
                        samples@[j as int]
                    } else {
                        partial[k]
                    },
            decreases channels - c,
        {
            data.set(index, samples[j]);
            index += 1;
            c += 1;
        }
        proof {
            lemma_interleaved_next(before, samples@, channels as int, j as int);
            assert(data@ =~= interleaved(before, samples@.take(j + 1), channels as int));
            assert(channels > 0 ==> (j + 1) * channels == j * channels + channels)
                by (nonlinear_arith);
        }
        j += 1;
    }
    assert(samples@.take(j as int) =~= samples@);
}

/// What one more sample changes.
proof fn lemma_interleaved_next(data: Seq<u8>, samples: Seq<u8>, channels: int, j: int)
    requires
        0 <= j < samples.len(),
    ensures
        forall|k: int|
            0 <= k < data.len() ==> #[trigger] interleaved(data, samples.take(j + 1), channels)[k]
                == if channels > 0 && j * channels <= k < j * channels + channels {
                samples[j]
            } else {
                interleaved(data, samples.take(j), channels)[k]
            },
{
    assert forall|k: int| 0 <= k < data.len() implies #[trigger] interleaved(
        data,
        samples.take(j + 1),
        channels,
    )[k] == if channels > 0 && j * channels <= k < j * channels + channels {
        samples[j]
    } else {
        interleaved(data, samples.take(j), channels)[k]
    } by {
        if channels > 0 {
            assert((j + 1) * channels == j * channels + channels) by (nonlinear_arith);
            if j * channels <= k < j * channels + channels {
                vstd::arithmetic::div_mod::lemma_fundamental_div_mod_converse(
                    k,
                    channels,
                    j,
                    k - j * channels,
                );
            } else if k < j * channels {
                assert(0 <= k / channels < j) by (nonlinear_arith)
                    requires
                        0 <= k < j * channels,
                        channels > 0,
                ;
            }
        }
    }
}

/// Nothing is written behind the last sample, nor where there is no channel, and
/// the buffer keeps its length.
pub proof fn lemma_interleaved_rest(data: Seq<u8>, samples: Seq<u8>, channels: int, k: int)
    ensures
        interleaved(data, samples, channels).len() == data.len(),
        channels <= 0 ==> interleaved(data, samples, channels) == data,
        samples.len() * channels <= k < data.len() && 0 <= k ==> interleaved(
            data,
            samples,
            channels,
        )[k] == data[k],
{
}

/// Samples that are written over others leave nothing of them.
pub proof fn lemma_interleaved_over(
    data: Seq<u8>,
    earlier: Seq<u8>,
    later: Seq<u8>,
    channels: int,
)
    requires
        earlier.len() == later.len(),
    ensures
        interleaved(interleaved(data, earlier, channels), later, channels) == interleaved(
            data,
            later,
            channels,
        ),
{
    assert(interleaved(interleaved(data, earlier, channels), later, channels) =~= interleaved(
        data,
        later,
        channels,
    ));
}

/// All channels play the same tone: each channel of the sample with the number
/// `j` holds that sample.
pub proof fn lemma_channels_equal(data: Seq<u8>, samples: Seq<u8>, channels: int, j: int, c: int)
    requires
        0 <= j < samples.len(),
        0 <= c < channels,
        samples.len() * channels <= data.len(),
    ensures
        0 <= j * channels + c < data.len(),
        interleaved(data, samples, channels)[j * channels + c] == samples[j],
{
    let k = j * channels + c;
    assert(0 <= j * channels && j * channels + channels <= samples.len() * channels)
        by (nonlinear_arith)
        requires
            0 <= j,
            j + 1 <= samples.len(),
            channels > 0,
    ;
    vstd::arithmetic::div_mod::lemma_fundamental_div_mod_converse(k, channels, j, c);
}

/// The byte that stands for a sine that was cut to an integer: ten thousand
/// times the sine, of which the low byte is kept.
pub fn sine_byte(sine: i32) -> (byte: u8)
    requires
        -214748 <= sine <= 214748,
    ensures
        byte == (sine * 10000) % 256,
{
    let v: i32 = sine * 10000;
    let byte: u8 = v as u8;
    assert(byte == v % 256) by (bit_vector)
        requires
            byte == v as u8,
    ;
    byte
}

} // verus!
