//! Samples as 16-bit little-endian PCM.

use crate::transcriber::TARGET_SAMPLE_RATE;
use vstd::prelude::*;

verus! {

/// How much silence nudges the server into ending a turn.
pub const TRAILING_SILENCE_MS: u32 = 700;

/// A sample as an unsigned 16-bit number, in two's complement.
pub open spec fn unsigned(sample: i16) -> int {
    if sample >= 0 {
        sample as int
    } else {
        sample + 0x1_0000
    }
}

/// The two bytes of a sample, the low one first.
pub open spec fn sample_bytes(sample: i16) -> Seq<u8> {
    seq![(unsigned(sample) % 0x100) as u8, (unsigned(sample) / 0x100) as u8]
}

/// The sample whose bytes are `low` and `high`.
pub open spec fn sample_of(low: u8, high: u8) -> int {
    let n = low + 0x100 * high;
    if n < 0x8000 {
        n
    } else {
        n - 0x1_0000
    }
}

/// The bytes of `samples`, sample after sample.
pub open spec fn pcm_bytes(samples: Seq<i16>) -> Seq<u8>
    decreases samples.len(),
{
    if samples.len() == 0 {
        Seq::empty()
    } else {
        pcm_bytes(samples.drop_last()) + sample_bytes(samples.last())
    }
}

/// The samples can be read back from their bytes.
pub proof fn law_pcm_reads_back(samples: Seq<i16>, i: int)
    requires
        0 <= i < samples.len(),
    ensures
        pcm_bytes(samples).len() == 2 * samples.len(),
        sample_of(pcm_bytes(samples)[2 * i], pcm_bytes(samples)[2 * i + 1]) == samples[i],
    decreases samples.len(),
{
    lemma_pcm_len(samples);
    lemma_pcm_len(samples.drop_last());
    if i < samples.len() - 1 {
        law_pcm_reads_back(samples.drop_last(), i);
    }
}

proof fn lemma_pcm_len(samples: Seq<i16>)
    ensures
        pcm_bytes(samples).len() == 2 * samples.len(),
    decreases samples.len(),
{
    if samples.len() > 0 {
        lemma_pcm_len(samples.drop_last());
    }
}

/// The bytes of `samples`.
pub fn s16le_bytes(samples: &[i16]) -> (res: Vec<u8>)
    ensures
        res@ == pcm_bytes(samples@),
{
    let mut out: Vec<u8> = Vec::new();
    for i in 0..samples.len()
        invariant
            out@ == pcm_bytes(samples@.take(i as int)),
    {
        let sample: i32 = samples[i] as i32;
        let n: u32 = if sample >= 0 {
            sample as u32
        } else {
            (sample + 0x1_0000) as u32
        };
        let ghost before = out@;
        out.push((n % 0x100) as u8);
        out.push((n / 0x100) as u8);
        proof {
            assert(samples@.take(i + 1).drop_last() =~= samples@.take(i as int));
            assert(out@ =~= before + sample_bytes(samples@[i as int]));
        }
    }
    assert(samples@.take(samples@.len() as int) =~= samples@);
    out
}

/// The bytes of the silence that is sent when the recording stops.
pub open spec fn silence() -> Seq<u8> {
    Seq::new((2 * (TARGET_SAMPLE_RATE * TRAILING_SILENCE_MS / 1000)) as nat, |i: int| 0u8)
}

/// The bytes of the silence that is sent when the recording stops.
pub fn trailing_silence() -> (res: Vec<u8>)
    ensures
        res@ == silence(),
        res@.len() == 33_600,
{
    let samples: u32 = TARGET_SAMPLE_RATE * TRAILING_SILENCE_MS / 1000;
    let mut out: Vec<u8> = Vec::new();
    let mut i: u32 = 0;
    while i < samples
        invariant
            samples == 16_800,
            i <= samples,
            out@ == Seq::new(2 * i as nat, |k: int| 0u8),
        decreases samples - i,
    {
        out.push(0);
        out.push(0);
        i = i + 1;
        assert(out@ =~= Seq::new(2 * i as nat, |k: int| 0u8));
    }
    assert(out@ =~= silence());
    out
}

/// The silence is the PCM form of samples that are all zero.
pub proof fn law_silence_is_zero_samples()
    ensures
        silence() == pcm_bytes(Seq::new(16_800, |i: int| 0i16)),
{
    lemma_zero_samples(16_800);
    assert(silence() =~= pcm_bytes(Seq::new(16_800, |i: int| 0i16)));
}

proof fn lemma_zero_samples(n: nat)
    ensures
        pcm_bytes(Seq::new(n, |i: int| 0i16)) == Seq::new(2 * n, |i: int| 0u8),
    decreases n,
{
    let s = Seq::new(n, |i: int| 0i16);
    if n > 0 {
        lemma_zero_samples((n - 1) as nat);
        assert(s.drop_last() =~= Seq::new((n - 1) as nat, |i: int| 0i16));
        assert(pcm_bytes(s) =~= Seq::new(2 * n, |i: int| 0u8));
    } else {
        assert(pcm_bytes(s) =~= Seq::new(2 * n, |i: int| 0u8));
    }
}

/// Each sample stands in the bytes at its own place, the low byte first, in
/// two's complement; and the silence is bytes of zero, 700 ms of them.
pub proof fn law_sample_places(samples: Seq<i16>, i: int)
    requires
        0 <= i < samples.len(),
    ensures
        pcm_bytes(samples).len() == 2 * samples.len(),
        pcm_bytes(samples)[2 * i] + 256 * pcm_bytes(samples)[2 * i + 1] == (if samples[i] >= 0 {
            samples[i] as int
        } else {
            samples[i] + 65_536
        }),
        silence().len() * 1000 == 2 * 24_000 * 700,
        forall|k: int| 0 <= k < silence().len() ==> #[trigger] silence()[k] == 0,
    decreases samples.len(),
{
    lemma_pcm_len(samples);
    lemma_pcm_len(samples.drop_last());
    if i < samples.len() - 1 {
        law_sample_places(samples.drop_last(), i);
    }
}

} // verus!
