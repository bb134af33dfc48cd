use voxtype_realtime::pcm::{s16le_bytes, trailing_silence};
use voxtype_realtime::resample::{Resampler, Tap};

/// The value of each output.
fn values(taps: Vec<Tap<f32>>, to_rate: u32) -> Vec<f32> {
    taps.iter()
        .map(|t| {
            let frac = (t.num as f64 / to_rate as f64) as f32;
            t.a * (1.0 - frac) + t.b * frac
        })
        .collect()
}

fn process(r: &mut Resampler<f32>, input: &[f32]) -> Vec<f32> {
    let to_rate = r.to_rate;
    values(r.process(input), to_rate)
}

fn f32_to_s16le_bytes(samples: &[f32]) -> Vec<u8> {
    let samples: Vec<i16> = samples
        .iter()
        .map(|s| (s.clamp(-1.0, 1.0) * i16::MAX as f32).round() as i16)
        .collect();
    s16le_bytes(&samples)
}

#[test]
fn f32_to_s16le_round_trip_endpoints() {
    let samples = vec![-1.0_f32, 0.0, 1.0];
    let bytes = f32_to_s16le_bytes(&samples);
    assert_eq!(bytes.len(), 6);
    let s0 = i16::from_le_bytes([bytes[0], bytes[1]]);
    let s1 = i16::from_le_bytes([bytes[2], bytes[3]]);
    let s2 = i16::from_le_bytes([bytes[4], bytes[5]]);
    assert!(s0 <= -32700);
    assert_eq!(s1, 0);
    assert!(s2 >= 32700);
}

#[test]
fn f32_to_s16le_clamps_out_of_range() {
    let bytes = f32_to_s16le_bytes(&[-2.0_f32, 2.0]);
    let s0 = i16::from_le_bytes([bytes[0], bytes[1]]);
    let s1 = i16::from_le_bytes([bytes[2], bytes[3]]);
    assert!(s0 <= -32700);
    assert!(s1 >= 32700);
}

#[test]
fn resampler_16k_to_24k_upsamples_at_3_to_2() {
    // The first call withholds what lies past its last sample, so a fresh
    // resampler emits 2399 for 1600 in; every chunk after it emits 2400.
    let mut r = Resampler::new(16000, 24000);
    assert_eq!(process(&mut r, &vec![0.0_f32; 1600]).len(), 2399);
    assert_eq!(process(&mut r, &vec![0.0_f32; 1600]).len(), 2400);
    assert_eq!(process(&mut r, &vec![0.0_f32; 1600]).len(), 2400);
}

#[test]
fn resampler_same_rate_is_identity() {
    let mut r = Resampler::new(24000, 24000);
    assert_eq!(process(&mut r, &[1.0, 2.0, 3.0]), vec![1.0, 2.0, 3.0]);
    // Continuation across calls stays the identity.
    assert_eq!(process(&mut r, &[4.0, 5.0]), vec![4.0, 5.0]);
}

#[test]
fn resampler_empty_is_empty_and_preserves_state() {
    let mut r = Resampler::new(16000, 24000);
    let first = process(&mut r, &[0.5, 0.5]);
    assert!(process(&mut r, &[]).is_empty());
    // State untouched by the empty call: continuing produces the same stream
    // as if the empty call never happened.
    let mut r2 = Resampler::new(16000, 24000);
    assert_eq!(process(&mut r2, &[0.5, 0.5]), first);
    assert_eq!(process(&mut r, &[0.5]), process(&mut r2, &[0.5]));
}

#[test]
fn resampler_is_chunking_invariant() {
    let signal: Vec<f32> = (0..4800).map(|i| (i as f32 * 0.01).sin()).collect();

    let mut whole = Resampler::new(16000, 24000);
    let expected = process(&mut whole, &signal);

    let mut chunked = Resampler::new(16000, 24000);
    let mut got = Vec::new();
    for chunk in signal.chunks(160) {
        got.extend(process(&mut chunked, chunk));
    }
    assert_eq!(expected.len(), got.len());
    for (i, (a, b)) in expected.iter().zip(got.iter()).enumerate() {
        assert!(
            (a - b).abs() < 1e-6,
            "diverged at output sample {}: {} vs {}",
            i,
            a,
            b
        );
    }
}

#[test]
fn encode_chunk_produces_24khz_pcm16_byte_count() {
    // Two bytes per sample; the counts follow the resampler's.
    let mut r = Resampler::new(16000, 24000);
    assert_eq!(
        f32_to_s16le_bytes(&process(&mut r, &vec![0.0_f32; 1600])).len(),
        4798
    );
    assert_eq!(
        f32_to_s16le_bytes(&process(&mut r, &vec![0.0_f32; 1600])).len(),
        4800
    );
}

#[test]
fn outputs_lie_between_their_samples() {
    let mut r: Resampler<u8> = Resampler::new(2, 3);
    let taps: Vec<(u8, u8, u32)> = r
        .process(&[10, 20, 30])
        .iter()
        .map(|t| (t.a, t.b, t.num))
        .collect();
    // Places 0, 2/3, 4/3 and 2.
    assert_eq!(
        taps,
        vec![(10, 20, 0), (10, 20, 2), (20, 30, 1), (30, 30, 0)]
    );
    assert_eq!(r.carry, Some(30));
    assert_eq!(r.phase, 2);
    let taps: Vec<(u8, u8, u32)> = r.process(&[40]).iter().map(|t| (t.a, t.b, t.num)).collect();
    assert_eq!(taps, vec![(30, 40, 2)]);
}

#[test]
fn downsampling_passes_over_chunks_without_outputs() {
    let mut r: Resampler<u8> = Resampler::new(5, 1);
    assert_eq!(r.process(&[0]).len(), 1);
    let mut count = 0;
    for i in 1..=10u8 {
        for t in r.process(&[i]) {
            assert_eq!((t.a, t.num), (i, 0));
            assert_eq!(i % 5, 0);
            count += 1;
        }
    }
    assert_eq!(count, 2);
}

#[test]
fn samples_become_little_endian_bytes() {
    let samples = [0i16, 1, -1, 256, i16::MIN, i16::MAX, -258];
    let expected: Vec<u8> = samples.iter().flat_map(|s| s.to_le_bytes()).collect();
    assert_eq!(s16le_bytes(&samples), expected);
    assert_eq!(s16le_bytes(&[]), Vec::<u8>::new());
}

#[test]
fn trailing_silence_lasts_700_ms() {
    let silence = trailing_silence();
    assert_eq!(silence.len(), 33_600);
    assert!(silence.iter().all(|b| *b == 0));
}

#[test]
fn at_most_one_output_is_held_back() {
    for n in 1..20 {
        let mut r: Resampler<u8> = Resampler::new(16000, 24000);
        r.process(&vec![0; n]);
        let expected = if n % 2 == 1 { 16000 } else { 8000 };
        assert_eq!(r.phase, expected);
    }
}

#[test]
fn at_no_samples_per_second_the_first_stands_alone() {
    let mut r: Resampler<u8> = Resampler::new(16000, 0);
    let taps: Vec<(u8, u32)> = r.process(&[7, 8]).iter().map(|t| (t.a, t.num)).collect();
    assert_eq!(taps, vec![(7, 0)]);
    assert!(r.process(&[9]).is_empty());
    assert!(r.process(&[10, 11]).is_empty());
}
