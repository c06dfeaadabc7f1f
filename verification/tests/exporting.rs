use xmodits_lib::audio_buffer::{AudioBuffer, Pcm};
use xmodits_lib::error::{Error, ExtractionError, FailedExtraction};
use xmodits_lib::export::{resample_target, to_ascii_array, Aiff, AudioFormat, AudioTrait, Iff, Its, Raw, S3i, Wav};
use xmodits_lib::info::{check_rippable, encode_pcm, encode_sample, extraction_outcome};
use xmodits_lib::module::{GenericTracker, Info};
use xmodits_lib::sample::{Channel, Depth, Loop, LoopType, PcmType, Sample};

fn sample(depth: Depth, channel: Channel, length: u32, rate: u32) -> Sample {
    Sample { name: "kick".to_string(), length, rate, depth, channel, ..Default::default() }
}

fn encode(f: &dyn AudioTrait, smp: &Sample, data: &[u8]) -> Vec<u8> {
    let buf = AudioBuffer::new(smp, data);
    let mut out = Vec::new();
    f.write(smp, &buf, &mut out);
    out
}

#[test]
fn wav_mono_u8() {
    let smp = sample(Depth::U8, Channel::Mono, 3, 8000);
    let out = encode(&Wav, &smp, &[1, 2, 3]);
    let mut expected: Vec<u8> = Vec::new();
    expected.extend_from_slice(b"RIFF");
    expected.extend_from_slice(&39u32.to_le_bytes());
    expected.extend_from_slice(b"WAVEfmt ");
    expected.extend_from_slice(&16u32.to_le_bytes());
    expected.extend_from_slice(&1u16.to_le_bytes());
    expected.extend_from_slice(&1u16.to_le_bytes());
    expected.extend_from_slice(&8000u32.to_le_bytes());
    expected.extend_from_slice(&8000u32.to_le_bytes());
    expected.extend_from_slice(&1u16.to_le_bytes());
    expected.extend_from_slice(&8u16.to_le_bytes());
    expected.extend_from_slice(b"data");
    expected.extend_from_slice(&3u32.to_le_bytes());
    expected.extend_from_slice(&[1, 2, 3]);
    assert_eq!(out, expected);
}

#[test]
fn wav_signed_8_bit_is_flipped_and_loop_written() {
    let mut smp = sample(Depth::I8, Channel::Mono, 2, 8000);
    smp.looping = Loop { start: 0, stop: 2, kind: LoopType::PingPong };
    let out = encode(&Wav, &smp, &[0x00, 0x80]);
    assert_eq!(out.len(), 44 + 2 + 68);
    assert_eq!(&out[44..46], &[0x80, 0x00]);
    assert_eq!(&out[46..50], b"smpl");
    // sampling period of 8000 Hz: 125000 ns
    assert_eq!(&out[62..66], &125000u32.to_le_bytes());
    // one loop, ping-pong, from 0 to 2
    assert_eq!(&out[82..86], &1u32.to_le_bytes());
    assert_eq!(&out[94..98], &1u32.to_le_bytes());
    assert_eq!(&out[98..102], &0u32.to_le_bytes());
    assert_eq!(&out[102..106], &2u32.to_le_bytes());
}

#[test]
fn wav_period_rounds_to_nearest() {
    let mut smp = sample(Depth::U8, Channel::Mono, 1, 44100);
    smp.looping.kind = LoopType::Forward;
    let out = encode(&Wav, &smp, &[0]);
    let period = u32::from_le_bytes([out[61], out[62], out[63], out[64]]);
    assert_eq!(period, (1_000_000_000.0f64 / 44100.0).round() as u32);
}

#[test]
fn wav_stereo_16_bit_interleaved() {
    let smp = sample(Depth::I16, Channel::Stereo { interleaved: false }, 8, 8000);
    let out = encode(&Wav, &smp, &[1, 2, 3, 4, 5, 6, 7, 8]);
    assert_eq!(&out[22..24], &2u16.to_le_bytes());
    assert_eq!(&out[32..34], &4u16.to_le_bytes());
    assert_eq!(&out[44..52], &[1, 2, 5, 6, 3, 4, 7, 8]);
}

#[test]
fn raw_is_the_data() {
    let smp = sample(Depth::U16, Channel::Mono, 4, 8000);
    assert_eq!(encode(&Raw, &smp, &[1, 2, 3, 4, 5]), vec![1, 2, 3, 4]);
}

#[test]
fn aiff_rate_and_big_endian_data() {
    let smp = sample(Depth::I16, Channel::Mono, 4, 8363);
    let out = encode(&Aiff, &smp, &[1, 2, 3, 4]);
    assert_eq!(out.len(), 54 + 4);
    assert_eq!(&out[0..4], b"FORM");
    assert_eq!(&out[4..8], &50u32.to_be_bytes());
    assert_eq!(&out[22..26], &2u32.to_be_bytes());
    assert_eq!(&out[26..28], &16u16.to_be_bytes());
    assert_eq!(&out[28..38], &[0x40, 0x0C, 0x82, 0xAC, 0, 0, 0, 0, 0, 0]);
    assert_eq!(&out[54..58], &[2, 1, 4, 3]);
}

#[test]
fn iff_converts_to_signed_8_bit() {
    let smp = sample(Depth::U8, Channel::Mono, 3, 22050);
    let out = encode(&Iff, &smp, &[0, 255, 128]);
    assert_eq!(&out[0..4], b"FORM");
    assert_eq!(&out[4..8], &44u32.to_be_bytes());
    assert_eq!(&out[32..34], &22050u16.to_be_bytes());
    assert_eq!(&out[48..56], b"XMODITS ");
    assert_eq!(&out[60..64], &4u32.to_be_bytes());
    assert_eq!(&out[64..], &[0x80, 0x7f, 0x00]);
    let smp16 = sample(Depth::I16, Channel::Mono, 4, 8000);
    let out = encode(&Iff, &smp16, &[0x34, 0x12, 0x00, 0x80]);
    assert_eq!(&out[64..], &[0x12, 0x80]);
    let smpu16 = sample(Depth::U16, Channel::Mono, 2, 8000);
    let out = encode(&Iff, &smpu16, &[0x00, 0x80]);
    assert_eq!(&out[64..], &[0x00]);
}

#[test]
fn its_header() {
    let mut smp = sample(Depth::I16, Channel::Mono, 4, 44100);
    smp.filename = Some("kick.wav".to_string());
    smp.looping = Loop { start: 1, stop: 2, kind: LoopType::Forward };
    let out = encode(&Its, &smp, &[9, 9, 9, 9]);
    assert_eq!(out.len(), 0x50 + 4);
    assert_eq!(&out[0..4], b"IMPS");
    assert_eq!(&out[4..16], b"kick.wav\0\0\0\0");
    assert_eq!(out[18], 1 | 2 | 16);
    assert_eq!(&out[20..24], b"kick");
    assert_eq!(out[46], 1);
    assert_eq!(&out[48..52], &2u32.to_le_bytes());
    assert_eq!(&out[60..64], &44100u32.to_le_bytes());
    assert_eq!(&out[72..76], &0x50u32.to_le_bytes());
    assert_eq!(&out[0x50..], &[9, 9, 9, 9]);
}

#[test]
fn s3i_header() {
    let smp = sample(Depth::U8, Channel::Stereo { interleaved: false }, 4, 8363);
    let out = encode(&S3i, &smp, &[1, 2, 3, 4]);
    assert_eq!(out.len(), 0x50 + 4);
    assert_eq!(out[0], 1);
    assert_eq!(&out[16..20], &2u32.to_le_bytes());
    assert_eq!(out[31], 2);
    assert_eq!(&out[32..36], &8363u32.to_le_bytes());
    assert_eq!(&out[48..52], b"kick");
    assert_eq!(&out[76..80], b"SCRI");
}

#[test]
fn ascii_fields() {
    assert_eq!(to_ascii_array("ab", 4), vec![b'a', b'b', 0, 0]);
    assert_eq!(to_ascii_array("abcdef", 3), vec![b'a', b'b', b'c']);
    assert_eq!(to_ascii_array("é", 2), vec![b' ', 0]);
}

#[test]
fn formats_and_extensions() {
    assert_eq!(AudioFormat::default(), AudioFormat::WAV);
    assert_eq!(AudioFormat::IFF.extension(), "8svx");
    assert_eq!(AudioFormat::AIFF.to_string(), "aiff");
    assert_eq!(AudioFormat::S3I.get_impl().extension(), "s3i");
    assert_eq!(AudioFormat::formats().len(), 5);
    let smp = sample(Depth::U8, Channel::Mono, 2, 8000);
    let buf = AudioBuffer::new(&smp, &[7, 8]);
    let mut a = Vec::new();
    AudioFormat::RAW.write(&smp, &buf, &mut a);
    assert_eq!(a, vec![7, 8]);
}

#[test]
fn pcm_values() {
    let p = Pcm::new(Depth::I16, &[0x00, 0x80, 0xff, 0x7f, 0x01]);
    assert_eq!(p.len_samples(), 2);
    assert_eq!(p.bytes(), 2);
    assert_eq!(p.depth(), Depth::I16);
    assert_eq!(p.raw(), vec![0x00, 0x80, 0xff, 0x7f]);
    assert_eq!(p.get_sample(0), Some(-128));
    assert_eq!(p.get_sample(1), Some(127));
    assert_eq!(p.get_sample(2), None);
    let u = Pcm::new(Depth::U8, &[0, 200]);
    assert_eq!(u.get_sample(1), Some(72));
}

fn tracker(inner: Vec<u8>, samples: Vec<Sample>) -> GenericTracker {
    GenericTracker { info: Info::default(), inner, samples }
}

#[test]
fn encode_sample_through_module() {
    let smp = Sample { pointer: 1, length: 2, rate: 8000, ..Default::default() };
    let m = tracker(vec![0, 5, 6, 0], vec![smp.clone()]);
    assert_eq!(encode_sample(&m, &smp, AudioFormat::RAW).unwrap(), vec![5, 6]);
    let bad = Sample { pointer: 3, length: 2, ..Default::default() };
    assert!(matches!(encode_sample(&m, &bad, AudioFormat::WAV), Err(Error::BadSample { .. })));
}

#[test]
fn extraction_outcomes() {
    assert!(extraction_outcome(vec![], 3).is_ok());
    let one = vec![ExtractionError::new(1, Error::EmptyModule)];
    assert!(matches!(extraction_outcome(one, 3), Err(Error::FailedRip(FailedExtraction::Partial(e))) if e.len() == 1));
    let one = vec![ExtractionError::new(1, Error::EmptyModule)];
    assert!(matches!(extraction_outcome(one, 1), Err(Error::FailedRip(FailedExtraction::Total(e))) if e.len() == 1));
}

#[test]
fn pcm_type_is_kept() {
    let smp = Sample { pcm_type: PcmType::DELTA, ..Default::default() };
    assert_eq!(smp.pcm_type, PcmType::DELTA);
}

#[test]
fn iff_caps_the_rate() {
    let smp = sample(Depth::I8, Channel::Mono, 2, 44100);
    let out = encode(&Iff, &smp, &[1, 2]);
    assert_eq!(&out[32..34], &22050u16.to_be_bytes());
    assert_eq!(&out[64..], &[1, 2]);
    let slow = sample(Depth::I8, Channel::Mono, 2, 8363);
    let out = encode(&Iff, &slow, &[1, 2]);
    assert_eq!(&out[32..34], &8363u16.to_be_bytes());
    assert_eq!(resample_target(AudioFormat::IFF, 44100), Some(22050));
    assert_eq!(resample_target(AudioFormat::IFF, 22050), None);
    assert_eq!(resample_target(AudioFormat::WAV, 44100), None);
    assert_eq!(encode_pcm(&smp, &[1, 2], AudioFormat::IFF), out_with_rate(&smp));
}

fn out_with_rate(smp: &Sample) -> Vec<u8> {
    encode(&Iff, smp, &[1, 2])
}

#[test]
fn aiff_rate_as_extended_float() {
    let smp = sample(Depth::I8, Channel::Mono, 2, 44100);
    let out = encode(&Aiff, &smp, &[5, 6]);
    assert_eq!(out.len(), 54 + 2);
    assert_eq!(&out[28..38], &[0x40, 0x0E, 0xAC, 0x44, 0, 0, 0, 0, 0, 0]);
    assert_eq!(&out[54..], &[5, 6]);
    let zero = sample(Depth::I8, Channel::Mono, 2, 0);
    let out = encode(&Aiff, &zero, &[5, 6]);
    assert_eq!(&out[28..38], &[0u8; 10]);
    let one = sample(Depth::I8, Channel::Mono, 2, 1);
    let out = encode(&Aiff, &one, &[5, 6]);
    assert_eq!(&out[28..38], &[0x3F, 0xFF, 0x80, 0, 0, 0, 0, 0, 0, 0]);
}

#[test]
fn empty_modules_are_not_ripped() {
    let empty = GenericTracker { info: Info::default(), inner: vec![], samples: vec![] };
    assert!(matches!(check_rippable(&empty), Err(Error::EmptyModule)));
    let one = GenericTracker { info: Info::default(), inner: vec![], samples: vec![Sample::default()] };
    assert!(check_rippable(&one).is_ok());
}
