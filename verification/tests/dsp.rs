use xmodits_lib::dsp::{
    adpcm_decode, deinterleave_16, deinterleave_8, delta_decode, delta_decode_u16, delta_decode_u8, flip_sign_16,
    flip_sign_8, interleave_16, interleave_8, maybe_delta_decode, reduce_bit_depth_16_to_8, to_be_16, to_le_16,
    PCMFormatter, RawSample,
};
use xmodits_lib::error::Error;
use xmodits_lib::fmt_xm;
use xmodits_lib::it_compression::{decompress_16_bit, decompress_8_bit};
use xmodits_lib::module::{get_buf, get_buf_owned, GenericTracker, Info};
use xmodits_lib::sample::{Channel, Depth, PcmType, Sample};

fn tracker(inner: Vec<u8>) -> GenericTracker {
    GenericTracker { info: Info::default(), inner, samples: vec![] }
}

#[test]
fn delta_decoding() {
    assert_eq!(delta_decode_u8(vec![1, 1, 1, 255]), vec![1, 2, 3, 2]);
    assert_eq!(delta_decode_u16(vec![1, 0, 1, 0, 9]), vec![1, 0, 2, 0]);
    let stereo = Sample { depth: Depth::I8, channel: Channel::Stereo { interleaved: false }, ..Default::default() };
    assert_eq!(delta_decode(&stereo, vec![1, 1, 2, 2]), vec![1, 2, 2, 4]);
    let plain = Sample { pcm_type: PcmType::PCM, ..Default::default() };
    assert_eq!(maybe_delta_decode(&plain, vec![1, 1]), vec![1, 1]);
    let delta = Sample { pcm_type: PcmType::DELTA, ..Default::default() };
    assert_eq!(maybe_delta_decode(&delta, vec![1, 1]), vec![1, 2]);
    let f = fmt_xm::delta_decode(&delta);
    assert_eq!(f(vec![2, 2]), vec![2, 4]);
}

#[test]
fn module_pcm_kinds() {
    let m = tracker(vec![1, 1, 1, 9]);
    let pcm = Sample { length: 3, ..Default::default() };
    assert_eq!(m.pcm(&pcm).unwrap(), vec![1, 1, 1]);
    let delta = Sample { length: 3, pcm_type: PcmType::DELTA, ..Default::default() };
    assert_eq!(m.pcm(&delta).unwrap(), vec![1, 2, 3]);
    let bad = Sample { pointer: 2, length: 3, ..Default::default() };
    assert!(matches!(m.pcm(&bad), Err(Error::BadSample { raw_index: 0, pointer: 2, length: 3 })));
}

#[test]
fn module_pcm_adpcm() {
    // a 16-byte table of deltas, then one byte for every two values
    let mut inner: Vec<u8> = (0..16).collect();
    inner.push(0x21);
    inner.extend(vec![0u8; 17]);
    let m = tracker(inner);
    let adpcm = Sample { length: 34, pcm_type: PcmType::ADPCM, ..Default::default() };
    let out = m.pcm(&adpcm).unwrap();
    assert_eq!(out.len(), 34);
    assert_eq!(&out[0..4], &[1, 3, 3, 3]);
    assert_eq!(adpcm_decode(&adpcm, &m.inner).unwrap(), out);
    let short = tracker(vec![0; 10]);
    let s = Sample { length: 10, pcm_type: PcmType::ADPCM, ..Default::default() };
    assert!(matches!(short.pcm(&s), Err(Error::Io(_))));
}

#[test]
fn it_decompression() {
    // one block of three bytes: the 9-bit values 5 and 3
    let block = vec![0x03, 0x00, 0x05, 0x06, 0x00];
    assert_eq!(decompress_8_bit(&block, 2, false).unwrap(), vec![5, 8]);
    assert_eq!(decompress_8_bit(&block, 2, true).unwrap(), vec![5, 13]);
    assert!(decompress_8_bit(&[0x03], 1, false).is_err());
    assert_eq!(decompress_8_bit(&[], 0, false).unwrap(), Vec::<u8>::new());
    let m = tracker(block.clone());
    let smp = Sample { length: 2, pcm_type: PcmType::IT214, depth: Depth::I8, ..Default::default() };
    assert_eq!(m.pcm(&smp).unwrap(), vec![5, 8]);
    let smp215 = Sample { length: 2, pcm_type: PcmType::IT215, depth: Depth::I8, ..Default::default() };
    assert_eq!(m.pcm(&smp215).unwrap(), vec![5, 13]);
    // 16-bit: one 17-bit value 5
    let block16 = vec![0x03, 0x00, 0x05, 0x00, 0x00];
    assert_eq!(decompress_16_bit(&block16, 1, false).unwrap(), vec![5, 0]);
}

#[test]
fn it_decompression_stereo() {
    // left channel: block with value 5; right channel: block with value 3
    let data = vec![0x02, 0x00, 0x05, 0x00, 0x02, 0x00, 0x03, 0x00];
    let m = tracker(data);
    let smp = Sample {
        length: 2,
        pcm_type: PcmType::IT214,
        depth: Depth::I8,
        channel: Channel::Stereo { interleaved: false },
        ..Default::default()
    };
    assert_eq!(m.pcm(&smp).unwrap(), vec![5, 3]);
}

#[test]
fn sign_and_order() {
    assert_eq!(flip_sign_8(vec![0, 128, 255]), vec![128, 0, 127]);
    assert_eq!(flip_sign_16(vec![0x00, 0x00, 0xff, 0xff]), vec![0x00, 0x80, 0xff, 0x7f]);
    assert_eq!(to_be_16(vec![1, 2, 3, 4]), vec![2, 1, 4, 3]);
    assert_eq!(to_le_16(vec![1, 2, 3]), vec![1, 2, 3]);
    assert_eq!(interleave_8(&[1, 2, 3, 4]), vec![1, 3, 2, 4]);
    assert_eq!(deinterleave_8(&[1, 3, 2, 4]), vec![1, 2, 3, 4]);
    assert_eq!(interleave_16(&[1, 2, 3, 4, 5, 6, 7, 8]), vec![1, 2, 5, 6, 3, 4, 7, 8]);
    assert_eq!(deinterleave_16(&[1, 2, 5, 6, 3, 4, 7, 8]), vec![1, 2, 3, 4, 5, 6, 7, 8]);
    assert_eq!(reduce_bit_depth_16_to_8(&[0x34, 0x12, 0x78, 0x56]), vec![0x12, 0x56]);
    assert_eq!(vec![1u8, 2].to_be_16().flip_sign_8(), vec![130, 129]);
}

#[test]
fn raw_samples() {
    let smp = Sample { depth: Depth::I16, ..Default::default() };
    let r = RawSample::new(&smp, vec![1, 2, 3]);
    assert_eq!(r.pcm, vec![1, 2]);
    let smp8 = Sample { depth: Depth::U8, ..Default::default() };
    let r = RawSample::new(&smp8, vec![1, 2, 3]);
    assert_eq!(r.pcm, vec![1, 2, 3]);
}

#[test]
fn it_truncated_is_bad_sample() {
    assert!(matches!(
        decompress_8_bit(&[0x03], 1, false),
        Err(Error::BadSample { raw_index: 0, pointer: 0, length: 1 })
    ));
    assert!(matches!(
        decompress_16_bit(&[0x03, 0x00], 4, true),
        Err(Error::BadSample { raw_index: 0, pointer: 0, length: 4 })
    ));
    // the block announces three bytes, but the data ends after one
    let m = tracker(vec![0, 0x03, 0x00, 0x05]);
    let smp = Sample { index_raw: 7, pointer: 1, length: 40, pcm_type: PcmType::IT214, depth: Depth::I8, ..Default::default() };
    assert!(matches!(m.pcm(&smp), Err(Error::BadSample { raw_index: 7, pointer: 1, length: 40 })));
}

#[test]
fn buffer_ranges() {
    let buf = [1u8, 2, 3, 4];
    assert_eq!(get_buf(&buf, 1..3).unwrap(), &[2, 3]);
    assert_eq!(get_buf(&buf, 4..4).unwrap(), &[] as &[u8]);
    assert!(matches!(get_buf(&buf, 2..5), Err(Error::BadSample { raw_index: 0, pointer: 0, length: 0 })));
    assert!(matches!(get_buf(&buf, 3..2), Err(Error::BadSample { .. })));
    assert_eq!(get_buf_owned(&buf, 0..4).unwrap(), vec![1, 2, 3, 4]);
    assert!(get_buf_owned(&buf, 0..5).is_err());
}
