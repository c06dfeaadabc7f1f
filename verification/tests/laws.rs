use xmodits_lib::audio_buffer::{AudioBuffer, Pcm};
use xmodits_lib::dsp::{
    deinterleave_16, deinterleave_8, delta_decode_u8, flip_sign_16, flip_sign_8, interleave_16, interleave_8, to_be_16,
};
use xmodits_lib::export::{AudioTrait, Wav};
use xmodits_lib::sample::{Depth, Sample};

#[test]
fn flipping_twice_gives_back_the_data() {
    let data = vec![0u8, 1, 127, 128, 200, 255, 3];
    assert_eq!(flip_sign_8(flip_sign_8(data.clone())), data);
    assert_eq!(flip_sign_16(flip_sign_16(data.clone())), data);
}

#[test]
fn swapping_twice_gives_back_the_data() {
    let data = vec![1u8, 2, 3, 4, 5];
    assert_eq!(to_be_16(to_be_16(data.clone())), data);
}

#[test]
fn interleaving_round_trips() {
    let data = vec![1u8, 2, 3, 4, 5, 6];
    assert_eq!(deinterleave_8(&interleave_8(&data)), data);
    assert_eq!(interleave_8(&deinterleave_8(&data)), data);
    let words = vec![1u8, 2, 3, 4, 5, 6, 7, 8];
    assert_eq!(deinterleave_16(&interleave_16(&words)), words);
    assert_eq!(interleave_16(&deinterleave_16(&words)), words);
}

#[test]
fn pcm_values_give_back_their_bytes() {
    let data = vec![9u8, 8, 7, 6];
    for d in [Depth::I8, Depth::U8, Depth::I16, Depth::U16] {
        assert_eq!(Pcm::new(d, &data).raw(), data);
    }
    assert_eq!(Pcm::new(Depth::U16, &[1, 2, 3]).raw(), vec![1, 2]);
}

#[test]
fn delta_decoding_undoes_differences() {
    let data = vec![10u8, 250, 3, 3, 0];
    let mut diffs = vec![data[0]];
    for i in 1..data.len() {
        diffs.push(data[i].wrapping_sub(data[i - 1]));
    }
    assert_eq!(delta_decode_u8(diffs), data);
}

#[test]
fn wav_data_is_lossless() {
    let smp = Sample { depth: Depth::I8, length: 3, rate: 8000, ..Default::default() };
    let data = vec![0u8, 127, 200];
    let mut out = Vec::new();
    Wav.write(&smp, &AudioBuffer::new(&smp, &data), &mut out);
    assert_eq!(flip_sign_8(out[44..].to_vec()), data);
}

#[test]
fn samples_equal_by_their_data() {
    let a = Sample { pointer: 5, name: "a".to_string(), ..Default::default() };
    let b = Sample { pointer: 5, name: "b".to_string(), ..Default::default() };
    let c = Sample { pointer: 6, name: "a".to_string(), ..Default::default() };
    assert!(a == b);
    assert!(a != c);
}

#[test]
fn delta_decoding_16_bit_undoes_differences() {
    use_words();
}

fn use_words() {
    let words: Vec<u16> = vec![0x0102, 0xfff0, 0x0010];
    let mut diffs: Vec<u8> = Vec::new();
    for i in 0..words.len() {
        let d = if i == 0 { words[0] } else { words[i].wrapping_sub(words[i - 1]) };
        diffs.extend_from_slice(&d.to_le_bytes());
    }
    let mut expected: Vec<u8> = Vec::new();
    for w in &words {
        expected.extend_from_slice(&w.to_le_bytes());
    }
    assert_eq!(xmodits_lib::dsp::delta_decode_u16(diffs), expected);
}
