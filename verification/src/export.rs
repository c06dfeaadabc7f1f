//! Audio formats that samples are stored in: each turns a sample's decoded
//! data into the bytes of a file of its format.

use vstd::prelude::*;
use vstd::arithmetic::power2::pow2;
use crate::audio_buffer::{AudioBuffer, pcm_len, pcm_raw, sample_i8};
use crate::dsp::{
    byte_swapped_16, flip_sign_16, flip_sign_8, interleave_16, interleave_8, interleaved_16, interleaved_8,
    law_byte_swap_involutive, law_flip_sign_16_involutive, law_flip_sign_8_involutive, sign_flipped_u16,
    sign_flipped_u8, to_be_16, to_le_16,
};
use crate::sample::{
    Channel, Depth, LoopType, Sample, channel_count, depth_bits, depth_bytes, depth_is_8_bit, depth_is_signed,
    frames_of,
};
use crate::text::str_chars;

verus! {

pub open spec fn le16(v: u16) -> Seq<u8> {
    seq![(v % 256) as u8, (v / 256) as u8]
}

pub open spec fn le32(v: u32) -> Seq<u8> {
    seq![(v % 256) as u8, ((v / 256) % 256) as u8, ((v / 65536) % 256) as u8, (v / 16777216) as u8]
}

pub open spec fn be16(v: u16) -> Seq<u8> {
    seq![(v / 256) as u8, (v % 256) as u8]
}

pub open spec fn be32(v: u32) -> Seq<u8> {
    seq![(v / 16777216) as u8, ((v / 65536) % 256) as u8, ((v / 256) % 256) as u8, (v % 256) as u8]
}

pub open spec fn tag(a: u8, b: u8, c: u8, d: u8) -> Seq<u8> {
    seq![a, b, c, d]
}

fn push_le16(out: &mut Vec<u8>, v: u16)
    ensures
        final(out)@ == old(out)@ + le16(v),
{
    out.push((v % 256) as u8);
    out.push((v / 256) as u8);
    assert(out@ =~= old(out)@ + le16(v));
}

fn push_le32(out: &mut Vec<u8>, v: u32)
    ensures
        final(out)@ == old(out)@ + le32(v),
{
    out.push((v % 256) as u8);
    out.push(((v / 256) % 256) as u8);
    out.push(((v / 65536) % 256) as u8);
    out.push((v / 16777216) as u8);
    assert(out@ =~= old(out)@ + le32(v));
}

fn push_be16(out: &mut Vec<u8>, v: u16)
    ensures
        final(out)@ == old(out)@ + be16(v),
{
    out.push((v / 256) as u8);
    out.push((v % 256) as u8);
    assert(out@ =~= old(out)@ + be16(v));
}

fn push_be32(out: &mut Vec<u8>, v: u32)
    ensures
        final(out)@ == old(out)@ + be32(v),
{
    out.push((v / 16777216) as u8);
    out.push(((v / 65536) % 256) as u8);
    out.push(((v / 256) % 256) as u8);
    out.push((v % 256) as u8);
    assert(out@ =~= old(out)@ + be32(v));
}

fn push_tag(out: &mut Vec<u8>, a: u8, b: u8, c: u8, d: u8)
    ensures
        final(out)@ == old(out)@ + tag(a, b, c, d),
{
    out.push(a);
    out.push(b);
    out.push(c);
    out.push(d);
    assert(out@ =~= old(out)@ + tag(a, b, c, d));
}

fn push_byte(out: &mut Vec<u8>, b: u8)
    ensures
        final(out)@ == old(out)@ + seq![b],
{
    out.push(b);
    assert(out@ =~= old(out)@ + seq![b]);
}

fn push_bytes(out: &mut Vec<u8>, bytes: &[u8])
    ensures
        final(out)@ == old(out)@ + bytes@,
{
    let ghost start = out@;
    let mut i: usize = 0;
    while i < bytes.len()
        invariant
            i <= bytes@.len(),
            out@ == start + bytes@.take(i as int),
        decreases bytes@.len() - i,
    {
        out.push(bytes[i]);
        i += 1;
        assert(out@ =~= start + bytes@.take(i as int));
    }
    assert(bytes@.take(bytes@.len() as int) =~= bytes@);
}

/// A text as a fixed-size field of `n` bytes: each character up to `n`, an
/// ASCII character as its code and any other as a space, then zeros.
pub open spec fn ascii_field(c: Seq<char>, n: nat) -> Seq<u8> {
    Seq::new(n, |i: int| if i < c.len() { if (c[i] as u32) < 128 { c[i] as u8 } else { 0x20u8 } } else { 0u8 })
}

/// Store a text in a fixed-size field of `n` bytes.
pub fn to_ascii_array(s: &str, n: usize) -> (r: Vec<u8>)
    ensures
        r@ == ascii_field(s@, n as nat),
{
    let c = str_chars(s);
    let mut out: Vec<u8> = Vec::new();
    let mut i: usize = 0;
    while i < n
        invariant
            i <= n,
            c@ == s@,
            out@ == ascii_field(s@, n as nat).take(i as int),
        decreases n - i,
    {
        let b: u8 = if i < c.len() {
            let ch = c[i];
            if (ch as u32) < 128 { ch as u8 } else { 0x20 }
        } else {
            0
        };
        out.push(b);
        i += 1;
        assert(out@ =~= ascii_field(s@, n as nat).take(i as int));
    }
    assert(out@ =~= ascii_field(s@, n as nat));
    out
}

/// The filename that sample formats store: the sample's own, or none.
pub open spec fn stored_filename(smp: Sample) -> Seq<char> {
    match smp.filename {
        Some(f) => f@,
        None => Seq::empty(),
    }
}

fn filename_field(smp: &Sample, n: usize) -> (r: Vec<u8>)
    ensures
        r@ == ascii_field(stored_filename(*smp), n as nat),
{
    match &smp.filename {
        Some(f) => to_ascii_array(f.as_str(), n),
        None => {
            proof {
                reveal_strlit("");
            }
            to_ascii_array("", n)
        },
    }
}

/// A way to store a sample's decoded data as a file.
pub trait AudioTrait {
    /// The file extension of the format.
    spec fn extension_name(&self) -> Seq<char>;

    /// The file extension of the format.
    fn extension(&self) -> (r: &'static str)
        ensures
            r@ == self.extension_name(),
    ;

    /// The bytes of the file that stores the sample with this data.
    spec fn encoded(&self, smp: Sample, pcm: AudioBuffer) -> Seq<u8>;

    /// Append the file that stores the sample with this data to `out`.
    fn write(&self, smp: &Sample, pcm: &AudioBuffer, out: &mut Vec<u8>)
        ensures
            final(out)@ == old(out)@ + self.encoded(*smp, *pcm),
    ;
}

// ---------------------------------------------------------------- RAW

/// Headerless PCM: the data as it is stored.
#[derive(Clone, Copy)]
pub struct Raw;

impl AudioTrait for Raw {
    open spec fn extension_name(&self) -> Seq<char> {
        "raw"@
    }

    fn extension(&self) -> (r: &'static str) {
        "raw"
    }

    open spec fn encoded(&self, smp: Sample, pcm: AudioBuffer) -> Seq<u8> {
        pcm_raw(pcm.pcm)
    }

    fn write(&self, smp: &Sample, pcm: &AudioBuffer, out: &mut Vec<u8>) {
        let raw = pcm.raw();
        push_bytes(out, raw.as_slice());
    }
}

// ---------------------------------------------------------------- WAV

/// Sampling period in nanoseconds of a sample rate, rounded to the nearest
/// (halves upwards); an unknown (zero) rate gives the largest period.
pub open spec fn wav_period(rate: u32) -> u32 {
    if rate == 0 { u32::MAX } else { ((2_000_000_000 + rate) / (2 * rate)) as u32 }
}

/// The sampling period is the nearest whole number of nanoseconds (halves
/// rounded up): `2 * rate * period` lies within `rate` of `2 * 10^9`.
pub proof fn law_wav_period_nearest(rate: u32)
    requires
        rate > 0,
    ensures
        2_000_000_000 - rate < 2 * rate * wav_period(rate) <= 2_000_000_000 + rate,
{
    let q = (2_000_000_000 + rate) / (2 * rate as int);
    assert(2_000_000_000 - rate < 2 * rate * q <= 2_000_000_000 + rate) by (nonlinear_arith)
        requires rate > 0, q == (2_000_000_000 + rate) / (2 * rate as int);
    assert(0 <= q <= 1_000_000_001) by (nonlinear_arith)
        requires rate >= 1, q == (2_000_000_000 + rate) / (2 * rate as int);
    assert(wav_period(rate) == q);
}

fn period_of(rate: u32) -> (r: u32)
    ensures
        r == wav_period(rate),
{
    if rate == 0 {
        u32::MAX
    } else {
        let q: u64 = (2_000_000_000u64 + rate as u64) / (2 * rate as u64);
        assert(q <= 1_000_000_001) by (nonlinear_arith)
            requires q == (2_000_000_000u64 + rate as u64) / (2 * rate as u64), rate >= 1;
        q as u32
    }
}

/// Loop type code of the `smpl` chunk.
pub open spec fn wav_loop_type(kind: LoopType) -> u32 {
    match kind {
        LoopType::Backward => 2,
        LoopType::PingPong => 1,
        _ => 0,
    }
}

/// The data of a wave file: unsigned 8-bit and signed little-endian 16-bit
/// values, the channels of a stereo sample interleaved.
pub open spec fn wav_data(smp: Sample, raw: Seq<u8>) -> Seq<u8> {
    let conv = match smp.depth {
        Depth::U8 | Depth::I16 => raw,
        Depth::I8 => sign_flipped_u8(raw),
        Depth::U16 => sign_flipped_u16(raw),
    };
    if smp.channel == (Channel::Stereo { interleaved: false }) {
        if depth_is_8_bit(smp.depth) { interleaved_8(conv) } else { interleaved_16(conv) }
    } else {
        conv
    }
}

/// A wave file stores the data of a sample whose channels are not split in
/// halves without loss: unsigned 8-bit and signed 16-bit data as it is,
/// other data with its sign flipped, which flipping again undoes.
pub proof fn law_wav_data_lossless(smp: Sample, raw: Seq<u8>)
    requires
        smp.channel != (Channel::Stereo { interleaved: false }),
    ensures
        smp.depth == Depth::U8 || smp.depth == Depth::I16 ==> wav_data(smp, raw) == raw,
        smp.depth == Depth::I8 ==> sign_flipped_u8(wav_data(smp, raw)) == raw,
        smp.depth == Depth::U16 ==> sign_flipped_u16(wav_data(smp, raw)) == raw,
{
    law_flip_sign_8_involutive(raw);
    law_flip_sign_16_involutive(raw);
}

/// The `RIFF`, `fmt ` and `data` headers of a wave file of `n` data bytes.
pub open spec fn wav_header(smp: Sample, n: nat) -> Seq<u8> {
    let channels = channel_count(smp.channel);
    let block_align = (channels * depth_bytes(smp.depth)) as u16;
    Seq::empty() + tag(0x52, 0x49, 0x46, 0x46) + le32(((36 + n) % 0x1_0000_0000) as u32) + tag(0x57, 0x41, 0x56, 0x45)
        + tag(0x66, 0x6d, 0x74, 0x20) + le32(16) + le16(1) + le16(channels) + le32(smp.rate)
        + le32(((smp.rate * block_align) % 0x1_0000_0000) as u32) + le16(block_align) + le16(depth_bits(smp.depth) as u16)
        + tag(0x64, 0x61, 0x74, 0x61) + le32((n % 0x1_0000_0000) as u32)
}

/// The `smpl` chunk with the loop of a sample.
pub open spec fn wav_smpl(smp: Sample) -> Seq<u8> {
    Seq::empty() + tag(0x73, 0x6d, 0x70, 0x6c) + le32(60) + le32(0) + le32(0) + le32(wav_period(smp.rate)) + le32(60)
        + le32(1) + le32(0) + le32(0) + le32(1) + le32(0) + le32(0) + le32(wav_loop_type(smp.looping.kind))
        + le32(smp.looping.start) + le32(smp.looping.stop) + le32(0) + le32(0)
}

/// A wave file: headers, data, and a `smpl` chunk for a looped sample.
pub open spec fn wav_encoded(smp: Sample, raw: Seq<u8>) -> Seq<u8> {
    wav_header(smp, raw.len()) + wav_data(smp, raw) + (if smp.looping.kind == LoopType::Off {
        Seq::empty()
    } else {
        wav_smpl(smp)
    })
}

/// The layout of a wave file: a 44-byte header, the data, and for a looped
/// sample a 68-byte `smpl` chunk. The header is `RIFF`, the size of the rest
/// (36 plus the data), `WAVE`, a 16-byte `fmt ` chunk of integer PCM with the
/// channel count (2 for stereo), the rate, the bytes per second (rate times
/// channels times bytes per value), the bytes per frame and the bits per
/// value (8 or 16), then `data` and the data's size.
pub proof fn law_wav_layout(smp: Sample, raw: Seq<u8>)
    ensures
        ({
            let f = wav_encoded(smp, raw);
            let d = wav_data(smp, raw);
            let channels: u16 = if smp.channel is Stereo { 2 } else { 1 };
            let bytes: u16 = if smp.depth == Depth::I16 || smp.depth == Depth::U16 { 2 } else { 1 };
            &&& f.len() == 44 + d.len() + (if smp.looping.kind == LoopType::Off { 0int } else { 68 })
            &&& f.subrange(0, 4) == tag(0x52, 0x49, 0x46, 0x46)
            &&& f.subrange(4, 8) == le32(((36 + raw.len()) % 0x1_0000_0000) as u32)
            &&& f.subrange(8, 16) == tag(0x57, 0x41, 0x56, 0x45) + tag(0x66, 0x6d, 0x74, 0x20)
            &&& f.subrange(16, 20) == le32(16)
            &&& f.subrange(20, 22) == le16(1)
            &&& f.subrange(22, 24) == le16(channels)
            &&& f.subrange(24, 28) == le32(smp.rate)
            &&& f.subrange(28, 32) == le32(((smp.rate * channels * bytes) % 0x1_0000_0000) as u32)
            &&& f.subrange(32, 34) == le16((channels * bytes) as u16)
            &&& f.subrange(34, 36) == le16((8 * bytes) as u16)
            &&& f.subrange(36, 40) == tag(0x64, 0x61, 0x74, 0x61)
            &&& f.subrange(40, 44) == le32((raw.len() % 0x1_0000_0000) as u32)
            &&& f.subrange(44, 44 + d.len() as int) == d
        }),
{
    let f = wav_encoded(smp, raw);
    let d = wav_data(smp, raw);
    let h = wav_header(smp, raw.len());
    lemma_wav_header_fields(smp, raw.len());
    assert(f.subrange(0, 44) =~= h);
    assert forall|a: int, b: int| 0 <= a <= b <= 44 implies f.subrange(a, b) == #[trigger] h.subrange(a, b) by {
        assert(f.subrange(a, b) =~= h.subrange(a, b));
    }
    assert(f.subrange(44, 44 + d.len() as int) =~= d);
}

#[verifier::spinoff_prover]
#[verifier::rlimit(40)]
proof fn lemma_wav_header_fields(smp: Sample, n: nat)
    ensures
        ({
            let h = wav_header(smp, n);
            let channels: u16 = if smp.channel is Stereo { 2 } else { 1 };
            let bytes: u16 = if smp.depth == Depth::I16 || smp.depth == Depth::U16 { 2 } else { 1 };
            &&& h.len() == 44
            &&& h.subrange(0, 4) == tag(0x52, 0x49, 0x46, 0x46)
            &&& h.subrange(4, 8) == le32(((36 + n) % 0x1_0000_0000) as u32)
            &&& h.subrange(8, 16) == tag(0x57, 0x41, 0x56, 0x45) + tag(0x66, 0x6d, 0x74, 0x20)
            &&& h.subrange(16, 20) == le32(16)
            &&& h.subrange(20, 22) == le16(1)
            &&& h.subrange(22, 24) == le16(channels)
            &&& h.subrange(24, 28) == le32(smp.rate)
            &&& h.subrange(28, 32) == le32(((smp.rate * channels * bytes) % 0x1_0000_0000) as u32)
            &&& h.subrange(32, 34) == le16((channels * bytes) as u16)
            &&& h.subrange(34, 36) == le16((8 * bytes) as u16)
            &&& h.subrange(36, 40) == tag(0x64, 0x61, 0x74, 0x61)
            &&& h.subrange(40, 44) == le32((n % 0x1_0000_0000) as u32)
        }),
{
    let h = wav_header(smp, n);
    let channels: u16 = if smp.channel is Stereo { 2 } else { 1 };
    let bytes: u16 = if smp.depth == Depth::I16 || smp.depth == Depth::U16 { 2 } else { 1 };
    assert(channel_count(smp.channel) == channels);
    assert(depth_bytes(smp.depth) == bytes);
    assert(depth_bits(smp.depth) == 8 * bytes);
    assert(smp.rate * (channels * bytes) == smp.rate * channels * bytes) by (nonlinear_arith);
    assert(h.subrange(0, 4) =~= tag(0x52, 0x49, 0x46, 0x46));
    assert(h.subrange(4, 8) =~= le32(((36 + n) % 0x1_0000_0000) as u32));
    assert(h.subrange(8, 16) =~= tag(0x57, 0x41, 0x56, 0x45) + tag(0x66, 0x6d, 0x74, 0x20));
    assert(h.subrange(16, 20) =~= le32(16));
    assert(h.subrange(20, 22) =~= le16(1));
    assert(h.subrange(22, 24) =~= le16(channels));
    assert(h.subrange(24, 28) =~= le32(smp.rate));
    assert(h.subrange(28, 32) =~= le32(((smp.rate * channels * bytes) % 0x1_0000_0000) as u32));
    assert(h.subrange(32, 34) =~= le16((channels * bytes) as u16));
    assert(h.subrange(34, 36) =~= le16((8 * bytes) as u16));
    assert(h.subrange(36, 40) =~= tag(0x64, 0x61, 0x74, 0x61));
    assert(h.subrange(40, 44) =~= le32((n % 0x1_0000_0000) as u32));
}

/// Microsoft Wave
#[derive(Clone, Copy)]
pub struct Wav;

impl Wav {
    fn header(smp: &Sample, n: usize) -> (h: Vec<u8>)
        ensures
            h@ == wav_header(*smp, n as nat),
    {
        let channels: u16 = smp.channels();
        let block_align: u16 = channels * smp.depth.bytes() as u16;
        let size: u32 = ((36 + n as u128) % 0x1_0000_0000) as u32;
        let rate = smp.rate;
        assert(rate as u64 * block_align as u64 <= 0xffff_ffff * 0xffff) by (nonlinear_arith)
            requires rate <= 0xffff_ffffu32, block_align <= 0xffffu16;
        let bytes_sec: u32 = ((rate as u64 * block_align as u64) % 0x1_0000_0000) as u32;
        let mut h: Vec<u8> = Vec::new();
        push_tag(&mut h, 0x52, 0x49, 0x46, 0x46);
        push_le32(&mut h, size);
        push_tag(&mut h, 0x57, 0x41, 0x56, 0x45);
        push_tag(&mut h, 0x66, 0x6d, 0x74, 0x20);
        push_le32(&mut h, 16);
        push_le16(&mut h, 1);
        push_le16(&mut h, channels);
        push_le32(&mut h, smp.rate);
        push_le32(&mut h, bytes_sec);
        push_le16(&mut h, block_align);
        push_le16(&mut h, smp.bits() as u16);
        push_tag(&mut h, 0x64, 0x61, 0x74, 0x61);
        push_le32(&mut h, (n as u64 % 0x1_0000_0000) as u32);
        h
    }

    fn smpl(smp: &Sample) -> (h: Vec<u8>)
        ensures
            h@ == wav_smpl(*smp),
    {
        let loop_type: u32 = match smp.looping.kind {
            LoopType::Backward => 2,
            LoopType::PingPong => 1,
            _ => 0,
        };
        let mut h: Vec<u8> = Vec::new();
        push_tag(&mut h, 0x73, 0x6d, 0x70, 0x6c);
        push_le32(&mut h, 60);
        push_le32(&mut h, 0);
        push_le32(&mut h, 0);
        push_le32(&mut h, period_of(smp.rate));
        push_le32(&mut h, 60);
        push_le32(&mut h, 1);
        push_le32(&mut h, 0);
        push_le32(&mut h, 0);
        push_le32(&mut h, 1);
        push_le32(&mut h, 0);
        push_le32(&mut h, 0);
        push_le32(&mut h, loop_type);
        push_le32(&mut h, smp.looping.start);
        push_le32(&mut h, smp.looping.stop);
        push_le32(&mut h, 0);
        push_le32(&mut h, 0);
        h
    }

    fn data(smp: &Sample, raw: Vec<u8>) -> (r: Vec<u8>)
        ensures
            r@ == wav_data(*smp, raw@),
    {
        let conv = match smp.depth {
            Depth::U8 => raw,
            Depth::I16 => to_le_16(raw),
            Depth::I8 => flip_sign_8(raw),
            Depth::U16 => to_le_16(flip_sign_16(raw)),
        };
        match smp.channel {
            Channel::Stereo { interleaved: false } => if smp.is_8_bit() {
                interleave_8(conv.as_slice())
            } else {
                interleave_16(conv.as_slice())
            },
            _ => conv,
        }
    }
}

impl AudioTrait for Wav {
    open spec fn extension_name(&self) -> Seq<char> {
        "wav"@
    }

    fn extension(&self) -> (r: &'static str) {
        "wav"
    }

    open spec fn encoded(&self, smp: Sample, pcm: AudioBuffer) -> Seq<u8> {
        wav_encoded(smp, pcm_raw(pcm.pcm))
    }

    fn write(&self, smp: &Sample, pcm: &AudioBuffer, out: &mut Vec<u8>) {
        let raw = pcm.raw();
        let ghost raw_v = raw@;
        let mut header = Wav::header(smp, raw.len());
        let mut data = Wav::data(smp, raw);
        let mut tail: Vec<u8> = if smp.looping.is_disabled() { Vec::new() } else { Wav::smpl(smp) };
        let ghost h = header@;
        let ghost d = data@;
        let ghost t = tail@;
        out.append(&mut header);
        out.append(&mut data);
        out.append(&mut tail);
        assert(t =~= (if smp.looping.kind == LoopType::Off { Seq::<u8>::empty() } else { wav_smpl(*smp) }));
        assert(out@ =~= old(out)@ + wav_encoded(*smp, raw_v));
    }
}

// ---------------------------------------------------------------- AIFF

/// The position of the highest set bit of a positive number.
pub open spec fn log2_floor(n: nat) -> nat
    decreases n,
{
    if n <= 1 { 0 } else { 1 + log2_floor(n / 2) }
}

/// A sample rate as an 80-bit extended float, big-endian: zero is ten zero
/// bytes; any other rate `r` is the biased exponent `16383 + floor(log2 r)`
/// in two bytes, then `r` shifted left until its highest set bit is bit 63,
/// in eight bytes.
pub open spec fn extended_be(rate: u32) -> Seq<u8> {
    if rate == 0 {
        Seq::new(10, |i: int| 0u8)
    } else {
        let k = log2_floor(rate as nat);
        let fraction = rate as nat * pow2((63 - k) as nat);
        be16((16383 + k) as u16) + be32((fraction / 0x1_0000_0000) as u32) + be32((fraction % 0x1_0000_0000) as u32)
    }
}

/// `extended::Extended::from(rate).to_be_bytes()`: the rate converted to
/// `f64`, which holds every `u32` exactly, and from there to the 80-bit
/// extended float with the same value, sign bit clear and the integer bit
/// of the fraction set, big-endian.
#[verifier::external_body]
fn rate_extended(rate: u32) -> (r: [u8; 10])
    ensures
        r@ == extended_be(rate),
{
    extended::Extended::from(rate).to_be_bytes()
}

/// The sample data of an AIFF file: signed big-endian values, the channels
/// of a stereo sample interleaved.
pub open spec fn aiff_data(smp: Sample, raw: Seq<u8>) -> Seq<u8> {
    let conv = match smp.depth {
        Depth::I8 => raw,
        Depth::I16 => byte_swapped_16(raw),
        Depth::U8 => sign_flipped_u8(raw),
        Depth::U16 => byte_swapped_16(sign_flipped_u16(raw)),
    };
    if smp.channel == (Channel::Stereo { interleaved: false }) {
        if depth_is_8_bit(smp.depth) { interleaved_8(conv) } else { interleaved_16(conv) }
    } else {
        conv
    }
}

/// An AIFF file stores the data of a sample whose channels are not split in
/// halves without loss: each kind of data is recovered from the signed
/// big-endian values stored.
pub proof fn law_aiff_data_lossless(smp: Sample, raw: Seq<u8>)
    requires
        smp.channel != (Channel::Stereo { interleaved: false }),
    ensures
        smp.depth == Depth::I8 ==> aiff_data(smp, raw) == raw,
        smp.depth == Depth::I16 ==> byte_swapped_16(aiff_data(smp, raw)) == raw,
        smp.depth == Depth::U8 ==> sign_flipped_u8(aiff_data(smp, raw)) == raw,
        smp.depth == Depth::U16 ==> sign_flipped_u16(byte_swapped_16(aiff_data(smp, raw))) == raw,
{
    law_flip_sign_8_involutive(raw);
    law_flip_sign_16_involutive(raw);
    law_byte_swap_involutive(raw);
    law_byte_swap_involutive(sign_flipped_u16(raw));
}

/// The `FORM`, `COMM` and `SSND` headers of an AIFF file of `n` data bytes,
/// with the sample rate stored as the extended float `rate`.
pub open spec fn aiff_header(smp: Sample, n: nat, rate: Seq<u8>) -> Seq<u8> {
    let channels = channel_count(smp.channel);
    let frames = (smp.length / (depth_bytes(smp.depth) as u32)) / (channels as u32);
    Seq::empty() + tag(0x46, 0x4f, 0x52, 0x4d) + be32(((46 + n) % 0x1_0000_0000) as u32) + tag(0x41, 0x49, 0x46, 0x46)
        + tag(0x43, 0x4f, 0x4d, 0x4d) + be32(18) + be16(channels) + be32(frames as u32)
        + be16(depth_bits(smp.depth) as u16) + rate + tag(0x53, 0x53, 0x4e, 0x44)
        + be32(((n + 8) % 0x1_0000_0000) as u32) + be32(0) + be32(0)
}

/// An AIFF file with the sample rate stored as the extended float `rate`.
pub open spec fn aiff_encoded(smp: Sample, raw: Seq<u8>, rate: Seq<u8>) -> Seq<u8> {
    aiff_header(smp, raw.len(), rate) + aiff_data(smp, raw)
}

/// The layout of an AIFF file: a 54-byte header, where the `FORM` chunk's
/// size counts the data and 46 header bytes, the rate fills bytes 28 to 38
/// and the `SSND` chunk's size counts the data and its 8-byte offset and
/// block size; then the data.
pub proof fn law_aiff_layout(smp: Sample, raw: Seq<u8>)
    ensures
        ({
            let f = aiff_encoded(smp, raw, extended_be(smp.rate));
            &&& f.len() == 54 + aiff_data(smp, raw).len()
            &&& f.subrange(0, 4) == tag(0x46, 0x4f, 0x52, 0x4d)
            &&& f.subrange(4, 8) == be32(((46 + raw.len()) % 0x1_0000_0000) as u32)
            &&& f.subrange(8, 16) == tag(0x41, 0x49, 0x46, 0x46) + tag(0x43, 0x4f, 0x4d, 0x4d)
            &&& f.subrange(16, 20) == be32(18)
            &&& f.subrange(28, 38) == extended_be(smp.rate)
            &&& f.subrange(38, 42) == tag(0x53, 0x53, 0x4e, 0x44)
            &&& f.subrange(42, 46) == be32(((raw.len() + 8) % 0x1_0000_0000) as u32)
            &&& f.subrange(54, f.len() as int) == aiff_data(smp, raw)
        }),
{
    let f = aiff_encoded(smp, raw, extended_be(smp.rate));
    let h = aiff_header(smp, raw.len(), extended_be(smp.rate));
    assert(h.len() == 54);
    assert(f.subrange(0, 4) =~= tag(0x46, 0x4f, 0x52, 0x4d));
    assert(f.subrange(4, 8) =~= be32(((46 + raw.len()) % 0x1_0000_0000) as u32));
    assert(f.subrange(8, 16) =~= tag(0x41, 0x49, 0x46, 0x46) + tag(0x43, 0x4f, 0x4d, 0x4d));
    assert(f.subrange(16, 20) =~= be32(18));
    assert(f.subrange(28, 38) =~= extended_be(smp.rate));
    assert(f.subrange(38, 42) =~= tag(0x53, 0x53, 0x4e, 0x44));
    assert(f.subrange(42, 46) =~= be32(((raw.len() + 8) % 0x1_0000_0000) as u32));
    assert(f.subrange(54, f.len() as int) =~= aiff_data(smp, raw));
}

/// Audio Interchange File Format
#[derive(Clone, Copy)]
pub struct Aiff;

impl Aiff {
    fn header(smp: &Sample, n: usize, rate: &[u8; 10]) -> (h: Vec<u8>)
        ensures
            h@ == aiff_header(*smp, n as nat, rate@),
    {
        let channels: u16 = smp.channels();
        let frames: u32 = (smp.length / smp.depth.bytes() as u32) / channels as u32;
        let mut h: Vec<u8> = Vec::new();
        push_tag(&mut h, 0x46, 0x4f, 0x52, 0x4d);
        push_be32(&mut h, ((46 + n as u128) % 0x1_0000_0000) as u32);
        push_tag(&mut h, 0x41, 0x49, 0x46, 0x46);
        push_tag(&mut h, 0x43, 0x4f, 0x4d, 0x4d);
        push_be32(&mut h, 18);
        push_be16(&mut h, channels);
        push_be32(&mut h, frames);
        push_be16(&mut h, smp.bits() as u16);
        push_bytes(&mut h, rate);
        push_tag(&mut h, 0x53, 0x53, 0x4e, 0x44);
        push_be32(&mut h, ((n as u128 + 8) % 0x1_0000_0000) as u32);
        push_be32(&mut h, 0);
        push_be32(&mut h, 0);
        h
    }

    fn data(smp: &Sample, raw: Vec<u8>) -> (r: Vec<u8>)
        ensures
            r@ == aiff_data(*smp, raw@),
    {
        let conv = match smp.depth {
            Depth::I8 => raw,
            Depth::I16 => to_be_16(raw),
            Depth::U8 => flip_sign_8(raw),
            Depth::U16 => to_be_16(flip_sign_16(raw)),
        };
        match smp.channel {
            Channel::Stereo { interleaved: false } => if smp.is_8_bit() {
                interleave_8(conv.as_slice())
            } else {
                interleave_16(conv.as_slice())
            },
            _ => conv,
        }
    }

    /// Append the AIFF file of the sample with this data to `out`, with the
    /// sample rate stored as the given 80-bit extended float.
    pub fn write_with_rate(smp: &Sample, pcm: &AudioBuffer, rate: [u8; 10], out: &mut Vec<u8>)
        ensures
            final(out)@ == old(out)@ + aiff_encoded(*smp, pcm_raw(pcm.pcm), rate@),
    {
        let raw = pcm.raw();
        let ghost raw_v = raw@;
        let mut h = Aiff::header(smp, raw.len(), &rate);
        let mut data = Aiff::data(smp, raw);
        let ghost hv = h@;
        let ghost dv = data@;
        out.append(&mut h);
        out.append(&mut data);
        assert(out@ =~= old(out)@ + aiff_encoded(*smp, raw_v, rate@));
    }
}

impl AudioTrait for Aiff {
    open spec fn extension_name(&self) -> Seq<char> {
        "aiff"@
    }

    fn extension(&self) -> (r: &'static str) {
        "aiff"
    }

    open spec fn encoded(&self, smp: Sample, pcm: AudioBuffer) -> Seq<u8> {
        aiff_encoded(smp, pcm_raw(pcm.pcm), extended_be(smp.rate))
    }

    fn write(&self, smp: &Sample, pcm: &AudioBuffer, out: &mut Vec<u8>) {
        let rate = rate_extended(smp.rate);
        Aiff::write_with_rate(smp, pcm, rate, out);
    }
}

// ---------------------------------------------------------------- ITS

/// Flags of an Impulse Tracker sample: sample present, 16-bit, stereo,
/// looped, and the loop's kind.
pub open spec fn its_flags(smp: Sample) -> u8 {
    (1 + (if depth_is_8_bit(smp.depth) { 0int } else { 2 }) + (if smp.channel is Stereo { 4int } else { 0 })
        + (if smp.looping.kind == LoopType::Off { 0int } else { 16 }) + (match smp.looping.kind {
        LoopType::Backward => 32int,
        LoopType::PingPong => 64,
        _ => 0,
    })) as u8
}

/// An Impulse Tracker sample file: the `IMPS` header and the data as it is
/// stored.
pub open spec fn its_encoded(smp: Sample, raw: Seq<u8>) -> Seq<u8> {
    Seq::empty() + tag(0x49, 0x4d, 0x50, 0x53) + ascii_field(stored_filename(smp), 12) + seq![0u8, 64u8, its_flags(smp), 64u8]
        + ascii_field(smp.name@, 26) + seq![(if depth_is_signed(smp.depth) { 1u8 } else { 0u8 }), 0u8]
        + le32(frames_of(smp.length, smp.depth, smp.channel)) + le32(smp.looping.start) + le32(smp.looping.stop)
        + le32(smp.rate) + le32(0) + le32(0) + le32(0x50) + seq![0u8, 0u8, 0u8, 0u8] + raw
}

/// Impulse Tracker sample
#[derive(Clone, Copy)]
pub struct Its;

impl AudioTrait for Its {
    open spec fn extension_name(&self) -> Seq<char> {
        "its"@
    }

    fn extension(&self) -> (r: &'static str) {
        "its"
    }

    open spec fn encoded(&self, smp: Sample, pcm: AudioBuffer) -> Seq<u8> {
        its_encoded(smp, pcm_raw(pcm.pcm))
    }

    fn write(&self, smp: &Sample, pcm: &AudioBuffer, out: &mut Vec<u8>) {
        let flags: u8 = 1 + (if smp.is_8_bit() { 0 } else { 2 }) + (if smp.is_stereo() { 4 } else { 0 })
            + (if smp.looping.is_disabled() { 0 } else { 16 }) + match smp.looping.kind() {
            LoopType::Backward => 32,
            LoopType::PingPong => 64,
            _ => 0,
        };
        let cvt: u8 = if smp.depth.is_signed() { 1 } else { 0 };
        let filename = filename_field(smp, 12);
        let name = to_ascii_array(smp.name(), 26);
        let raw = pcm.raw();
        let mut h: Vec<u8> = Vec::new();
        push_tag(&mut h, 0x49, 0x4d, 0x50, 0x53);
        push_bytes(&mut h, filename.as_slice());
        push_tag(&mut h, 0, 64, flags, 64);
        push_bytes(&mut h, name.as_slice());
        push_byte(&mut h, cvt);
        push_byte(&mut h, 0);
        push_le32(&mut h, smp.length_frames());
        push_le32(&mut h, smp.looping.start());
        push_le32(&mut h, smp.looping.end());
        push_le32(&mut h, smp.rate);
        push_le32(&mut h, 0);
        push_le32(&mut h, 0);
        push_le32(&mut h, 0x50);
        push_tag(&mut h, 0, 0, 0, 0);
        push_bytes(&mut h, raw.as_slice());
        let ghost hv = h@;
        assert(tag(0, 64, flags, 64) =~= seq![0u8, 64u8, its_flags(*smp), 64u8]);
        assert(hv =~= its_encoded(*smp, pcm_raw(pcm.pcm)));
        out.append(&mut h);
    }
}

// ---------------------------------------------------------------- S3I

/// Flags of a Scream Tracker 3 instrument: looped, stereo, 16-bit.
pub open spec fn s3i_flags(smp: Sample) -> u8 {
    ((if smp.looping.kind == LoopType::Off { 0int } else { 1 }) + (if smp.channel is Stereo { 2int } else { 0 })
        + (if depth_is_8_bit(smp.depth) { 0int } else { 4 })) as u8
}

/// A Scream Tracker 3 instrument file: its header and the data as it is
/// stored.
pub open spec fn s3i_encoded(smp: Sample, raw: Seq<u8>) -> Seq<u8> {
    Seq::empty() + seq![1u8] + ascii_field(stored_filename(smp), 12) + seq![0u8, 0u8, 0u8]
        + le32(frames_of(smp.length, smp.depth, smp.channel)) + le32(smp.looping.start) + le32(smp.looping.stop)
        + seq![64u8, 0u8, 0u8, s3i_flags(smp)] + le32(smp.rate) + le32(0) + le32(0) + le32(0)
        + ascii_field(smp.name@, 28) + tag(0x53, 0x43, 0x52, 0x49) + raw
}

/// Scream Tracker 3 Instrument
#[derive(Clone, Copy)]
pub struct S3i;

impl AudioTrait for S3i {
    open spec fn extension_name(&self) -> Seq<char> {
        "s3i"@
    }

    fn extension(&self) -> (r: &'static str) {
        "s3i"
    }

    open spec fn encoded(&self, smp: Sample, pcm: AudioBuffer) -> Seq<u8> {
        s3i_encoded(smp, pcm_raw(pcm.pcm))
    }

    fn write(&self, smp: &Sample, pcm: &AudioBuffer, out: &mut Vec<u8>) {
        let flags: u8 = (if smp.looping.is_disabled() { 0 } else { 1 }) + (if smp.is_stereo() { 2 } else { 0 })
            + (if smp.is_8_bit() { 0 } else { 4 });
        let filename = filename_field(smp, 12);
        let name = to_ascii_array(smp.name(), 28);
        let raw = pcm.raw();
        let mut h: Vec<u8> = Vec::new();
        push_byte(&mut h, 1);
        push_bytes(&mut h, filename.as_slice());
        push_byte(&mut h, 0);
        push_byte(&mut h, 0);
        push_byte(&mut h, 0);
        push_le32(&mut h, smp.length_frames());
        push_le32(&mut h, smp.looping.start());
        push_le32(&mut h, smp.looping.end());
        push_tag(&mut h, 64, 0, 0, flags);
        push_le32(&mut h, smp.rate);
        push_le32(&mut h, 0);
        push_le32(&mut h, 0);
        push_le32(&mut h, 0);
        push_bytes(&mut h, name.as_slice());
        push_tag(&mut h, 0x53, 0x43, 0x52, 0x49);
        push_bytes(&mut h, raw.as_slice());
        let ghost hv = h@;
        assert(hv =~= s3i_encoded(*smp, pcm_raw(pcm.pcm)));
        out.append(&mut h);
    }
}

// ---------------------------------------------------------------- 8SVX

/// Loop start and length stored in an 8SVX file: none for an unlooped sample.
pub open spec fn iff_loop(smp: Sample) -> (u32, u32) {
    if smp.looping.kind == LoopType::Off {
        (0, 0)
    } else {
        (smp.looping.start, if smp.looping.stop >= smp.looping.start { (smp.looping.stop - smp.looping.start) as u32 } else { 0 })
    }
}

/// Size of the `BODY` chunk for `n` values, rounded up to even (32-bit).
pub open spec fn iff_body_size(n: nat) -> u32 {
    let len = (n % 0x1_0000_0000) as u32;
    if len % 2 != 0 { ((len + 1) % 0x1_0000_0000) as u32 } else { len }
}

/// The highest rate an 8SVX file is written with. Its header stores the rate
/// in 16 bits.
pub const CAPPED_SAMPLE_RATE: u16 = 22050;

/// The rate written to an 8SVX file: the sample's rate, capped at
/// [`CAPPED_SAMPLE_RATE`].
pub open spec fn iff_rate(rate: u32) -> u16 {
    if rate <= CAPPED_SAMPLE_RATE { rate as u16 } else { CAPPED_SAMPLE_RATE }
}

/// The rate a sample's data is resampled to before it is written in
/// `format`: 8SVX caps the rate, so a sample above [`CAPPED_SAMPLE_RATE`] is
/// brought down to it; every other format keeps the rate.
pub fn resample_target(format: AudioFormat, rate: u32) -> (r: Option<u32>)
    ensures
        r == (if format == AudioFormat::IFF && rate > CAPPED_SAMPLE_RATE {
            Some(CAPPED_SAMPLE_RATE as u32)
        } else {
            None::<u32>
        }),
{
    match format {
        AudioFormat::IFF => if rate > CAPPED_SAMPLE_RATE as u32 { Some(CAPPED_SAMPLE_RATE as u32) } else { None },
        _ => None,
    }
}

/// The `FORM`, `VHDR`, `ANNO` and `BODY` headers of an 8SVX file of `n`
/// values.
pub open spec fn iff_header(smp: Sample, n: nat) -> Seq<u8> {
    let body = iff_body_size(n);
    Seq::empty() + tag(0x46, 0x4f, 0x52, 0x4d) + be32(((40 + body) % 0x1_0000_0000) as u32) + tag(0x38, 0x53, 0x56, 0x58)
        + tag(0x56, 0x48, 0x44, 0x52) + be32(20) + be32(iff_loop(smp).0) + be32(iff_loop(smp).1) + be32(0)
        + be16(iff_rate(smp.rate)) + seq![1u8] + seq![0u8] + be32(65536) + tag(0x41, 0x4e, 0x4e, 0x4f)
        + be32(8) + tag(0x58, 0x4d, 0x4f, 0x44) + tag(0x49, 0x54, 0x53, 0x20) + tag(0x42, 0x4f, 0x44, 0x59) + be32(body)
}

/// An 8SVX file: its headers and the data as signed 8-bit values, channel
/// after channel. The header gives the rate capped at
/// [`CAPPED_SAMPLE_RATE`]; the data of a sample above that rate is written
/// as it is handed over, so it is resampled first (see [`resample_target`]).
pub open spec fn iff_encoded(smp: Sample, pcm: AudioBuffer) -> Seq<u8> {
    iff_header(smp, pcm_len(pcm.pcm)) + Seq::new(pcm_len(pcm.pcm), |i: int| sample_i8(pcm.pcm, i) as u8)
}

/// The layout of an 8SVX file of `n` values: a 64-byte header, then one
/// byte per value. The header is `FORM` with the size of the rest (40 plus
/// the body's size), `8SVX`, a 20-byte `VHDR` chunk with the
/// loop start and length (zero for an unlooped sample), the rate capped at
/// 22050, one octave and no compression, an 8-byte `ANNO` chunk, and `BODY`
/// with the body's size: `n` rounded up to even (32-bit, wrapping).
#[verifier::spinoff_prover]
#[verifier::rlimit(40)]
pub proof fn law_iff_layout(smp: Sample, n: nat)
    ensures
        ({
            let h = iff_header(smp, n);
            let len = n % 0x1_0000_0000;
            let body = if len % 2 == 1 { (len + 1) % 0x1_0000_0000 } else { len };
            let looped = smp.looping.kind != LoopType::Off;
            &&& h.len() == 64
            &&& h.subrange(0, 4) == tag(0x46, 0x4f, 0x52, 0x4d)
            &&& h.subrange(4, 8) == be32(((40 + body) % 0x1_0000_0000) as u32)
            &&& h.subrange(8, 16) == tag(0x38, 0x53, 0x56, 0x58) + tag(0x56, 0x48, 0x44, 0x52)
            &&& h.subrange(16, 20) == be32(20)
            &&& h.subrange(20, 24) == be32(if looped { smp.looping.start } else { 0 })
            &&& h.subrange(24, 28) == be32(if looped && smp.looping.stop >= smp.looping.start {
                (smp.looping.stop - smp.looping.start) as u32
            } else {
                0
            })
            &&& h.subrange(32, 34) == be16(if smp.rate <= 22050 { smp.rate as u16 } else { 22050 })
            &&& h.subrange(34, 36) == seq![1u8, 0u8]
            &&& h.subrange(40, 48) == tag(0x41, 0x4e, 0x4e, 0x4f) + be32(8)
            &&& h.subrange(56, 60) == tag(0x42, 0x4f, 0x44, 0x59)
            &&& h.subrange(60, 64) == be32(body as u32)
        }),
{
    let h = iff_header(smp, n);
    let len = n % 0x1_0000_0000;
    let body = if len % 2 == 1 { (len + 1) % 0x1_0000_0000 } else { len };
    assert(iff_body_size(n) == body);
    assert(h.len() == 64);
    assert(h.subrange(0, 4) =~= tag(0x46, 0x4f, 0x52, 0x4d));
    assert(h.subrange(4, 8) =~= be32(((40 + body) % 0x1_0000_0000) as u32));
    assert(h.subrange(8, 16) =~= tag(0x38, 0x53, 0x56, 0x58) + tag(0x56, 0x48, 0x44, 0x52));
    assert(h.subrange(16, 20) =~= be32(20));
    assert(h.subrange(20, 24) =~= be32(iff_loop(smp).0));
    assert(h.subrange(24, 28) =~= be32(iff_loop(smp).1));
    assert(h.subrange(32, 34) =~= be16(iff_rate(smp.rate)));
    assert(h.subrange(34, 36) =~= seq![1u8, 0u8]);
    assert(h.subrange(40, 48) =~= tag(0x41, 0x4e, 0x4e, 0x4f) + be32(8));
    assert(h.subrange(56, 60) =~= tag(0x42, 0x4f, 0x44, 0x59));
    assert(h.subrange(60, 64) =~= be32(body as u32));
}

/// Amiga 8SVX (signed 8-bit samples only)
#[derive(Clone, Copy)]
pub struct Iff;

impl Iff {
    #[verifier::spinoff_prover]
    #[verifier::rlimit(40)]
    fn header(smp: &Sample, n: usize) -> (h: Vec<u8>)
        ensures
            h@ == iff_header(*smp, n as nat),
    {
        let frequency: u16 = if smp.rate <= CAPPED_SAMPLE_RATE as u32 { smp.rate as u16 } else { CAPPED_SAMPLE_RATE };
        let pcm_len: u32 = (n as u64 % 0x1_0000_0000) as u32;
        let body: u32 = if pcm_len % 2 != 0 { pcm_len.wrapping_add(1) } else { pcm_len };
        let form: u32 = body.wrapping_add(40);
        let (loop_start, loop_len) = if smp.looping.is_disabled() {
            (0u32, 0u32)
        } else {
            (smp.looping.start(), smp.looping.len())
        };
        assert(body == iff_body_size(n as nat));
        assert((loop_start, loop_len) == iff_loop(*smp));
        let mut h: Vec<u8> = Vec::new();
        push_tag(&mut h, 0x46, 0x4f, 0x52, 0x4d);
        push_be32(&mut h, form);
        push_tag(&mut h, 0x38, 0x53, 0x56, 0x58);
        push_tag(&mut h, 0x56, 0x48, 0x44, 0x52);
        push_be32(&mut h, 20);
        push_be32(&mut h, loop_start);
        push_be32(&mut h, loop_len);
        push_be32(&mut h, 0);
        push_be16(&mut h, frequency);
        push_byte(&mut h, 1);
        push_byte(&mut h, 0);
        push_be32(&mut h, 65536);
        push_tag(&mut h, 0x41, 0x4e, 0x4e, 0x4f);
        push_be32(&mut h, 8);
        push_tag(&mut h, 0x58, 0x4d, 0x4f, 0x44);
        push_tag(&mut h, 0x49, 0x54, 0x53, 0x20);
        push_tag(&mut h, 0x42, 0x4f, 0x44, 0x59);
        push_be32(&mut h, body);
        h
    }
}

impl AudioTrait for Iff {
    open spec fn extension_name(&self) -> Seq<char> {
        "8svx"@
    }

    fn extension(&self) -> (r: &'static str) {
        "8svx"
    }

    open spec fn encoded(&self, smp: Sample, pcm: AudioBuffer) -> Seq<u8> {
        iff_encoded(smp, pcm)
    }

    fn write(&self, smp: &Sample, pcm: &AudioBuffer, out: &mut Vec<u8>) {
        let mut h = Iff::header(smp, pcm.len());
        let mut body = pcm.planar_i8();
        let ghost hv = h@;
        let ghost bv = body@;
        out.append(&mut h);
        out.append(&mut body);
        assert(out@ =~= old(out)@ + iff_encoded(*smp, *pcm));
    }
}

// ---------------------------------------------------------------- formats

/// Possible formats to store the pcm
#[derive(Debug, Default, Clone, Copy, PartialEq, Eq, Structural, Hash)]
pub enum AudioFormat {
    /// Wav, only supports unsigned 8-bit and signed 16-bit samples.
    /// Samples are processed to satisfy this.
    #[default]
    WAV,
    /// Amiga 8svx, only supports signed 8 bit samples.
    /// 16-bit samples will have their bit depth reduced.
    IFF,
    /// Aiff
    AIFF,
    /// Impulse Tracker Sample
    ITS,
    /// Scream Tracker 3 Instrument
    S3I,
    /// Raw PCM
    /// This will lose information about the sample.
    RAW,
}

/// The bytes of the file that stores a sample with this data in a format.
pub open spec fn format_encoded(fmt: AudioFormat, smp: Sample, pcm: AudioBuffer) -> Seq<u8> {
    match fmt {
        AudioFormat::WAV => wav_encoded(smp, pcm_raw(pcm.pcm)),
        AudioFormat::IFF => iff_encoded(smp, pcm),
        AudioFormat::AIFF => aiff_encoded(smp, pcm_raw(pcm.pcm), extended_be(smp.rate)),
        AudioFormat::ITS => its_encoded(smp, pcm_raw(pcm.pcm)),
        AudioFormat::S3I => s3i_encoded(smp, pcm_raw(pcm.pcm)),
        AudioFormat::RAW => pcm_raw(pcm.pcm),
    }
}

/// The file extension of a format.
pub open spec fn format_extension(fmt: AudioFormat) -> Seq<char> {
    match fmt {
        AudioFormat::WAV => "wav"@,
        AudioFormat::IFF => "8svx"@,
        AudioFormat::AIFF => "aiff"@,
        AudioFormat::ITS => "its"@,
        AudioFormat::S3I => "s3i"@,
        AudioFormat::RAW => "raw"@,
    }
}

impl AudioFormat {
    /// The formats that samples can be stored in.
    pub fn formats() -> (r: Vec<AudioFormat>)
        ensures
            r@ == seq![AudioFormat::WAV, AudioFormat::IFF, AudioFormat::AIFF, AudioFormat::ITS, AudioFormat::RAW],
    {
        let mut v: Vec<AudioFormat> = Vec::new();
        v.push(AudioFormat::WAV);
        v.push(AudioFormat::IFF);
        v.push(AudioFormat::AIFF);
        v.push(AudioFormat::ITS);
        v.push(AudioFormat::RAW);
        v
    }

    /// Returns the implementation of the format.
    pub fn get_impl(&self) -> Box<dyn AudioTrait> {
        match self {
            AudioFormat::WAV => Box::new(Wav),
            AudioFormat::AIFF => Box::new(Aiff),
            AudioFormat::IFF => Box::new(Iff),
            AudioFormat::ITS => Box::new(Its),
            AudioFormat::S3I => Box::new(S3i),
            AudioFormat::RAW => Box::new(Raw),
        }
    }

    /// The file extension of the format.
    pub fn extension(&self) -> (r: &'static str)
        ensures
            r@ == format_extension(*self),
    {
        match self {
            AudioFormat::WAV => "wav",
            AudioFormat::IFF => "8svx",
            AudioFormat::AIFF => "aiff",
            AudioFormat::ITS => "its",
            AudioFormat::S3I => "s3i",
            AudioFormat::RAW => "raw",
        }
    }

    /// The name of the format as it is shown.
    pub fn to_string(&self) -> (r: String)
        ensures
            r@ == format_extension(*self),
    {
        self.extension().to_owned()
    }

    /// Append the file that stores the sample with this data in the format
    /// to `out`.
    pub fn write(&self, smp: &Sample, pcm: &AudioBuffer, out: &mut Vec<u8>)
        ensures
            final(out)@ == old(out)@ + format_encoded(*self, *smp, *pcm),
    {
        match self {
            AudioFormat::WAV => Wav.write(smp, pcm, out),
            AudioFormat::IFF => Iff.write(smp, pcm, out),
            AudioFormat::AIFF => Aiff.write(smp, pcm, out),
            AudioFormat::ITS => Its.write(smp, pcm, out),
            AudioFormat::S3I => S3i.write(smp, pcm, out),
            AudioFormat::RAW => Raw.write(smp, pcm, out),
        }
    }
}

/// A command of ffmpeg that samples are handed to, to store them in the
/// formats that ffmpeg supports.
pub struct FFMPEGCommand {
    pub command: String,
}

/// Fast Tracker 2 Instrument
#[derive(Clone, Copy)]
pub struct Xi;

} // verus!
