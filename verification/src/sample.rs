//! Tracker module samples: their metadata, looping, channel layout and bit depth.

use vstd::prelude::*;
use crate::text::{os_text, to_str_os};

verus! {

/// The type of loop a sample uses.
#[derive(Debug, Clone, Copy, PartialEq, Eq, Structural, Default)]
pub enum LoopType {
    #[default]
    Off,
    Forward,
    Backward,
    PingPong,
}

/// Type of audio channel layout.
#[derive(Debug, Clone, Copy, PartialEq, Eq, Structural, Default)]
pub enum Channel {
    #[default]
    Mono,
    Stereo { interleaved: bool },
}

/// Sample bit depth and signedness.
#[derive(Debug, Clone, Copy, PartialEq, Eq, Structural, Default)]
pub enum Depth {
    /// Signed 8 bit
    I8,
    /// Unsigned 8 bit
    #[default]
    U8,
    /// Signed 16 bit
    I16,
    /// Unsigned 16 bit
    U16,
}

/// How the sample data is stored inside the module.
#[derive(Debug, Clone, Copy, PartialEq, Eq, Structural, Default)]
pub enum PcmType {
    /// Plain PCM values
    #[default]
    PCM,
    /// Delta values
    DELTA,
    /// 4-bit ADPCM (ModPlug)
    ADPCM,
    /// Impulse Tracker 2.14 compression
    IT214,
    /// Impulse Tracker 2.15 compression
    IT215,
}

/// Sample looping information
#[derive(Debug, Clone, Copy, PartialEq, Eq, Structural, Default)]
pub struct Loop {
    /// sample loop start
    pub start: u32,
    /// sample loop end
    pub stop: u32,
    /// The type of loop
    pub kind: LoopType,
}

impl Loop {
    pub fn new(start: u32, stop: u32, kind: LoopType) -> (r: Loop)
        ensures
            r == (Loop { start, stop, kind }),
    {
        Loop { start, stop, kind }
    }

    pub fn start(&self) -> (r: u32)
        ensures
            r == self.start,
    {
        self.start
    }

    pub fn end(&self) -> (r: u32)
        ensures
            r == self.stop,
    {
        self.stop
    }

    pub fn kind(&self) -> (r: LoopType)
        ensures
            r == self.kind,
    {
        self.kind
    }

    /// Length of the loop, zero where the end lies before the start.
    pub fn len(&self) -> (r: u32)
        ensures
            r == (if self.stop >= self.start { self.stop - self.start } else { 0 }),
    {
        if self.stop >= self.start {
            self.stop - self.start
        } else {
            0
        }
    }

    pub fn is_disabled(&self) -> (r: bool)
        ensures
            r == (self.kind == LoopType::Off),
    {
        matches!(self.kind, LoopType::Off)
    }
}

pub open spec fn channel_count(c: Channel) -> u16 {
    match c {
        Channel::Mono => 1,
        Channel::Stereo { .. } => 2,
    }
}

impl Channel {
    pub fn new(is_stereo: bool, interleaved: bool) -> (r: Self)
        ensures
            r == (if is_stereo { Channel::Stereo { interleaved } } else { Channel::Mono }),
    {
        if is_stereo {
            Channel::Stereo { interleaved }
        } else {
            Channel::Mono
        }
    }

    pub fn channels(self) -> (r: u16)
        ensures
            r == channel_count(self),
    {
        match self {
            Channel::Mono => 1,
            Channel::Stereo { .. } => 2,
        }
    }

    pub fn is_stereo(self) -> (r: bool)
        ensures
            r == (self is Stereo),
    {
        matches!(self, Channel::Stereo { .. })
    }

    pub fn is_interleaved(self) -> (r: bool)
        ensures
            r == (self == Channel::Stereo { interleaved: true }),
    {
        match self {
            Channel::Stereo { interleaved } => interleaved,
            Channel::Mono => false,
        }
    }
}

pub open spec fn depth_bits(d: Depth) -> u8 {
    match d {
        Depth::I8 | Depth::U8 => 8,
        Depth::I16 | Depth::U16 => 16,
    }
}

pub open spec fn depth_bytes(d: Depth) -> u8 {
    match d {
        Depth::I8 | Depth::U8 => 1,
        Depth::I16 | Depth::U16 => 2,
    }
}

pub open spec fn depth_is_8_bit(d: Depth) -> bool {
    d is I8 || d is U8
}

pub open spec fn depth_is_signed(d: Depth) -> bool {
    d is I8 || d is I16
}

impl Depth {
    pub fn new(is_8_bit: bool, signed_8: bool, signed_16: bool) -> (r: Self)
        ensures
            r == (if is_8_bit {
                if signed_8 { Depth::I8 } else { Depth::U8 }
            } else {
                if signed_16 { Depth::I16 } else { Depth::U16 }
            }),
    {
        if is_8_bit {
            if signed_8 { Depth::I8 } else { Depth::U8 }
        } else {
            if signed_16 { Depth::I16 } else { Depth::U16 }
        }
    }

    pub fn bits(self) -> (r: u8)
        ensures
            r == depth_bits(self),
    {
        match self {
            Depth::I8 | Depth::U8 => 8,
            Depth::I16 | Depth::U16 => 16,
        }
    }

    pub fn bytes(self) -> (r: u8)
        ensures
            r == depth_bytes(self),
            r as int * 8 == depth_bits(self),
    {
        self.bits() / 8
    }

    pub fn is_8_bit(self) -> (r: bool)
        ensures
            r == depth_is_8_bit(self),
    {
        matches!(self, Depth::I8 | Depth::U8)
    }

    pub fn is_signed(self) -> (r: bool)
        ensures
            r == depth_is_signed(self),
    {
        matches!(self, Depth::I8 | Depth::I16)
    }
}

/// Tracker module sample
#[derive(Default, Debug, Clone)]
pub struct Sample {
    /// Raw sample filename. Not all formats support this.
    pub filename: Option<String>,
    /// Raw sample name
    pub name: String,
    /// Sample length in bytes
    pub length: u32,
    /// Sample rate
    pub rate: u32,
    /// Sample pointer
    pub pointer: u32,
    /// Sample bit depth
    pub depth: Depth,
    /// Type of audio channel. Stereo / Mono
    pub channel: Channel,
    /// Zero-based position inside the tracker module
    pub index_raw: u16,
    /// How the sample data is stored
    pub pcm_type: PcmType,
    /// Looping information
    pub looping: Loop,
}

/// We consider two samples that point to the same region to be equal
impl PartialEq for Sample {
    fn eq(&self, other: &Self) -> (r: bool) {
        self.pointer == other.pointer
    }
}

impl vstd::std_specs::cmp::PartialEqSpecImpl for Sample {
    open spec fn obeys_eq_spec() -> bool {
        true
    }

    open spec fn eq_spec(&self, other: &Self) -> bool {
        self.pointer == other.pointer
    }
}

/// The mathematical content of a [`Sample`], with its texts as character sequences.
pub struct SampleView {
    pub filename: Option<Seq<char>>,
    pub name: Seq<char>,
    pub length: u32,
    pub rate: u32,
    pub pointer: u32,
    pub depth: Depth,
    pub channel: Channel,
    pub index_raw: u16,
    pub pcm_type: PcmType,
    pub looping: Loop,
}

impl View for Sample {
    type V = SampleView;

    open spec fn view(&self) -> SampleView {
        SampleView {
            filename: match self.filename {
                Some(f) => Some(f@),
                None => None,
            },
            name: self.name@,
            length: self.length,
            rate: self.rate,
            pointer: self.pointer,
            depth: self.depth,
            channel: self.channel,
            index_raw: self.index_raw,
            pcm_type: self.pcm_type,
            looping: self.looping,
        }
    }
}

/// A sample's filename, or its name where it has none.
pub open spec fn sample_filename(smp: Sample) -> Seq<char> {
    match smp.filename {
        Some(f) => f@,
        None => smp.name@,
    }
}

/// End of a sample's data as a 32-bit offset; past `u32::MAX` it wraps, as
/// unchecked 32-bit arithmetic does.
pub open spec fn sample_end(pointer: u32, length: u32) -> u32 {
    ((pointer + length) % 0x1_0000_0000) as u32
}

/// Number of frames in `length` bytes of data with this depth and channel layout.
pub open spec fn frames_of(length: u32, depth: Depth, channel: Channel) -> u32 {
    (length as int / (depth_bytes(depth) * channel_count(channel)) as int) as u32
}

impl Sample {
    /// Start and end offsets of the sample data.
    pub fn ptr_range(&self) -> (r: core::ops::Range<usize>)
        ensures
            r.start == self.pointer,
            r.end == sample_end(self.pointer, self.length),
    {
        let end: u32 = self.pointer.wrapping_add(self.length);
        core::ops::Range { start: self.pointer as usize, end: end as usize }
    }

    /// Sample's index as it is listed in the tracker module (one-based).
    pub fn index_raw(&self) -> (r: usize)
        ensures
            r == self.index_raw + 1,
    {
        self.index_raw as usize + 1
    }

    /// The sample's raw name
    pub fn name(&self) -> (r: &str)
        ensures
            r@ == self.name@,
    {
        self.name.as_str()
    }

    /// The sample's raw filename, falling back to its name where it has none
    pub fn filename(&self) -> (r: &str)
        ensures
            r@ == sample_filename(*self),
    {
        match &self.filename {
            Some(f) => f.as_str(),
            None => self.name.as_str(),
        }
    }

    /// The sample's name as it may stand in a file name
    pub fn name_pretty(&self) -> (r: String)
        ensures
            r@ == os_text(self.name@),
    {
        to_str_os(self.name())
    }

    /// The sample's filename (or name) as it may stand in a file name
    pub fn filename_pretty(&self) -> (r: String)
        ensures
            r@ == os_text(sample_filename(*self)),
    {
        to_str_os(self.filename())
    }

    pub fn is_stereo(&self) -> (r: bool)
        ensures
            r == (self.channel is Stereo),
    {
        self.channel.is_stereo()
    }

    pub fn is_interleaved(&self) -> (r: bool)
        ensures
            r == (self.channel == Channel::Stereo { interleaved: true }),
    {
        self.channel.is_interleaved()
    }

    pub fn is_signed(&self) -> (r: bool)
        ensures
            r == depth_is_signed(self.depth),
    {
        self.depth.is_signed()
    }

    pub fn bits(&self) -> (r: u8)
        ensures
            r == depth_bits(self.depth),
    {
        self.depth.bits()
    }

    pub fn is_8_bit(&self) -> (r: bool)
        ensures
            r == depth_is_8_bit(self.depth),
    {
        self.depth.is_8_bit()
    }

    pub fn channels(&self) -> (r: u16)
        ensures
            r == channel_count(self.channel),
    {
        self.channel.channels()
    }

    /// Length of the sample in frames
    pub fn length_frames(&self) -> (r: u32)
        ensures
            r == frames_of(self.length, self.depth, self.channel),
    {
        let per_frame: u32 = self.depth.bytes() as u32 * self.channel.channels() as u32;
        self.length / per_frame
    }
}

} // verus!
