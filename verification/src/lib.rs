//! Verified core of a tracker-module sample ripper: parsers for Impulse
//! Tracker, Extended Module, Scream Tracker 3, ProTracker and Unreal music
//! packages, the sample decoders they need, and encoders for the audio
//! formats that samples are exported to.

pub mod bytes;
pub mod sample;
pub mod error;
pub mod it_compression;
pub mod dsp;
pub mod text;
pub mod module;
pub mod fmt_it;
pub mod fmt_s3m;
pub mod fmt_xm;
pub mod fmt_mod;
pub mod fmt_umx;
pub mod loader;
pub mod audio_buffer;
pub mod export;
pub mod name;
pub mod info;
