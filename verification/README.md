# xmodits-lib

A library that rips the samples out of tracker modules: Impulse Tracker
(IT, MPTM), Fasttracker 2 Extended Modules (XM), Scream Tracker 3 (S3M),
Amiga ProTracker (MOD), and the containers that carry one of them: Unreal
packages (UMX) and ProTracker 3.6 projects (PT36). The
samples are decoded (delta values, ADPCM, IT 2.14/2.15 compression) and can be
stored as WAV, AIFF, 8SVX, ITS, S3I or raw PCM.

The library in `src/` is written in Verus: each loader, decoder and encoder
states what it computes in its `requires`/`ensures`, and Verus proves it.

* `bytes`, `text`: reading integers and names from module data, text helpers.
* `sample`, `module`, `error`: samples, loaded modules and their decoded PCM,
  errors.
* `fmt_it`, `fmt_xm`, `fmt_s3m`, `fmt_mod`, `fmt_umx`, `loader`: the module
  formats and the recognition of a module's format.
* `it_compression`, `dsp`, `audio_buffer`: decompression and transformations
  of PCM data.
* `export`, `name`, `info`: the audio formats, naming of the extracted files,
  module information and the outcome of ripping.

`app/` holds what stays outside the proofs: reading and writing files,
parallel ripping with rayon, resampling with rubato (8SVX stores rates up
to 22050 Hz, so faster samples are brought down to it before they are
written), the floating-point rate
formula of Extended Modules, and copies of library types with serde and
thiserror derives.
