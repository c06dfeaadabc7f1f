//! Errors reported while loading modules and exporting their samples.

use vstd::prelude::*;
use crate::sample::Sample;
use crate::text::{concat3, decimal, decimal_chars, string_from_chars};

verus! {

/// What went wrong while loading a module or extracting its samples.
#[derive(Debug)]
pub enum Error {
    /// Input/output failure, with its message
    Io(String),
    /// Some or all samples could not be extracted
    FailedRip(FailedExtraction),
    /// A sample could not be decoded
    Extraction(String),
    /// The module appears valid but is not supported
    UnsupportedModule(String),
    /// The module is not valid
    InvalidModule(String),
    /// The module holds no samples
    EmptyModule,
    /// The sample could not be stored in the desired format
    AudioFormat(String),
    /// A sample points outside the module's data
    BadSample { raw_index: u16, pointer: u32, length: u32 },
    /// No known format matches the data
    NoFormatFound,
}

/// A failed extraction of one sample
#[derive(Debug)]
pub struct ExtractionError {
    pub raw_index: usize,
    pub reason: Box<Error>,
}

/// The extraction failed for some (`Partial`) or all (`Total`) samples
#[derive(Debug)]
pub enum FailedExtraction {
    /// Not all of the samples could be extracted
    Partial(Vec<ExtractionError>),
    /// None of the samples could be extracted
    Total(Vec<ExtractionError>),
}

impl ExtractionError {
    pub fn new(raw_index: usize, reason: Error) -> (r: Self)
        ensures
            r.raw_index == raw_index,
            *r.reason == reason,
    {
        ExtractionError { raw_index, reason: Box::new(reason) }
    }
}

impl FailedExtraction {
    pub fn inner(&self) -> (r: &Vec<ExtractionError>)
        ensures
            *r == (match self {
                FailedExtraction::Partial(e) => *e,
                FailedExtraction::Total(e) => *e,
            }),
    {
        match self {
            FailedExtraction::Partial(errors) => errors,
            FailedExtraction::Total(errors) => errors,
        }
    }
}

impl Error {
    /// Not all of the samples could be extracted
    pub fn partial_extraction(errors: Vec<ExtractionError>) -> (r: Result<(), Self>)
        ensures
            r == Err::<(), Self>(Error::FailedRip(FailedExtraction::Partial(errors))),
    {
        Err(Error::FailedRip(FailedExtraction::Partial(errors)))
    }

    /// Could not extract anything
    pub fn extraction_failure(errors: Vec<ExtractionError>) -> (r: Result<(), Self>)
        ensures
            r == Err::<(), Self>(Error::FailedRip(FailedExtraction::Total(errors))),
    {
        Err(Error::FailedRip(FailedExtraction::Total(errors)))
    }

    /// The sample could not be extracted to the desired format
    pub fn sample_format_error(error: &str) -> (r: Result<(), Self>)
        ensures
            r matches Err(Error::AudioFormat(m)) && m@ == error@,
    {
        Err(Error::AudioFormat(error.to_owned()))
    }

    /// Input/output error with a message
    pub fn io_error(error: &str) -> (r: Result<(), Self>)
        ensures
            r matches Err(Error::Io(m)) && m@ == error@,
    {
        Err(Error::Io(error.to_owned()))
    }

    /// The module is invalid
    pub fn invalid(error: &str) -> (r: Self)
        ensures
            r matches Error::InvalidModule(m) && m@ == error@,
    {
        Error::InvalidModule(error.to_owned())
    }

    /// The module appears to be valid, but it is unsupported
    pub fn unsupported(error: &str) -> (r: Self)
        ensures
            r matches Error::UnsupportedModule(m) && m@ == error@,
    {
        Error::UnsupportedModule(error.to_owned())
    }

    /// The sample metadata is invalid
    pub fn bad_sample(smp: &Sample) -> (r: Self)
        ensures
            r == (Error::BadSample {
                raw_index: smp.index_raw,
                pointer: smp.pointer,
                length: smp.length,
            }),
    {
        Error::BadSample { raw_index: smp.index_raw, pointer: smp.pointer, length: smp.length }
    }

    /// The sample could not be stored in the desired format
    pub fn audio_format(error: &str) -> (r: Self)
        ensures
            r matches Error::AudioFormat(m) && m@ == error@,
    {
        Error::AudioFormat(error.to_owned())
    }
}

/// The kind of failure that the specifications of the parsers speak of, with
/// the message of invalid and unsupported modules.
pub enum Fail {
    Io,
    Invalid(Seq<char>),
    Unsupported(Seq<char>),
    NoFormat,
    Other,
}

/// The kind of failure an error reports.
pub open spec fn fail_of(e: Error) -> Fail {
    match e {
        Error::Io(_) => Fail::Io,
        Error::InvalidModule(m) => Fail::Invalid(m@),
        Error::UnsupportedModule(m) => Fail::Unsupported(m@),
        Error::NoFormatFound => Fail::NoFormat,
        _ => Fail::Other,
    }
}

/// The error for data that ends before a field that must be read.
pub fn unexpected_eof() -> (e: Error)
    ensures
        fail_of(e) == Fail::Io,
        e matches Error::Io(m) && m@ == "failed to fill whole buffer"@,
{
    Error::Io("failed to fill whole buffer".to_owned())
}

/// The error for a destination directory that does not exist.
pub fn does_not_exist(path: &str) -> (r: Error)
    ensures
        r matches Error::Io(m) && m@ == "Directory '"@ + path@ + "' does not exist"@,
{
    Error::Io(concat3("Directory '", path, "' does not exist"))
}

/// The error for a destination directory that is not empty.
pub fn not_empty(path: &str) -> (r: Error)
    ensures
        r matches Error::Io(m) && m@ == "'"@ + path@ + "' is not empty"@,
{
    Error::Io(concat3("'", path, "' is not empty"))
}

/// The error for a module file larger than `max` bytes (given in whole MiB).
pub fn too_large(max: u64) -> (r: Error)
    ensures
        r matches Error::Io(m) && m@ == "File is larger than "@ + decimal((max / 1048576) as nat) + " MB"@,
{
    let digits = decimal_chars(max / 1048576);
    let d = string_from_chars(&digits);
    Error::Io(concat3("File is larger than ", d.as_str(), " MB"))
}

/// The error for a path without a file name.
pub fn no_filename() -> (r: Error)
    ensures
        r matches Error::Io(m) && m@ == "Could not obtain file name"@,
{
    Error::Io("Could not obtain file name".to_owned())
}

} // verus!
