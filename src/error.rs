use vstd::prelude::*;

verus! {

/// The ways a composition run can fail.
#[derive(Debug)]
pub enum Error {
    /// The inputs break a precondition of the run (empty image set, zero
    /// stripe width, mismatched geometry, unsupported pixel layout, ...).
    InvalidInput(String),
    /// The image codec failed to read or write a stream.
    Codec(String),
    /// The resampler refused the requested dimensions or buffer.
    Resample(String),
    /// The automatic stripe-width search reached its step bound.
    SearchExhausted,
    /// Reading or writing a stream failed.
    Io(String),
}

/// Result type of the library.
pub type Result<T> = core::result::Result<T, Error>;

} // verus!
