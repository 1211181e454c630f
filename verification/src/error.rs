use vstd::prelude::*;

verus! {

/// The standard library's I/O error, carried through unchanged.
#[verifier::external_type_specification]
#[verifier::external_body]
pub struct ExIoError(std::io::Error);

/// Errors of the receiver.
#[derive(Debug)]
pub enum Error {
    RtlSdr(String),
    AcquisitionFailed(u8),
    TrackingLost(u8),
    NavMessageDecode(String),
    InsufficientSatellites(usize),
    SolverFailed(String),
    SbasDecode(String),
    Config(String),
    Io(std::io::Error),
    Other(String),
}

pub type Result<T> = core::result::Result<T, Error>;

} // verus!
