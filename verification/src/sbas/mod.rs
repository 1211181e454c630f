use vstd::prelude::*;

pub mod decoder;

pub use decoder::SbasDecoder;

verus! {

/// A framed SBAS message: the broadcasting PRN, the 6-bit message type and
/// the 212 data bits that follow it, packed into 27 bytes (the last 4 bits
/// in the high half of the last byte).
#[derive(Debug, Clone)]
pub struct SbasMessage {
    pub prn: u8,
    pub message_type: u8,
    pub data: Vec<u8>,
}

} // verus!
