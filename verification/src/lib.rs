//! Verified core of a GPS L1 C/A receiver: Gold code generation, navigation
//! message framing, SBAS message framing, NMEA checksums and the integer
//! decisions of the tracking channels and the PPS output.

pub mod config;
pub mod constants;
pub mod error;
pub mod gps;
pub mod navigation;
pub mod output;
pub mod receiver;
pub mod sbas;
pub mod text;

pub use error::{Error, Result};
