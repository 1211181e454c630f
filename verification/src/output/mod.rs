pub mod json;
pub mod nmea;
pub mod pps;

pub use json::FixQuality;
pub use nmea::NmeaGenerator;
pub use pps::PpsGenerator;
