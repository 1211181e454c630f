use vstd::prelude::*;

verus! {

/// GPS C/A code length (chips)
pub const GPS_CA_CODE_LENGTH: usize = 1023;

/// Number of GPS satellites (PRN 1-32)
pub const NUM_GPS_SATELLITES: usize = 32;

/// Lowest SBAS PRN
pub const SBAS_PRN_MIN: u8 = 120;

/// Highest SBAS PRN
pub const SBAS_PRN_MAX: u8 = 158;

/// Sample rate for RTL-SDR (Hz)
pub const SAMPLE_RATE_HZ: u32 = 2_048_000;

/// GPS epoch (1980-01-06 00:00:00 UTC) in Unix seconds
pub const GPS_EPOCH_UNIX: i64 = 315_964_800;

/// GPS week rollover (weeks since 1980-01-06)
pub const GPS_WEEK_ROLLOVER: u32 = 2048;

/// Bits per subframe
pub const BITS_PER_SUBFRAME: usize = 300;

/// Number of coherent integrations for acquisition
pub const ACQUISITION_COHERENT_MS: usize = 1;

/// Integration time for tracking (ms)
pub const TRACKING_INTEGRATION_MS: usize = 1;

/// CN0 estimation window (ms)
pub const CN0_WINDOW_MS: usize = 1000;

} // verus!
