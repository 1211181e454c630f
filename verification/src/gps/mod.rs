pub mod ca_code;
pub mod nav_message;
pub mod tracking;

pub use ca_code::CaCodeGenerator;
pub use nav_message::NavMessage;
pub use tracking::{ChannelState, NavBitSync, TrackingLock};
