//! Decision logic of a 4G GPS tracker: everything the firmware computes or decides between two
//! accesses to its hardware.

pub mod clock;
pub mod exchange_laws;
pub mod gps;
pub mod http;
pub mod led;
pub mod power;
pub mod rx;
pub mod rx_laws;
pub mod session;
pub mod session_laws;
pub mod system_info;
pub mod text;
pub mod tracker;
pub mod tracker_laws;
