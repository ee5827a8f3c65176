//! Verified core of a tri-band wireless scanner: vendor lookup tables,
//! line-oriented parsers for scanner output, device tracking and the
//! interactive view state.

pub mod text;
pub mod oui;
pub mod ble;
pub mod names;
pub mod util;
pub mod signal;
pub mod config;
pub mod table;
pub mod events;
pub mod store;
pub mod radiotap;
pub mod elements;
pub mod sniffer;
pub mod bluetooth;
pub mod ap_scan;
pub mod subghz;
pub mod tui;
pub mod order;
pub mod session;
pub mod monitor;
pub mod export;
pub mod laws;
