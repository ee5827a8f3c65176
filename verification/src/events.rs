//! What the scanners report.

use vstd::prelude::*;

verus! {

/// A Bluetooth observation; absent fields were not part of it.
pub struct BtUpdate {
    pub address: String,
    pub name: Option<String>,
    pub rssi: Option<i16>,
    pub tx_power: Option<i16>,
    pub is_random: bool,
    pub icon: Option<String>,
    pub company_id: Option<u16>,
}

impl BtUpdate {
    /// An observation of `address` that carries nothing else.
    pub fn for_address(address: String) -> (r: Self)
        ensures
            r.address == address,
            r.name is None,
            r.rssi is None,
            r.tx_power is None,
            !r.is_random,
            r.icon is None,
            r.company_id is None,
    {
        BtUpdate {
            address,
            name: None,
            rssi: None,
            tx_power: None,
            is_random: false,
            icon: None,
            company_id: None,
        }
    }
}

/// A WiFi access point as a scan lists it; `S` is the signal-percentage
/// type.
pub struct WifiApUpdate<S> {
    pub bssid: String,
    pub ssid: Option<String>,
    pub signal_pct: Option<S>,
    pub freq: Option<String>,
    pub channel: Option<String>,
    pub security: Option<String>,
}

/// A WiFi client seen on the air.
pub struct WifiClientUpdate {
    pub mac: String,
    pub rssi: Option<i16>,
    pub probing_for: Option<String>,
}

/// A Sub-GHz reading above the noise floor.
pub struct SubGhzSignal {
    pub freq_hz: u32,
    pub rssi_dbm: i16,
    pub band: String,
}

} // verus!
