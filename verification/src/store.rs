//! Tracked devices and how each scanner report updates them.
//!
//! A device keeps its latest reading, a smoothed average of its readings
//! and, every few samples, a snapshot of that average from which the trend
//! is read. The averaging itself is done by a [`Smoothing`] type chosen by
//! the caller.

use vstd::prelude::*;

use crate::config::{AP_PREVEMA_EVERY, BT_PREVEMA_EVERY, CLIENT_PREVEMA_EVERY, SUBGHZ_PREVEMA_EVERY};
use crate::events::{BtUpdate, SubGhzSignal, WifiApUpdate, WifiClientUpdate};
use crate::table::{Keyed, Table};
use crate::text::{decimal, push_decimal, same_text};

verus! {

/// A smoothed signal value: started from a first reading, then blended with
/// each new one.
pub trait Smoothing: Sized + Copy {
    /// The value for a first reading in dBm.
    fn from_dbm(v: i16) -> Self;

    /// The value after `prev` takes in the reading `sample`.
    fn blend(prev: Self, sample: Self) -> Self;
}

/// `s` is a value [`Smoothing::from_dbm`] gives for the reading `r`.
pub open spec fn first_value<E: Smoothing>(r: i16, s: E) -> bool {
    call_ensures(E::from_dbm, (r,), s)
}

/// `e` is a value [`Smoothing::blend`] gives when `p` takes in `s`.
pub open spec fn blended<E: Smoothing>(p: E, s: E, e: E) -> bool {
    call_ensures(E::blend, (p, s), e)
}

/// One step of the smoothed value: with no reading nothing moves; with a
/// reading `s`, the count goes up, the value becomes `s` when there was
/// none and otherwise the old value blended with `s`, and the snapshot
/// becomes the value before the reading every `every` samples (none after
/// the first).
pub open spec fn smoothing_step<E: Smoothing>(
    sample: Option<E>,
    ema0: Option<E>,
    prev0: Option<E>,
    count0: u32,
    ema: Option<E>,
    prev: Option<E>,
    count: u32,
    every: u32,
) -> bool {
    match sample {
        None => ema == ema0 && prev == prev0 && count == count0,
        Some(s) => {
            &&& count == count0 + 1
            &&& match ema0 {
                None => ema == Some(s) && prev is None,
                Some(p) => {
                    &&& ema matches Some(e) && blended(p, s, e)
                    &&& prev == (if count % every == 0 {
                        Some(p)
                    } else {
                        prev0
                    })
                },
            }
        },
    }
}

/// [`smoothing_step`] for a reading in dBm, taken in through
/// [`Smoothing::from_dbm`].
pub open spec fn dbm_step<E: Smoothing>(
    reading: Option<i16>,
    ema0: Option<E>,
    prev0: Option<E>,
    count0: u32,
    ema: Option<E>,
    prev: Option<E>,
    count: u32,
    every: u32,
) -> bool {
    match reading {
        None => smoothing_step(None, ema0, prev0, count0, ema, prev, count, every),
        Some(r) => exists|s: E|
            #[trigger] first_value(r, s) && smoothing_step(Some(s), ema0, prev0, count0, ema, prev, count, every),
    }
}

fn smooth<E: Smoothing>(
    ema: Option<E>,
    prev: Option<E>,
    count: u32,
    sample: E,
    every: u32,
) -> (r: (Option<E>, Option<E>, u32))
    requires
        count < u32::MAX,
        every > 0,
    ensures
        smoothing_step(Some(sample), ema, prev, count, r.0, r.1, r.2, every),
{
    let n = count + 1;
    match ema {
        None => (Some(sample), None, n),
        Some(p) => {
            let snap = if n % every == 0 {
                Some(p)
            } else {
                prev
            };
            (Some(E::blend(p, sample)), snap, n)
        },
    }
}

// ---------------------------------------------------------------------------
// Bluetooth
// ---------------------------------------------------------------------------

/// A Bluetooth device; times in milliseconds.
pub struct BtDevice<E> {
    pub address: String,
    pub name: Option<String>,
    pub rssi: Option<i16>,
    pub tx_power: Option<i16>,
    pub ema: Option<E>,
    pub prev_ema: Option<E>,
    pub sample_count: u32,
    pub first_seen: u64,
    pub last_seen: u64,
    pub is_random: bool,
    pub icon: Option<String>,
    pub company_id: Option<u16>,
}

impl<E> Keyed for BtDevice<E> {
    open spec fn key(&self) -> Seq<char> {
        self.address@
    }

    open spec fn seen_at(&self) -> u64 {
        self.last_seen
    }

    fn has_key(&self, k: &str) -> (r: bool) {
        same_text(self.address.as_str(), k)
    }

    fn last_seen_ms(&self) -> (r: u64) {
        self.last_seen
    }

    fn same_key(&self, other: &Self) -> (r: bool) {
        self.address == other.address
    }
}

/// `u` when present, else `old`.
pub open spec fn newer<T>(u: Option<T>, old: Option<T>) -> Option<T> {
    match u {
        Some(x) => Some(x),
        None => old,
    }
}

/// The device a Bluetooth report turns `old` (or, for a new address,
/// nothing) into at time `now`.
pub open spec fn bt_merged<E: Smoothing>(old: Option<BtDevice<E>>, u: BtUpdate, now: u64, d: BtDevice<E>) -> bool {
    let name0 = match old { Some(o) => o.name, None => None };
    let rssi0 = match old { Some(o) => o.rssi, None => None };
    let tx0 = match old { Some(o) => o.tx_power, None => None };
    let ema0 = match old { Some(o) => o.ema, None => None };
    let prev0 = match old { Some(o) => o.prev_ema, None => None };
    let count0 = match old { Some(o) => o.sample_count, None => 0 };
    let first0 = match old { Some(o) => o.first_seen, None => now };
    let random0 = match old { Some(o) => o.is_random, None => false };
    let icon0 = match old { Some(o) => o.icon, None => None };
    let cid0 = match old { Some(o) => o.company_id, None => None };
    &&& d.address@ == u.address@
    &&& d.first_seen == first0
    &&& d.last_seen == now
    &&& d.is_random == (random0 || u.is_random)
    &&& d.icon == newer(u.icon, icon0)
    &&& d.company_id == newer(u.company_id, cid0)
    &&& d.name == newer(u.name, name0)
    &&& d.tx_power == newer(u.tx_power, tx0)
    &&& d.rssi == newer(u.rssi, rssi0)
    &&& dbm_step(u.rssi, ema0, prev0, count0, d.ema, d.prev_ema, d.sample_count, BT_PREVEMA_EVERY)
}

/// The entry for `k`, if any.
pub open spec fn entry_of<D>(m: Map<Seq<char>, D>, k: Seq<char>) -> Option<D> {
    if m.contains_key(k) {
        Some(m[k])
    } else {
        None
    }
}

/// Room for one more sample in the device `k`.
pub open spec fn can_count<D>(m: Map<Seq<char>, D>, k: Seq<char>, count: spec_fn(D) -> u32) -> bool {
    m.contains_key(k) ==> count(m[k]) < u32::MAX
}

/// Applies a Bluetooth report heard at `now_ms`.
pub fn apply_bt_update<E: Smoothing>(devices: &mut Table<BtDevice<E>>, update: BtUpdate, now_ms: u64)
    requires
        can_count(old(devices).map(), update.address@, |d: BtDevice<E>| d.sample_count),
    ensures
        final(devices).map().contains_key(update.address@),
        bt_merged(
            entry_of(old(devices).map(), update.address@),
            update,
            now_ms,
            final(devices).map()[update.address@],
        ),
        forall|k: Seq<char>|
            k != update.address@ ==> (#[trigger] final(devices).map().contains_key(k)
                == old(devices).map().contains_key(k)),
        forall|k: Seq<char>|
            k != update.address@ && #[trigger] final(devices).map().contains_key(k)
                ==> final(devices).map()[k] == old(devices).map()[k],
{
    let ghost u = update;
    let pos = devices.position(update.address.as_str());
    let old_dev: Option<BtDevice<E>> = match pos {
        Some(i) => Some(devices.remove_at(i)),
        None => None,
    };
    let mut d = match old_dev {
        Some(o) => o,
        None => BtDevice {
            address: update.address,
            name: None,
            rssi: None,
            tx_power: None,
            ema: None,
            prev_ema: None,
            sample_count: 0,
            first_seen: now_ms,
            last_seen: now_ms,
            is_random: false,
            icon: None,
            company_id: None,
        },
    };
    let ghost base = d;
    d.last_seen = now_ms;
    if update.is_random {
        d.is_random = true;
    }
    if update.icon.is_some() {
        d.icon = update.icon;
    }
    if update.company_id.is_some() {
        d.company_id = update.company_id;
    }
    if let Some(name) = update.name {
        d.name = Some(name);
    }
    if let Some(rssi) = update.rssi {
        d.rssi = Some(rssi);
        let sample = E::from_dbm(rssi);
        let (e, p, n) = smooth(d.ema, d.prev_ema, d.sample_count, sample, BT_PREVEMA_EVERY);
        proof {
            assert(first_value(rssi, sample));
        }
        d.ema = e;
        d.prev_ema = p;
        d.sample_count = n;
    }
    if let Some(tp) = update.tx_power {
        d.tx_power = Some(tp);
    }
    match pos {
        Some(i) => devices.put_at(i, d),
        None => devices.put(d),
    }
}


// ---------------------------------------------------------------------------
// WiFi
// ---------------------------------------------------------------------------

/// Access point or client.
#[derive(Debug, Clone, Copy, PartialEq, Eq, Structural)]
pub enum WifiKind {
    Ap,
    Client,
}

/// A WiFi access point or client; times in milliseconds.
pub struct WifiDevice<E> {
    pub mac: String,
    pub kind: WifiKind,
    pub ssid: Option<String>,
    pub freq: Option<String>,
    pub channel: Option<String>,
    pub security: Option<String>,
    pub signal_pct: Option<E>,
    pub probing_for: Option<String>,
    pub rssi: Option<i16>,
    pub ema: Option<E>,
    pub prev_ema: Option<E>,
    pub sample_count: u32,
    pub first_seen: u64,
    pub last_seen: u64,
}

impl<E> Keyed for WifiDevice<E> {
    open spec fn key(&self) -> Seq<char> {
        self.mac@
    }

    open spec fn seen_at(&self) -> u64 {
        self.last_seen
    }

    fn has_key(&self, k: &str) -> (r: bool) {
        same_text(self.mac.as_str(), k)
    }

    fn last_seen_ms(&self) -> (r: u64) {
        self.last_seen
    }

    fn same_key(&self, other: &Self) -> (r: bool) {
        self.mac == other.mac
    }
}

fn fresh_wifi<E>(mac: String, kind: WifiKind, now_ms: u64) -> (d: WifiDevice<E>)
    ensures
        d.mac == mac,
        d.kind == kind,
        d.ssid is None && d.freq is None && d.channel is None && d.security is None,
        d.signal_pct is None && d.probing_for is None && d.rssi is None,
        d.ema is None && d.prev_ema is None && d.sample_count == 0,
        d.first_seen == now_ms && d.last_seen == now_ms,
{
    WifiDevice {
        mac,
        kind,
        ssid: None,
        freq: None,
        channel: None,
        security: None,
        signal_pct: None,
        probing_for: None,
        rssi: None,
        ema: None,
        prev_ema: None,
        sample_count: 0,
        first_seen: now_ms,
        last_seen: now_ms,
    }
}

/// The device an access-point report turns `old` (or, for a new BSSID,
/// nothing) into at time `now`: the listing's fields replace the stored
/// ones, the signal percentage is a sample.
pub open spec fn ap_merged<E: Smoothing>(
    old: Option<WifiDevice<E>>,
    u: WifiApUpdate<E>,
    now: u64,
    d: WifiDevice<E>,
) -> bool {
    let sig0 = match old { Some(o) => o.signal_pct, None => None };
    let probe0 = match old { Some(o) => o.probing_for, None => None };
    let rssi0 = match old { Some(o) => o.rssi, None => None };
    let ema0 = match old { Some(o) => o.ema, None => None };
    let prev0 = match old { Some(o) => o.prev_ema, None => None };
    let count0 = match old { Some(o) => o.sample_count, None => 0 };
    let first0 = match old { Some(o) => o.first_seen, None => now };
    &&& d.mac@ == u.bssid@
    &&& d.kind == WifiKind::Ap
    &&& d.first_seen == first0
    &&& d.last_seen == now
    &&& d.ssid == u.ssid
    &&& d.freq == u.freq
    &&& d.channel == u.channel
    &&& d.security == u.security
    &&& d.signal_pct == newer(u.signal_pct, sig0)
    &&& d.probing_for == probe0
    &&& d.rssi == rssi0
    &&& smoothing_step(u.signal_pct, ema0, prev0, count0, d.ema, d.prev_ema, d.sample_count, AP_PREVEMA_EVERY)
}

/// The device a client report turns `old` (or, for a new address, nothing)
/// into at time `now`.
pub open spec fn client_merged<E: Smoothing>(
    old: Option<WifiDevice<E>>,
    u: WifiClientUpdate,
    now: u64,
    d: WifiDevice<E>,
) -> bool {
    let ssid0 = match old { Some(o) => o.ssid, None => None };
    let freq0 = match old { Some(o) => o.freq, None => None };
    let chan0 = match old { Some(o) => o.channel, None => None };
    let sec0 = match old { Some(o) => o.security, None => None };
    let sig0 = match old { Some(o) => o.signal_pct, None => None };
    let probe0 = match old { Some(o) => o.probing_for, None => None };
    let rssi0 = match old { Some(o) => o.rssi, None => None };
    let ema0 = match old { Some(o) => o.ema, None => None };
    let prev0 = match old { Some(o) => o.prev_ema, None => None };
    let count0 = match old { Some(o) => o.sample_count, None => 0 };
    let first0 = match old { Some(o) => o.first_seen, None => now };
    &&& d.mac@ == u.mac@
    &&& d.kind == WifiKind::Client
    &&& d.first_seen == first0
    &&& d.last_seen == now
    &&& d.ssid == ssid0
    &&& d.freq == freq0
    &&& d.channel == chan0
    &&& d.security == sec0
    &&& d.signal_pct == sig0
    &&& d.probing_for == newer(u.probing_for, probe0)
    &&& d.rssi == newer(u.rssi, rssi0)
    &&& dbm_step(u.rssi, ema0, prev0, count0, d.ema, d.prev_ema, d.sample_count, CLIENT_PREVEMA_EVERY)
}

/// Applies an access-point listing heard at `now_ms`.
pub fn apply_wifi_ap_update<E: Smoothing>(
    devices: &mut Table<WifiDevice<E>>,
    update: WifiApUpdate<E>,
    now_ms: u64,
)
    requires
        can_count(old(devices).map(), update.bssid@, |d: WifiDevice<E>| d.sample_count),
    ensures
        final(devices).map().contains_key(update.bssid@),
        ap_merged(
            entry_of(old(devices).map(), update.bssid@),
            update,
            now_ms,
            final(devices).map()[update.bssid@],
        ),
        forall|k: Seq<char>|
            k != update.bssid@ ==> (#[trigger] final(devices).map().contains_key(k)
                == old(devices).map().contains_key(k)),
        forall|k: Seq<char>|
            k != update.bssid@ && #[trigger] final(devices).map().contains_key(k)
                ==> final(devices).map()[k] == old(devices).map()[k],
{
    let pos = devices.position(update.bssid.as_str());
    let old_dev: Option<WifiDevice<E>> = match pos {
        Some(i) => Some(devices.remove_at(i)),
        None => None,
    };
    let mut d = match old_dev {
        Some(o) => o,
        None => fresh_wifi(update.bssid, WifiKind::Ap, now_ms),
    };
    d.last_seen = now_ms;
    d.kind = WifiKind::Ap;
    d.ssid = update.ssid;
    d.freq = update.freq;
    d.channel = update.channel;
    d.security = update.security;
    if let Some(sig) = update.signal_pct {
        d.signal_pct = Some(sig);
        let (e, p, n) = smooth(d.ema, d.prev_ema, d.sample_count, sig, AP_PREVEMA_EVERY);
        d.ema = e;
        d.prev_ema = p;
        d.sample_count = n;
    }
    match pos {
        Some(i) => devices.put_at(i, d),
        None => devices.put(d),
    }
}

/// Applies a client sighting heard at `now_ms`.
pub fn apply_wifi_client_update<E: Smoothing>(
    devices: &mut Table<WifiDevice<E>>,
    update: WifiClientUpdate,
    now_ms: u64,
)
    requires
        can_count(old(devices).map(), update.mac@, |d: WifiDevice<E>| d.sample_count),
    ensures
        final(devices).map().contains_key(update.mac@),
        client_merged(
            entry_of(old(devices).map(), update.mac@),
            update,
            now_ms,
            final(devices).map()[update.mac@],
        ),
        forall|k: Seq<char>|
            k != update.mac@ ==> (#[trigger] final(devices).map().contains_key(k)
                == old(devices).map().contains_key(k)),
        forall|k: Seq<char>|
            k != update.mac@ && #[trigger] final(devices).map().contains_key(k)
                ==> final(devices).map()[k] == old(devices).map()[k],
{
    let pos = devices.position(update.mac.as_str());
    let old_dev: Option<WifiDevice<E>> = match pos {
        Some(i) => Some(devices.remove_at(i)),
        None => None,
    };
    let mut d = match old_dev {
        Some(o) => o,
        None => fresh_wifi(update.mac, WifiKind::Client, now_ms),
    };
    d.last_seen = now_ms;
    d.kind = WifiKind::Client;
    if let Some(ssid) = update.probing_for {
        d.probing_for = Some(ssid);
    }
    if let Some(rssi) = update.rssi {
        d.rssi = Some(rssi);
        let sample = E::from_dbm(rssi);
        let (e, p, n) = smooth(d.ema, d.prev_ema, d.sample_count, sample, CLIENT_PREVEMA_EVERY);
        proof {
            assert(first_value(rssi, sample));
        }
        d.ema = e;
        d.prev_ema = p;
        d.sample_count = n;
    }
    match pos {
        Some(i) => devices.put_at(i, d),
        None => devices.put(d),
    }
}

// ---------------------------------------------------------------------------
// Sub-GHz
// ---------------------------------------------------------------------------

/// A Sub-GHz frequency with activity; times in milliseconds.
pub struct SubGhzDevice<E> {
    pub freq_hz: u32,
    pub rssi: i16,
    pub ema: Option<E>,
    pub prev_ema: Option<E>,
    pub sample_count: u32,
    pub band: String,
    pub first_seen: u64,
    pub last_seen: u64,
}

/// The decimal text of a frequency in Hz, the id a Sub-GHz signal is
/// tracked and named under.
pub fn freq_key(freq_hz: u32) -> (r: String)
    ensures
        r@ == decimal(freq_hz as nat),
{
    let mut s = String::new();
    push_decimal(&mut s, freq_hz as u64);
    assert(Seq::<char>::empty() + decimal(freq_hz as nat) =~= decimal(freq_hz as nat));
    s
}

impl<E> Keyed for SubGhzDevice<E> {
    open spec fn key(&self) -> Seq<char> {
        decimal(self.freq_hz as nat)
    }

    open spec fn seen_at(&self) -> u64 {
        self.last_seen
    }

    fn has_key(&self, k: &str) -> (r: bool) {
        let mine = freq_key(self.freq_hz);
        same_text(mine.as_str(), k)
    }

    fn last_seen_ms(&self) -> (r: u64) {
        self.last_seen
    }

    fn same_key(&self, other: &Self) -> (r: bool) {
        proof {
            lemma_decimal_injective(self.freq_hz as nat, other.freq_hz as nat);
        }
        self.freq_hz == other.freq_hz
    }
}

proof fn lemma_decimal_len(n: nat)
    ensures
        decimal(n).len() >= 1,
        n >= 10 ==> decimal(n).len() >= 2,
    decreases n,
{
    if n >= 10 {
        lemma_decimal_len(n / 10);
    }
}

/// Different numbers have different decimal texts.
pub proof fn lemma_decimal_injective(a: nat, b: nat)
    ensures
        decimal(a) == decimal(b) ==> a == b,
    decreases a + b,
{
    if decimal(a) == decimal(b) {
        lemma_decimal_len(a);
        lemma_decimal_len(b);
        if a < 10 && b < 10 {
            assert(decimal(a)[0] == decimal(b)[0]);
        } else if a >= 10 && b >= 10 {
            assert(decimal(a).drop_last() =~= decimal(a / 10));
            assert(decimal(b).drop_last() =~= decimal(b / 10));
            lemma_decimal_injective(a / 10, b / 10);
            assert(decimal(a).last() == decimal(b).last());
        } else if a < 10 {
            assert(decimal(b).len() >= 2);
        } else {
            assert(decimal(a).len() >= 2);
        }
    }
}

/// The device a Sub-GHz reading turns `old` (or, for a new frequency,
/// nothing) into at time `now`; the band is the one of the first reading.
pub open spec fn subghz_merged<E: Smoothing>(
    old: Option<SubGhzDevice<E>>,
    s: SubGhzSignal,
    now: u64,
    d: SubGhzDevice<E>,
) -> bool {
    let ema0 = match old { Some(o) => o.ema, None => None };
    let prev0 = match old { Some(o) => o.prev_ema, None => None };
    let count0 = match old { Some(o) => o.sample_count, None => 0 };
    let first0 = match old { Some(o) => o.first_seen, None => now };
    let band0 = match old { Some(o) => o.band@, None => s.band@ };
    &&& d.freq_hz == s.freq_hz
    &&& d.rssi == s.rssi_dbm
    &&& d.band@ == band0
    &&& d.first_seen == first0
    &&& d.last_seen == now
    &&& dbm_step(Some(s.rssi_dbm), ema0, prev0, count0, d.ema, d.prev_ema, d.sample_count, SUBGHZ_PREVEMA_EVERY)
}

/// Applies a Sub-GHz reading heard at `now_ms`.
pub fn apply_subghz_update<E: Smoothing>(devices: &mut Table<SubGhzDevice<E>>, sig: SubGhzSignal, now_ms: u64)
    requires
        can_count(old(devices).map(), decimal(sig.freq_hz as nat), |d: SubGhzDevice<E>| d.sample_count),
    ensures
        final(devices).map().contains_key(decimal(sig.freq_hz as nat)),
        subghz_merged(
            entry_of(old(devices).map(), decimal(sig.freq_hz as nat)),
            sig,
            now_ms,
            final(devices).map()[decimal(sig.freq_hz as nat)],
        ),
        forall|k: Seq<char>|
            k != decimal(sig.freq_hz as nat) ==> (#[trigger] final(devices).map().contains_key(k)
                == old(devices).map().contains_key(k)),
        forall|k: Seq<char>|
            k != decimal(sig.freq_hz as nat) && #[trigger] final(devices).map().contains_key(k)
                ==> final(devices).map()[k] == old(devices).map()[k],
{
    let key = freq_key(sig.freq_hz);
    let pos = devices.position(key.as_str());
    let old_dev: Option<SubGhzDevice<E>> = match pos {
        Some(i) => Some(devices.remove_at(i)),
        None => None,
    };
    let mut d = match old_dev {
        Some(o) => o,
        None => SubGhzDevice {
            freq_hz: sig.freq_hz,
            rssi: sig.rssi_dbm,
            ema: None,
            prev_ema: None,
            sample_count: 0,
            band: sig.band,
            first_seen: now_ms,
            last_seen: now_ms,
        },
    };
    proof {
        lemma_decimal_injective(d.freq_hz as nat, sig.freq_hz as nat);
    }
    d.last_seen = now_ms;
    d.rssi = sig.rssi_dbm;
    let sample = E::from_dbm(sig.rssi_dbm);
    let (e, p, n) = smooth(d.ema, d.prev_ema, d.sample_count, sample, SUBGHZ_PREVEMA_EVERY);
    proof {
        let reading = Some(sig.rssi_dbm);
        assert(first_value(reading->0, sample));
        assert(dbm_step(reading, d.ema, d.prev_ema, d.sample_count, e, p, n, SUBGHZ_PREVEMA_EVERY));
    }
    d.ema = e;
    d.prev_ema = p;
    d.sample_count = n;
    match pos {
        Some(i) => devices.put_at(i, d),
        None => devices.put(d),
    }
}

} // verus!
