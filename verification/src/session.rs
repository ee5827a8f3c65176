//! The devices of a scanning session and how scanner reports, the clock and
//! the user's clearing change them; which devices a tab lists, and which of
//! them are stale.

use vstd::prelude::*;

use crate::config::{AP_STALE_MS, BT_STALE_MS, CLIENT_STALE_MS, DROP_MS};
use crate::events::{BtUpdate, SubGhzSignal, WifiApUpdate, WifiClientUpdate};
use crate::store::{
    ap_merged, apply_bt_update, apply_subghz_update, apply_wifi_ap_update,
    apply_wifi_client_update, bt_merged, can_count, client_merged, entry_of, subghz_merged,
    BtDevice, Smoothing, SubGhzDevice, WifiDevice, WifiKind,
};
use crate::table::{recent, Keyed, Table};
use crate::text::decimal;
use crate::tui::Tab;

verus! {

/// `after` is `before` with the entry `k` written and every other entry
/// as it was.
pub open spec fn only_key_changed<D>(before: Map<Seq<char>, D>, k: Seq<char>, after: Map<Seq<char>, D>) -> bool {
    &&& after.contains_key(k)
    &&& forall|j: Seq<char>|
        j != k ==> (#[trigger] after.contains_key(j) == before.contains_key(j))
    &&& forall|j: Seq<char>|
        j != k && #[trigger] after.contains_key(j) ==> after[j] == before[j]
}

/// The Bluetooth devices after the report `u` at `now`.
pub open spec fn bt_applied<E: Smoothing>(
    before: Map<Seq<char>, BtDevice<E>>,
    u: BtUpdate,
    now: u64,
    after: Map<Seq<char>, BtDevice<E>>,
) -> bool {
    &&& only_key_changed(before, u.address@, after)
    &&& bt_merged(entry_of(before, u.address@), u, now, after[u.address@])
}

/// The WiFi devices after the access-point report `u` at `now`.
pub open spec fn ap_applied<E: Smoothing>(
    before: Map<Seq<char>, WifiDevice<E>>,
    u: WifiApUpdate<E>,
    now: u64,
    after: Map<Seq<char>, WifiDevice<E>>,
) -> bool {
    &&& only_key_changed(before, u.bssid@, after)
    &&& ap_merged(entry_of(before, u.bssid@), u, now, after[u.bssid@])
}

/// The WiFi devices after the client sighting `u` at `now`.
pub open spec fn client_applied<E: Smoothing>(
    before: Map<Seq<char>, WifiDevice<E>>,
    u: WifiClientUpdate,
    now: u64,
    after: Map<Seq<char>, WifiDevice<E>>,
) -> bool {
    &&& only_key_changed(before, u.mac@, after)
    &&& client_merged(entry_of(before, u.mac@), u, now, after[u.mac@])
}

/// The Sub-GHz frequencies after the reading `s` at `now`.
pub open spec fn subghz_applied<E: Smoothing>(
    before: Map<Seq<char>, SubGhzDevice<E>>,
    s: SubGhzSignal,
    now: u64,
    after: Map<Seq<char>, SubGhzDevice<E>>,
) -> bool {
    let k = decimal(s.freq_hz as nat);
    &&& only_key_changed(before, k, after)
    &&& subghz_merged(entry_of(before, k), s, now, after[k])
}

/// `after` keeps exactly the entries of `before` heard within the drop
/// time before `now`.
pub open spec fn pruned<D: Keyed>(before: Map<Seq<char>, D>, now: u64, after: Map<Seq<char>, D>) -> bool {
    &&& forall|k: Seq<char>|
        #[trigger] after.contains_key(k) <==> before.contains_key(k) && recent(
            before[k].seen_at(),
            now,
            DROP_MS,
        )
    &&& forall|k: Seq<char>| #[trigger] after.contains_key(k) ==> after[k] == before[k]
}

/// The band of `tab` has the same devices and report count in `a` and `b`.
pub open spec fn band_same<E>(a: Tracker<E>, b: Tracker<E>, tab: Tab) -> bool {
    match tab {
        Tab::Bt => a.bt.map() == b.bt.map() && a.bt_updates == b.bt_updates,
        Tab::Wifi => a.wifi.map() == b.wifi.map() && a.wifi_updates == b.wifi_updates,
        Tab::SubGhz => a.subghz.map() == b.subghz.map() && a.subghz_updates == b.subghz_updates,
    }
}

/// The band of `tab` has no devices and no reports in `t`.
pub open spec fn band_empty<E>(t: Tracker<E>, tab: Tab) -> bool {
    match tab {
        Tab::Bt => t.bt.map() == Map::<Seq<char>, BtDevice<E>>::empty() && t.bt_updates == 0,
        Tab::Wifi => t.wifi.map() == Map::<Seq<char>, WifiDevice<E>>::empty() && t.wifi_updates == 0,
        Tab::SubGhz => t.subghz.map() == Map::<Seq<char>, SubGhzDevice<E>>::empty()
            && t.subghz_updates == 0,
    }
}

/// The devices of the three bands and how many reports each band took.
pub struct Tracker<E> {
    pub bt: Table<BtDevice<E>>,
    pub wifi: Table<WifiDevice<E>>,
    pub subghz: Table<SubGhzDevice<E>>,
    pub bt_updates: u64,
    pub wifi_updates: u64,
    pub subghz_updates: u64,
}

impl<E: Smoothing> Tracker<E> {
    /// No devices, no reports.
    pub fn new() -> (r: Self)
        ensures
            r.bt.map() == Map::<Seq<char>, BtDevice<E>>::empty(),
            r.wifi.map() == Map::<Seq<char>, WifiDevice<E>>::empty(),
            r.subghz.map() == Map::<Seq<char>, SubGhzDevice<E>>::empty(),
            r.bt_updates == 0 && r.wifi_updates == 0 && r.subghz_updates == 0,
    {
        Tracker {
            bt: Table::new(),
            wifi: Table::new(),
            subghz: Table::new(),
            bt_updates: 0,
            wifi_updates: 0,
            subghz_updates: 0,
        }
    }

    /// Whether the Bluetooth report `u` can be counted: its device has
    /// room for another sample and the report count room for one more.
    pub fn bt_has_room(&self, u: &BtUpdate) -> (r: bool)
        ensures
            r == (can_count(self.bt.map(), u.address@, |d: BtDevice<E>| d.sample_count)
                && self.bt_updates < u64::MAX),
    {
        let room = match self.bt.get(u.address.as_str()) {
            Some(d) => d.sample_count < u32::MAX,
            None => true,
        };
        room && self.bt_updates < u64::MAX
    }

    /// Whether the access-point report `u` can be counted.
    pub fn ap_has_room(&self, u: &WifiApUpdate<E>) -> (r: bool)
        ensures
            r == (can_count(self.wifi.map(), u.bssid@, |d: WifiDevice<E>| d.sample_count)
                && self.wifi_updates < u64::MAX),
    {
        let room = match self.wifi.get(u.bssid.as_str()) {
            Some(d) => d.sample_count < u32::MAX,
            None => true,
        };
        room && self.wifi_updates < u64::MAX
    }

    /// Whether the client sighting `u` can be counted.
    pub fn client_has_room(&self, u: &WifiClientUpdate) -> (r: bool)
        ensures
            r == (can_count(self.wifi.map(), u.mac@, |d: WifiDevice<E>| d.sample_count)
                && self.wifi_updates < u64::MAX),
    {
        let room = match self.wifi.get(u.mac.as_str()) {
            Some(d) => d.sample_count < u32::MAX,
            None => true,
        };
        room && self.wifi_updates < u64::MAX
    }

    /// Whether the Sub-GHz reading `s` can be counted.
    pub fn subghz_has_room(&self, s: &SubGhzSignal) -> (r: bool)
        ensures
            r == (can_count(
                self.subghz.map(),
                decimal(s.freq_hz as nat),
                |d: SubGhzDevice<E>| d.sample_count,
            ) && self.subghz_updates < u64::MAX),
    {
        let key = crate::store::freq_key(s.freq_hz);
        let room = match self.subghz.get(key.as_str()) {
            Some(d) => d.sample_count < u32::MAX,
            None => true,
        };
        room && self.subghz_updates < u64::MAX
    }

    /// Takes a Bluetooth report heard at `now_ms`, unless updates are
    /// `paused`; a taken report is counted.
    pub fn on_bt(&mut self, paused: bool, u: BtUpdate, now_ms: u64)
        requires
            !paused ==> can_count(old(self).bt.map(), u.address@, |d: BtDevice<E>| d.sample_count)
                && old(self).bt_updates < u64::MAX,
        ensures
            paused ==> band_same(*old(self), *final(self), Tab::Bt),
            !paused ==> bt_applied(old(self).bt.map(), u, now_ms, final(self).bt.map())
                && final(self).bt_updates == old(self).bt_updates + 1,
            band_same(*old(self), *final(self), Tab::Wifi),
            band_same(*old(self), *final(self), Tab::SubGhz),
    {
        if !paused {
            apply_bt_update(&mut self.bt, u, now_ms);
            self.bt_updates = self.bt_updates + 1;
        }
    }

    /// Takes an access-point report heard at `now_ms`, unless `paused`.
    pub fn on_wifi_ap(&mut self, paused: bool, u: WifiApUpdate<E>, now_ms: u64)
        requires
            !paused ==> can_count(old(self).wifi.map(), u.bssid@, |d: WifiDevice<E>| d.sample_count)
                && old(self).wifi_updates < u64::MAX,
        ensures
            paused ==> band_same(*old(self), *final(self), Tab::Wifi),
            !paused ==> ap_applied(old(self).wifi.map(), u, now_ms, final(self).wifi.map())
                && final(self).wifi_updates == old(self).wifi_updates + 1,
            band_same(*old(self), *final(self), Tab::Bt),
            band_same(*old(self), *final(self), Tab::SubGhz),
    {
        if !paused {
            apply_wifi_ap_update(&mut self.wifi, u, now_ms);
            self.wifi_updates = self.wifi_updates + 1;
        }
    }

    /// Takes a client sighting heard at `now_ms`, unless `paused`.
    pub fn on_wifi_client(&mut self, paused: bool, u: WifiClientUpdate, now_ms: u64)
        requires
            !paused ==> can_count(old(self).wifi.map(), u.mac@, |d: WifiDevice<E>| d.sample_count)
                && old(self).wifi_updates < u64::MAX,
        ensures
            paused ==> band_same(*old(self), *final(self), Tab::Wifi),
            !paused ==> client_applied(old(self).wifi.map(), u, now_ms, final(self).wifi.map())
                && final(self).wifi_updates == old(self).wifi_updates + 1,
            band_same(*old(self), *final(self), Tab::Bt),
            band_same(*old(self), *final(self), Tab::SubGhz),
    {
        if !paused {
            apply_wifi_client_update(&mut self.wifi, u, now_ms);
            self.wifi_updates = self.wifi_updates + 1;
        }
    }

    /// Takes a Sub-GHz reading heard at `now_ms`, unless `paused`.
    pub fn on_subghz(&mut self, paused: bool, s: SubGhzSignal, now_ms: u64)
        requires
            !paused ==> can_count(
                old(self).subghz.map(),
                decimal(s.freq_hz as nat),
                |d: SubGhzDevice<E>| d.sample_count,
            ) && old(self).subghz_updates < u64::MAX,
        ensures
            paused ==> band_same(*old(self), *final(self), Tab::SubGhz),
            !paused ==> subghz_applied(old(self).subghz.map(), s, now_ms, final(self).subghz.map())
                && final(self).subghz_updates == old(self).subghz_updates + 1,
            band_same(*old(self), *final(self), Tab::Bt),
            band_same(*old(self), *final(self), Tab::Wifi),
    {
        if !paused {
            apply_subghz_update(&mut self.subghz, s, now_ms);
            self.subghz_updates = self.subghz_updates + 1;
        }
    }

    /// The clock's tick at `now_ms`: every band forgets the devices not
    /// heard within the drop time.
    pub fn on_tick(&mut self, now_ms: u64)
        ensures
            pruned(old(self).bt.map(), now_ms, final(self).bt.map()),
            pruned(old(self).wifi.map(), now_ms, final(self).wifi.map()),
            pruned(old(self).subghz.map(), now_ms, final(self).subghz.map()),
            final(self).bt_updates == old(self).bt_updates,
            final(self).wifi_updates == old(self).wifi_updates,
            final(self).subghz_updates == old(self).subghz_updates,
    {
        self.bt.retain_recent(now_ms, DROP_MS);
        self.wifi.retain_recent(now_ms, DROP_MS);
        self.subghz.retain_recent(now_ms, DROP_MS);
    }

    /// Forgets the devices of the tab `tab` and its report count.
    pub fn clear(&mut self, tab: Tab)
        ensures
            band_empty(*final(self), tab),
            forall|other: Tab| other != tab ==> band_same(*old(self), *final(self), other),
    {
        match tab {
            Tab::Bt => {
                self.bt.clear();
                self.bt_updates = 0;
            },
            Tab::Wifi => {
                self.wifi.clear();
                self.wifi_updates = 0;
            },
            Tab::SubGhz => {
                self.subghz.clear();
                self.subghz_updates = 0;
            },
        }
    }
}

// ---------------------------------------------------------------------------
// Listed devices
// ---------------------------------------------------------------------------

/// Milliseconds since `seen` at `now` (none when `seen` is later).
pub open spec fn age(seen: u64, now: u64) -> int {
    if now >= seen {
        now - seen
    } else {
        0
    }
}

/// Whether a Bluetooth device is listed at `now`: it has a signal average
/// and was heard within the drop time (inclusive).
pub open spec fn bt_listed<E>(d: BtDevice<E>, now: u64) -> bool {
    d.ema is Some && age(d.last_seen, now) <= DROP_MS
}

/// Whether a WiFi device is listed at `now`: it has a signal (percentage
/// for an access point, level for a client) or an average, and was heard
/// within the drop time (inclusive).
pub open spec fn wifi_listed<E>(d: WifiDevice<E>, now: u64) -> bool {
    let has_sig = match d.kind {
        WifiKind::Ap => d.signal_pct is Some,
        WifiKind::Client => d.rssi is Some,
    };
    (has_sig || d.ema is Some) && age(d.last_seen, now) <= DROP_MS
}

/// The time after which a WiFi device of kind `k` is stale.
pub open spec fn wifi_stale_ms(k: WifiKind) -> u64 {
    match k {
        WifiKind::Ap => AP_STALE_MS,
        WifiKind::Client => CLIENT_STALE_MS,
    }
}

/// The rows of a tab: positions in the table of the listed devices, in
/// table order, each with whether it is stale.
pub open spec fn rows_are<D>(
    items: Seq<D>,
    listed: spec_fn(D) -> bool,
    stale: spec_fn(D) -> bool,
    rows: Seq<(usize, bool)>,
) -> bool {
    &&& forall|a: int| 0 <= a < rows.len() ==> (#[trigger] rows[a]).0 < items.len()
    &&& forall|a: int|
        0 <= a < rows.len() ==> listed(items[(#[trigger] rows[a]).0 as int]) && rows[a].1 == stale(
            items[rows[a].0 as int],
        )
    &&& forall|a: int, b: int|
        0 <= a < b < rows.len() ==> (#[trigger] rows[a]).0 < (#[trigger] rows[b]).0
    &&& forall|i: int|
        0 <= i < items.len() && listed(#[trigger] items[i]) ==> exists|a: int|
            0 <= a < rows.len() && (#[trigger] rows[a]).0 == i
}

fn age_ms(seen: u64, now: u64) -> (r: u64)
    ensures
        r == age(seen, now),
{
    if now >= seen {
        now - seen
    } else {
        0
    }
}

/// The Bluetooth rows at `now_ms`: listed devices, stale when not heard
/// for more than the Bluetooth stale time.
pub fn bt_rows<E>(devices: &Table<BtDevice<E>>, now_ms: u64) -> (r: Vec<(usize, bool)>)
    ensures
        rows_are(
            devices.items(),
            |d: BtDevice<E>| bt_listed(d, now_ms),
            |d: BtDevice<E>| age(d.last_seen, now_ms) > BT_STALE_MS,
            r@,
        ),
{
    let v = devices.values();
    let mut out: Vec<(usize, bool)> = Vec::new();
    let mut i: usize = 0;
    while i < v.len()
        invariant
            v@ == devices.items(),
            i <= v@.len(),
            forall|a: int| 0 <= a < out@.len() ==> (#[trigger] out@[a]).0 < i,
            rows_are(
                v@.take(i as int),
                |d: BtDevice<E>| bt_listed(d, now_ms),
                |d: BtDevice<E>| age(d.last_seen, now_ms) > BT_STALE_MS,
                out@,
            ),
        decreases v@.len() - i,
    {
        let d = &v[i];
        let a = age_ms(d.last_seen, now_ms);
        let ghost prev = out@;
        if d.ema.is_some() && a <= DROP_MS {
            out.push((i, a > BT_STALE_MS));
        }
        proof {
            let t = v@.take(i + 1);
            assert forall|j: int|
                0 <= j < t.len() && bt_listed(#[trigger] t[j], now_ms) implies exists|a: int|
                0 <= a < out@.len() && (#[trigger] out@[a]).0 == j by {
                if j == i {
                    assert(out@[out@.len() - 1].0 == j);
                } else {
                    assert(v@.take(i as int)[j] == t[j]);
                    let a = choose|a: int| 0 <= a < prev.len() && (#[trigger] prev[a]).0 == j;
                    assert(out@[a] == prev[a]);
                }
            }
        }
        i = i + 1;
    }
    assert(v@.take(v@.len() as int) =~= v@);
    out
}

/// The WiFi rows at `now_ms`: listed devices, stale when not heard for
/// more than the stale time of their kind.
pub fn wifi_rows<E>(devices: &Table<WifiDevice<E>>, now_ms: u64) -> (r: Vec<(usize, bool)>)
    ensures
        rows_are(
            devices.items(),
            |d: WifiDevice<E>| wifi_listed(d, now_ms),
            |d: WifiDevice<E>| age(d.last_seen, now_ms) > wifi_stale_ms(d.kind),
            r@,
        ),
{
    let v = devices.values();
    let mut out: Vec<(usize, bool)> = Vec::new();
    let mut i: usize = 0;
    while i < v.len()
        invariant
            v@ == devices.items(),
            i <= v@.len(),
            forall|a: int| 0 <= a < out@.len() ==> (#[trigger] out@[a]).0 < i,
            rows_are(
                v@.take(i as int),
                |d: WifiDevice<E>| wifi_listed(d, now_ms),
                |d: WifiDevice<E>| age(d.last_seen, now_ms) > wifi_stale_ms(d.kind),
                out@,
            ),
        decreases v@.len() - i,
    {
        let d = &v[i];
        let a = age_ms(d.last_seen, now_ms);
        let has_sig = match d.kind {
            WifiKind::Ap => d.signal_pct.is_some(),
            WifiKind::Client => d.rssi.is_some(),
        };
        let limit = match d.kind {
            WifiKind::Ap => AP_STALE_MS,
            WifiKind::Client => CLIENT_STALE_MS,
        };
        let ghost prev = out@;
        if (has_sig || d.ema.is_some()) && a <= DROP_MS {
            out.push((i, a > limit));
        }
        proof {
            let t = v@.take(i + 1);
            assert forall|j: int|
                0 <= j < t.len() && wifi_listed(#[trigger] t[j], now_ms) implies exists|a: int|
                0 <= a < out@.len() && (#[trigger] out@[a]).0 == j by {
                if j == i {
                    assert(out@[out@.len() - 1].0 == j);
                } else {
                    assert(v@.take(i as int)[j] == t[j]);
                    let a = choose|a: int| 0 <= a < prev.len() && (#[trigger] prev[a]).0 == j;
                    assert(out@[a] == prev[a]);
                }
            }
        }
        i = i + 1;
    }
    assert(v@.take(v@.len() as int) =~= v@);
    out
}

/// The Sub-GHz rows at `now_ms`: frequencies heard within the drop time,
/// stale when not heard for more than the Bluetooth stale time.
pub fn subghz_rows<E>(devices: &Table<SubGhzDevice<E>>, now_ms: u64) -> (r: Vec<(usize, bool)>)
    ensures
        rows_are(
            devices.items(),
            |d: SubGhzDevice<E>| age(d.last_seen, now_ms) <= DROP_MS,
            |d: SubGhzDevice<E>| age(d.last_seen, now_ms) > BT_STALE_MS,
            r@,
        ),
{
    let v = devices.values();
    let mut out: Vec<(usize, bool)> = Vec::new();
    let mut i: usize = 0;
    while i < v.len()
        invariant
            v@ == devices.items(),
            i <= v@.len(),
            forall|a: int| 0 <= a < out@.len() ==> (#[trigger] out@[a]).0 < i,
            rows_are(
                v@.take(i as int),
                |d: SubGhzDevice<E>| age(d.last_seen, now_ms) <= DROP_MS,
                |d: SubGhzDevice<E>| age(d.last_seen, now_ms) > BT_STALE_MS,
                out@,
            ),
        decreases v@.len() - i,
    {
        let d = &v[i];
        let a = age_ms(d.last_seen, now_ms);
        let ghost prev = out@;
        if a <= DROP_MS {
            out.push((i, a > BT_STALE_MS));
        }
        proof {
            let t = v@.take(i + 1);
            assert forall|j: int|
                0 <= j < t.len() && age((#[trigger] t[j]).last_seen, now_ms) <= DROP_MS implies exists|a: int|
                0 <= a < out@.len() && (#[trigger] out@[a]).0 == j by {
                if j == i {
                    assert(out@[out@.len() - 1].0 == j);
                } else {
                    assert(v@.take(i as int)[j] == t[j]);
                    let a = choose|a: int| 0 <= a < prev.len() && (#[trigger] prev[a]).0 == j;
                    assert(out@[a] == prev[a]);
                }
            }
        }
        i = i + 1;
    }
    assert(v@.take(v@.len() as int) =~= v@);
    out
}

} // verus!
