use airprowl::events::{BtUpdate, SubGhzSignal, WifiApUpdate, WifiClientUpdate};
use airprowl::order::{
    bt_row_key, subghz_row_key, wifi_row_key,
    descending_order_key, grouped_order_key, key_less, sort_by_keys, stable_order,
    text_number_order_key, text_order_key,
};
use airprowl::session::{bt_rows, subghz_rows, wifi_rows, Tracker};
use airprowl::store::{Smoothing, WifiKind};
use airprowl::tui::{SortMode, Tab};

#[derive(Clone, Copy, Debug, PartialEq)]
struct Dbm(f64);

impl Smoothing for Dbm {
    fn from_dbm(v: i16) -> Self {
        Dbm(v as f64)
    }
    fn blend(prev: Self, sample: Self) -> Self {
        Dbm(0.4 * sample.0 + 0.6 * prev.0)
    }
}

fn bt(address: &str, rssi: Option<i16>) -> BtUpdate {
    let mut u = BtUpdate::for_address(address.to_string());
    u.rssi = rssi;
    u
}

#[test]
fn reports_update_devices_and_counts() {
    let mut t: Tracker<Dbm> = Tracker::new();
    let u = bt("AA", Some(-60));
    assert!(t.bt_has_room(&u));
    t.on_bt(false, u, 1_000);
    t.on_bt(false, bt("AA", Some(-50)), 2_000);
    let mut named = bt("AA", None);
    named.name = Some("Watch".into());
    named.is_random = true;
    t.on_bt(false, named, 3_000);
    t.on_bt(false, bt("AA", Some(-40)), 4_000);
    assert_eq!(t.bt_updates, 4);
    let d = t.bt.get("AA").unwrap();
    assert_eq!(d.rssi, Some(-40));
    assert_eq!(d.name.as_deref(), Some("Watch"));
    assert!(d.is_random);
    assert_eq!(d.sample_count, 3);
    assert_eq!(d.first_seen, 1_000);
    assert_eq!(d.last_seen, 4_000);
    let ema = d.ema.unwrap().0;
    assert!((ema - (0.4 * -40.0 + 0.6 * (0.4 * -50.0 + 0.6 * -60.0))).abs() < 1e-9);
    // Paused: nothing changes.
    t.on_bt(true, bt("BB", Some(-70)), 5_000);
    assert!(t.bt.get("BB").is_none());
    assert_eq!(t.bt_updates, 4);
}

#[test]
fn wifi_reports() {
    let mut t: Tracker<Dbm> = Tracker::new();
    let ap = WifiApUpdate {
        bssid: "AA:BB:CC:DD:EE:FF".to_string(),
        ssid: Some("Home".into()),
        signal_pct: Some(Dbm(70.0)),
        freq: Some("5180 MHz".into()),
        channel: Some("36".into()),
        security: Some("WPA2".into()),
    };
    t.on_wifi_ap(false, ap, 10);
    let c = WifiClientUpdate { mac: "001122334455".into(), rssi: Some(-66), probing_for: Some("Home".into()) };
    t.on_wifi_client(false, c, 20);
    let c2 = WifiClientUpdate { mac: "001122334455".into(), rssi: None, probing_for: None };
    t.on_wifi_client(false, c2, 30);
    assert_eq!(t.wifi_updates, 3);
    let a = t.wifi.get("AA:BB:CC:DD:EE:FF").unwrap();
    assert_eq!(a.kind, WifiKind::Ap);
    assert_eq!(a.sample_count, 1);
    let cl = t.wifi.get("001122334455").unwrap();
    assert_eq!(cl.kind, WifiKind::Client);
    assert_eq!(cl.rssi, Some(-66));
    assert_eq!(cl.probing_for.as_deref(), Some("Home"));
    assert_eq!(cl.sample_count, 1);
    assert_eq!(cl.last_seen, 30);
}

#[test]
fn ticks_drop_silent_devices_and_clear_empties_a_tab() {
    let mut t: Tracker<Dbm> = Tracker::new();
    t.on_bt(false, bt("OLD", Some(-60)), 0);
    t.on_bt(false, bt("NEW", Some(-60)), 100_000);
    t.on_subghz(false, SubGhzSignal { freq_hz: 433_920_000, rssi_dbm: -61, band: "433 MHz".into() }, 100_000);
    t.on_tick(120_000);
    assert!(t.bt.get("OLD").is_none());
    assert!(t.bt.get("NEW").is_some());
    assert!(t.subghz.get("433920000").is_some());
    t.clear(Tab::Bt);
    assert_eq!(t.bt.len(), 0);
    assert_eq!(t.bt_updates, 0);
    assert_eq!(t.subghz.len(), 1);
    assert_eq!(t.subghz_updates, 1);
}

#[test]
fn rows_list_fresh_and_stale_devices() {
    let mut t: Tracker<Dbm> = Tracker::new();
    t.on_bt(false, bt("A", Some(-60)), 0);
    t.on_bt(false, bt("B", None), 0);
    t.on_bt(false, bt("C", Some(-60)), 100_000);
    assert_eq!(bt_rows(&t.bt, 110_000), vec![(0, true), (2, false)]);
    assert_eq!(bt_rows(&t.bt, 120_001), vec![(2, true)]);
    t.on_subghz(false, SubGhzSignal { freq_hz: 1, rssi_dbm: -61, band: "x".into() }, 0);
    assert_eq!(subghz_rows(&t.subghz, 15_000), vec![(0, false)]);
    assert_eq!(subghz_rows(&t.subghz, 15_001), vec![(0, true)]);
    let c = WifiClientUpdate { mac: "C1".into(), rssi: None, probing_for: None };
    t.on_wifi_client(false, c, 0);
    assert_eq!(wifi_rows(&t.wifi, 0), vec![]);
    let c = WifiClientUpdate { mac: "C2".into(), rssi: Some(-70), probing_for: None };
    t.on_wifi_client(false, c, 0);
    assert_eq!(wifi_rows(&t.wifi, 20_000), vec![(1, true)]);
}

#[test]
fn keys_order_stably() {
    assert!(key_less(&[1, 2], &[1, 3]));
    assert!(key_less(&[1], &[1, 0]));
    assert!(!key_less(&[1, 0], &[1]));
    assert!(!key_less(&[2], &[2]));
    let keys = vec![
        grouped_order_key(false, descending_order_key(-60)),
        grouped_order_key(true, descending_order_key(-40)),
        grouped_order_key(false, descending_order_key(-50)),
        grouped_order_key(false, descending_order_key(-60)),
    ];
    assert_eq!(stable_order(&keys), vec![2, 0, 3, 1]);
    let names = vec![text_order_key("beta"), text_order_key("Alpha"), text_order_key("alpha"), text_order_key("al")];
    assert_eq!(stable_order(&names), vec![1, 3, 2, 0]);
    let pairs = vec![
        text_number_order_key("", 433_920_000),
        text_number_order_key("Door", 868_300_000),
        text_number_order_key("", 315_000_000),
        text_number_order_key("Do", 915_000_000),
    ];
    assert_eq!(stable_order(&pairs), vec![2, 0, 3, 1]);
    assert_eq!(stable_order(&vec![]), Vec::<usize>::new());
}

#[test]
fn items_follow_their_keys() {
    let items = vec!["weak", "strong", "stale", "weak too"];
    let keys = vec![
        grouped_order_key(false, descending_order_key(-80)),
        grouped_order_key(false, descending_order_key(-40)),
        grouped_order_key(true, descending_order_key(-30)),
        grouped_order_key(false, descending_order_key(-80)),
    ];
    assert_eq!(sort_by_keys(items, &keys), vec!["strong", "weak", "weak too", "stale"]);
    let none: Vec<String> = Vec::new();
    assert!(sort_by_keys(none, &vec![]).is_empty());
}

#[test]
fn row_keys_follow_the_sort_mode() {
    // Name order: custom name, else reported name, else address.
    assert_eq!(bt_row_key(SortMode::Name, false, Some("b"), Some("a"), "X", None), Some(vec![0, 98]));
    assert_eq!(bt_row_key(SortMode::Name, true, None, Some("a"), "X", None), Some(vec![1, 97]));
    assert_eq!(bt_row_key(SortMode::Name, false, None, None, "X", None), Some(vec![0, 88]));
    // Signal order: strongest first, no reading as -127.
    assert_eq!(bt_row_key(SortMode::Signal, false, None, None, "X", Some(-40)), Some(vec![0, 39]));
    assert_eq!(bt_row_key(SortMode::Type, true, None, None, "X", None), Some(vec![1, 126]));
    assert_eq!(bt_row_key(SortMode::Distance, false, None, None, "X", Some(-40)), None);
    assert_eq!(
        wifi_row_key(SortMode::Name, false, None, None, Some("p"), "M"),
        Some(vec![0, 112])
    );
    assert_eq!(wifi_row_key(SortMode::Name, false, None, Some("s"), Some("p"), "M"), Some(vec![0, 115]));
    assert_eq!(wifi_row_key(SortMode::Signal, false, None, Some("s"), None, "M"), None);
    assert_eq!(subghz_row_key(SortMode::Name, false, None, 433_920_000, -60), vec![0, -1, 433_920_000]);
    assert_eq!(subghz_row_key(SortMode::Name, true, Some("k"), 5, -70), vec![1, 107, -1, 5]);
    assert_eq!(subghz_row_key(SortMode::Signal, false, Some("k"), 5, -70), vec![0, 69]);
}
