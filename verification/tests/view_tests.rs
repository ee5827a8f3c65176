use airprowl::names::NameStore;
use airprowl::store::{WifiDevice, WifiKind};
use airprowl::table::Table;
use airprowl::tui::{
    bt_error_display, bt_error_hint, connect_args, connect_outcome, connecting_message,
    footer_lines, security_is_open, KeyAction, KeyCode, KeyPress, SortMode, Tab, TuiState,
};

fn key(code: KeyCode) -> KeyPress {
    KeyPress { code, ctrl: false, alt: false }
}

fn ch(c: char) -> KeyPress {
    key(KeyCode::Char(c))
}

fn ids(v: &[&str]) -> Vec<String> {
    v.iter().map(|s| s.to_string()).collect()
}

#[test]
fn starts_on_bluetooth_sorted_by_signal() {
    let s = TuiState::new();
    assert_eq!(s.tab, Tab::Bt);
    assert_eq!(s.sort_mode, SortMode::Signal);
    assert!(s.selected_id.is_none());
    assert!(!s.paused && !s.should_quit && !s.editing && !s.input_active());
}

#[test]
fn tabs_cycle_and_reset_the_view() {
    let mut s = TuiState::new();
    s.selected_id = Some("x".into());
    s.scroll_offset = 4;
    s.sort_mode = SortMode::Name;
    s.toggle_tab();
    assert_eq!(s.tab, Tab::Wifi);
    assert!(s.selected_id.is_none());
    assert_eq!(s.scroll_offset, 0);
    assert_eq!(s.sort_mode, SortMode::Signal);
    s.toggle_tab();
    assert_eq!(s.tab, Tab::SubGhz);
    s.toggle_tab();
    assert_eq!(s.tab, Tab::Bt);
}

#[test]
fn sort_modes_per_tab() {
    let mut s = TuiState::new();
    s.cycle_sort();
    assert_eq!(s.sort_mode, SortMode::Distance);
    s.cycle_sort();
    assert_eq!(s.sort_mode, SortMode::Name);
    s.cycle_sort();
    assert_eq!(s.sort_mode, SortMode::Signal);
    s.toggle_tab();
    s.cycle_sort();
    assert_eq!(s.sort_mode, SortMode::Name);
    s.cycle_sort();
    assert_eq!(s.sort_mode, SortMode::Type);
    s.cycle_sort();
    assert_eq!(s.sort_mode, SortMode::Signal);
    s.toggle_tab();
    s.cycle_sort();
    assert_eq!(s.sort_mode, SortMode::Name);
    s.cycle_sort();
    assert_eq!(s.sort_mode, SortMode::Signal);
    assert_eq!(SortMode::Distance.label(), "distance");
    assert_eq!(SortMode::Type.label(), "type");
}

#[test]
fn scrolling_keeps_the_selection_visible() {
    let mut s = TuiState::new();
    s.ensure_visible(12, 10);
    assert_eq!(s.scroll_offset, 3);
    s.ensure_visible(5, 10);
    assert_eq!(s.scroll_offset, 3);
    s.ensure_visible(1, 10);
    assert_eq!(s.scroll_offset, 1);
    s.ensure_visible(50, 0);
    assert_eq!(s.scroll_offset, 1);
}

#[test]
fn selection_moves_within_the_list() {
    let mut s = TuiState::new();
    let list = ids(&["a", "b", "c"]);
    s.move_selection(&list, 1);
    assert_eq!(s.selected_id.as_deref(), Some("b"));
    s.move_selection(&list, 1);
    s.move_selection(&list, 1);
    assert_eq!(s.selected_id.as_deref(), Some("c"));
    s.move_selection(&list, -1);
    assert_eq!(s.selected_id.as_deref(), Some("b"));
    s.move_selection(&list, -5);
    assert_eq!(s.selected_id.as_deref(), Some("a"));
    s.selected_id = Some("gone".into());
    s.move_selection(&list, 1);
    assert_eq!(s.selected_id.as_deref(), Some("b"));
    s.move_selection(&[], 1);
    assert_eq!(s.selected_id.as_deref(), Some("b"));
}

#[test]
fn naming_a_device() {
    let mut s = TuiState::new();
    let mut names = NameStore::new();
    assert!(matches!(s.handle_key(ch('n'), &mut names), KeyAction::Nothing));
    s.selected_id = Some("AA:BB".into());
    assert!(matches!(s.handle_key(key(KeyCode::Enter), &mut names), KeyAction::BeginNaming));
    s.begin_naming(&names, ids(&["AA:BB", "CC:DD"]));
    assert!(s.editing && s.input_active());
    assert_eq!(s.edit_buffer, "");
    assert_eq!(s.frozen_order, Some(ids(&["AA:BB", "CC:DD"])));
    for c in "  Desk x".chars() {
        s.handle_key(ch(c), &mut names);
    }
    s.handle_key(KeyPress { code: KeyCode::Char('z'), ctrl: true, alt: false }, &mut names);
    s.handle_key(key(KeyCode::Backspace), &mut names);
    s.handle_key(key(KeyCode::Backspace), &mut names);
    assert_eq!(s.edit_buffer, "  Desk");
    assert!(matches!(s.handle_key(key(KeyCode::Enter), &mut names), KeyAction::SaveNames));
    assert_eq!(names.get("AA:BB"), Some("Desk"));
    assert!(!s.editing && s.frozen_order.is_none() && s.edit_buffer.is_empty());
    s.handle_key(ch('n'), &mut names);
    s.begin_naming(&names, ids(&["AA:BB"]));
    assert_eq!(s.edit_buffer, "Desk");
    s.handle_key(ch('!'), &mut names);
    s.handle_key(key(KeyCode::Esc), &mut names);
    assert_eq!(names.get("AA:BB"), Some("Desk"));
    assert!(!s.editing);
    s.begin_naming(&names, ids(&["AA:BB"]));
    s.handle_key(key(KeyCode::Delete), &mut names);
    s.handle_key(key(KeyCode::Delete), &mut names);
    s.handle_key(key(KeyCode::Delete), &mut names);
    s.handle_key(key(KeyCode::Delete), &mut names);
    s.handle_key(key(KeyCode::Delete), &mut names);
    s.handle_key(ch(' '), &mut names);
    s.handle_key(key(KeyCode::Enter), &mut names);
    assert_eq!(names.get("AA:BB"), None);
}

#[test]
fn command_keys() {
    let mut s = TuiState::new();
    let mut names = NameStore::new();
    names.set("AA", "Phone");
    s.selected_id = Some("AA".into());
    assert!(matches!(s.handle_key(ch('x'), &mut names), KeyAction::SaveNames));
    assert_eq!(names.get("AA"), None);
    assert!(matches!(s.handle_key(key(KeyCode::Up), &mut names), KeyAction::MoveUp));
    assert!(matches!(s.handle_key(key(KeyCode::Down), &mut names), KeyAction::MoveDown));
    assert!(matches!(s.handle_key(ch('e'), &mut names), KeyAction::Export));
    assert!(matches!(s.handle_key(ch('w'), &mut names), KeyAction::Nothing));
    s.handle_key(ch('p'), &mut names);
    assert!(s.paused);
    s.handle_key(ch('p'), &mut names);
    assert!(!s.paused);
    s.handle_key(ch('s'), &mut names);
    assert_eq!(s.sort_mode, SortMode::Distance);
    assert!(matches!(s.handle_key(ch('c'), &mut names), KeyAction::Clear(Tab::Bt)));
    assert!(s.selected_id.is_none());
    s.handle_key(key(KeyCode::Tab), &mut names);
    assert_eq!(s.tab, Tab::Wifi);
    assert!(matches!(s.handle_key(ch('w'), &mut names), KeyAction::WifiConnect));
    assert!(matches!(s.handle_key(key(KeyCode::Other), &mut names), KeyAction::Nothing));
    s.handle_key(KeyPress { code: KeyCode::Char('c'), ctrl: true, alt: false }, &mut names);
    assert!(s.should_quit);
    let mut t = TuiState::new();
    t.handle_key(ch('q'), &mut names);
    assert!(t.should_quit);
}

fn ap(mac: &str, ssid: Option<&str>, security: Option<&str>, kind: WifiKind) -> WifiDevice<f64> {
    WifiDevice {
        mac: mac.into(),
        kind,
        ssid: ssid.map(String::from),
        freq: None,
        channel: None,
        security: security.map(String::from),
        signal_pct: None,
        probing_for: None,
        rssi: None,
        ema: None,
        prev_ema: None,
        sample_count: 0,
        first_seen: 0,
        last_seen: 0,
    }
}

#[test]
fn joining_access_points() {
    let mut t: Table<WifiDevice<f64>> = Table::new();
    t.put(ap("AA", Some("Open Cafe"), Some("--"), WifiKind::Ap));
    t.put(ap("BB", None, Some("WPA2"), WifiKind::Ap));
    t.put(ap("CC", None, None, WifiKind::Client));
    let mut s = TuiState::new();
    assert!(s.start_wifi_connect(&t).is_none());
    s.selected_id = Some("AA".into());
    let req = s.start_wifi_connect(&t).unwrap();
    assert_eq!((req.bssid.as_str(), req.ssid.as_str(), req.password.clone()), ("AA", "Open Cafe", None));
    assert_eq!(connect_args(&req), vec!["dev", "wifi", "connect", "AA"]);
    s.selected_id = Some("CC".into());
    assert!(s.start_wifi_connect(&t).is_none());
    assert_eq!(s.wifi_status.as_deref(), Some("Select an AP (not a client) to connect"));
    s.selected_id = Some("BB".into());
    assert!(s.start_wifi_connect(&t).is_none());
    let m = s.wifi_password_modal.as_ref().unwrap();
    assert_eq!((m.bssid.as_str(), m.ssid.as_str(), m.buffer.as_str()), ("BB", "BB", ""));
    let mut names = NameStore::new();
    for c in "pw1".chars() {
        s.handle_key(ch(c), &mut names);
    }
    s.handle_key(key(KeyCode::Backspace), &mut names);
    s.handle_key(ch('2'), &mut names);
    match s.handle_key(key(KeyCode::Enter), &mut names) {
        KeyAction::Connect(r) => {
            assert_eq!(r.password.as_deref(), Some("pw2"));
            assert_eq!(connect_args(&r), vec!["dev", "wifi", "connect", "BB", "password", "pw2"]);
        }
        _ => panic!("expected a connect request"),
    }
    assert!(s.wifi_password_modal.is_none());
    s.selected_id = Some("missing".into());
    assert!(s.start_wifi_connect(&t).is_none());
}

#[test]
fn open_security_fields() {
    assert!(security_is_open(""));
    assert!(security_is_open("--"));
    assert!(security_is_open("OPEN"));
    assert!(security_is_open("Open"));
    assert!(!security_is_open("WPA2"));
    assert!(!security_is_open("opens"));
    assert!(!security_is_open("-"));
}

#[test]
fn connect_messages() {
    assert_eq!(connecting_message("Home"), "Connecting to Home…");
    assert_eq!(connect_outcome("Home", true, "", ""), "Connected to Home");
    assert_eq!(connect_outcome("Home", false, "  Error: secrets required \n", "x"), "Connect failed: Error: secrets required");
    assert_eq!(connect_outcome("Home", false, " \n", " out "), "Connect failed: out");
}

#[test]
fn bluetooth_errors_get_a_hint() {
    assert_eq!(
        bt_error_display("org.bluez.Error.NotReady".into()),
        "org.bluez.Error.NotReady — try: sudo systemctl start bluetooth"
    );
    assert_eq!(
        bt_error_display("No default adapter".into()),
        "No default adapter — try: sudo systemctl start bluetooth"
    );
    assert_eq!(bt_error_display("timeout".into()), "timeout");
    assert_eq!(bt_error_hint("X".into(), "bluetoothd down"), "X — try: sudo systemctl start bluetooth");
}

#[test]
fn footer_hints_and_status() {
    let base = "[Tab] switch tabs  [q] quit  [↑↓] select  [n] name  [x] del name  [s] sort  [p] pause  [c] clear  [e] export";
    assert_eq!(footer_lines(false, None, true, Tab::Bt), vec![base.to_string()]);
    assert_eq!(
        footer_lines(false, Some("iface down"), true, Tab::Wifi),
        vec![format!("{}  [w] connect", base), "⚠ iface down".to_string()]
    );
    assert!(footer_lines(true, Some("x"), true, Tab::Bt).is_empty());
    assert_eq!(footer_lines(false, Some("x"), false, Tab::SubGhz), vec![base.to_string()]);
}

#[test]
fn order_is_held_while_naming() {
    let mut s = TuiState::new();
    let names = NameStore::new();
    assert_eq!(s.shown_order(ids(&["b", "a"])), ids(&["b", "a"]));
    s.selected_id = Some("a".into());
    s.begin_naming(&names, ids(&["a", "b", "c"]));
    assert_eq!(s.shown_order(ids(&["c", "b", "d"])), ids(&["b", "c"]));
    s.editing = false;
    assert_eq!(s.shown_order(ids(&["c", "b", "d"])), ids(&["c", "b", "d"]));
}

#[test]
fn first_row_is_selected_by_default() {
    let mut s = TuiState::new();
    s.select_first_if_none(&[]);
    assert!(s.selected_id.is_none());
    s.select_first_if_none(&ids(&["x", "y"]));
    assert_eq!(s.selected_id.as_deref(), Some("x"));
    s.select_first_if_none(&ids(&["y"]));
    assert_eq!(s.selected_id.as_deref(), Some("x"));
}
