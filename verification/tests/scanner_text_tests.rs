use airprowl::ap_scan::{iface_problem, is_float_text, parse_nmcli_line, split_nmcli_fields};
use airprowl::bluetooth::{
    clean_bt_name, company_id_of, update_for_change, update_for_discovery, BtChange, BtDiscovery,
};
use airprowl::monitor::{
    add_monitor_command, delete_command, link_command, monitor_listed, no_monitor_message,
    MonitorHandle,
};
use airprowl::config::Config;

#[test]
fn nmcli_fields_respect_escaped_colons() {
    let f = split_nmcli_fields(r"Home:AA\:BB\:CC\:DD\:EE\:FF:72:5180 MHz:36:WPA2:Infra");
    assert_eq!(f, vec!["Home", "AA:BB:CC:DD:EE:FF", "72", "5180 MHz", "36", "WPA2", "Infra"]);
    assert_eq!(split_nmcli_fields(""), vec![""]);
    assert_eq!(split_nmcli_fields("a::b"), vec!["a", "", "b"]);
    assert_eq!(split_nmcli_fields(r"x\"), vec![r"x\"]);
    assert_eq!(split_nmcli_fields(r"\\:"), vec![r"\:"]);
}

#[test]
fn nmcli_line_becomes_an_access_point() {
    let u = parse_nmcli_line(r"Home:AA\:BB\:CC\:DD\:EE\:FF:72:5180 MHz:36:WPA2:Infra").unwrap();
    assert_eq!(u.bssid, "AA:BB:CC:DD:EE:FF");
    assert_eq!(u.ssid.as_deref(), Some("Home"));
    assert_eq!(u.signal_pct.as_deref(), Some("72"));
    assert_eq!(u.freq.as_deref(), Some("5180 MHz"));
    assert_eq!(u.channel.as_deref(), Some("36"));
    assert_eq!(u.security.as_deref(), Some("WPA2"));
}

#[test]
fn hidden_and_short_lines() {
    let u = parse_nmcli_line(r":11\:22\:33\:44\:55\:66:40:2412 MHz:1:").unwrap();
    assert_eq!(u.ssid.as_deref(), Some("(hidden)"));
    assert_eq!(u.security.as_deref(), Some(""));
    assert!(parse_nmcli_line("a:b:c:d:e").is_none());
}

#[test]
fn interface_warnings() {
    assert_eq!(
        iface_problem("wlo1", Some("down\n")).as_deref(),
        Some("WiFi iface wlo1 is DOWN — run: sudo ip link set wlo1 up")
    );
    assert_eq!(iface_problem("wlo1", Some("up\n")), None);
    assert_eq!(iface_problem("wlo1", Some("dormant")), None);
    assert_eq!(
        iface_problem("wlan0", None).as_deref(),
        Some("WiFi iface wlan0 not found — set WIFI_IFACE=<name> (see: ip -br link)")
    );
}

#[test]
fn address_aliases_are_not_names() {
    let addr = "B0:60:88:49:C5:CD";
    assert_eq!(clean_bt_name(String::new(), addr), None);
    assert_eq!(clean_bt_name("B0-60-88-49-C5-CD".to_string(), addr), None);
    assert_eq!(clean_bt_name("b0:60:88:49:c5:cd".to_string(), addr), None);
    assert_eq!(clean_bt_name("Headphones".to_string(), addr).as_deref(), Some("Headphones"));
}

#[test]
fn company_is_the_smallest_key() {
    assert_eq!(company_id_of(&[0x75, 0x4c, 0xe0]), Some(0x4c));
    assert_eq!(company_id_of(&[]), None);
}

#[test]
fn property_changes_become_updates() {
    let a = "11:22:33:44:55:66".to_string();
    let u = update_for_change(a.clone(), BtChange::Rssi(-70)).unwrap();
    assert_eq!((u.rssi, u.tx_power, u.name.is_none()), (Some(-70), None, true));
    let u = update_for_change(a.clone(), BtChange::TxPower(4)).unwrap();
    assert_eq!(u.tx_power, Some(4));
    assert!(update_for_change(a.clone(), BtChange::Alias(a.clone())).is_none());
    let u = update_for_change(a.clone(), BtChange::Name("Watch".into())).unwrap();
    assert_eq!(u.name.as_deref(), Some("Watch"));
    assert!(update_for_change(a.clone(), BtChange::Icon(String::new())).is_none());
    let u = update_for_change(a.clone(), BtChange::Icon("phone".into())).unwrap();
    assert_eq!(u.icon.as_deref(), Some("phone"));
    assert!(update_for_change(a.clone(), BtChange::ManufacturerData(vec![])).is_none());
    let u = update_for_change(a.clone(), BtChange::ManufacturerData(vec![0x87, 0x06])).unwrap();
    assert_eq!(u.company_id, Some(0x06));
    assert!(update_for_change(a, BtChange::Other).is_none());
}

#[test]
fn discoveries_become_updates() {
    let d = BtDiscovery {
        address: "11:22:33:44:55:66".into(),
        name: None,
        alias: Some("11-22-33-44-55-66".into()),
        rssi: Some(-52),
        tx_power: None,
        is_random: true,
        icon: Some(String::new()),
        manufacturer_keys: Some(vec![0x4c]),
    };
    let u = update_for_discovery(d);
    assert_eq!(u.name, None);
    assert_eq!(u.rssi, Some(-52));
    assert!(u.is_random);
    assert_eq!(u.icon, None);
    assert_eq!(u.company_id, Some(0x4c));
    let d = BtDiscovery {
        address: "11:22:33:44:55:66".into(),
        name: Some("Speaker".into()),
        alias: Some("Other".into()),
        rssi: None,
        tx_power: Some(-59),
        is_random: false,
        icon: Some("audio-card".into()),
        manufacturer_keys: None,
    };
    let u = update_for_discovery(d);
    assert_eq!(u.name.as_deref(), Some("Speaker"));
    assert_eq!(u.icon.as_deref(), Some("audio-card"));
    assert_eq!(u.company_id, None);
}

fn config(is_root: bool) -> Config {
    Config::from_parts(
        &["airprowl".to_string()],
        Some("wlan0".to_string()),
        None,
        "names.json".to_string(),
        is_root,
    )
    .unwrap()
}

#[test]
fn monitor_commands() {
    assert_eq!(
        add_monitor_command(&config(false)),
        vec!["sudo", "-n", "iw", "dev", "wlan0", "interface", "add", "wlan0mon", "type", "monitor"]
    );
    assert_eq!(
        add_monitor_command(&config(true)),
        vec!["iw", "dev", "wlan0", "interface", "add", "wlan0mon", "type", "monitor"]
    );
    assert_eq!(link_command(true, "wlan0mon", true), vec!["ip", "link", "set", "wlan0mon", "up"]);
    assert_eq!(
        delete_command(false, "wlan0mon"),
        vec!["sudo", "-n", "iw", "dev", "wlan0mon", "del"]
    );
    let h = MonitorHandle::for_config(&config(false));
    assert_eq!(h.sniff_iface, "wlan0mon");
    let t = h.teardown_commands();
    assert_eq!(t[0], vec!["sudo", "-n", "ip", "link", "set", "wlan0mon", "down"]);
    assert_eq!(t[1], vec!["sudo", "-n", "iw", "dev", "wlan0mon", "del"]);
    assert!(monitor_listed("phy#0\n\tInterface wlan0mon\n", "wlan0mon"));
    assert!(!monitor_listed("phy#0\n\tInterface wlan0\n", "wlan0mon"));
    assert_eq!(
        no_monitor_message("permission denied"),
        "No monitor mode — permission denied. AP scanning only."
    );
}

#[test]
fn lines_with_a_non_numeric_signal_are_dropped() {
    assert!(parse_nmcli_line(r"Home:AA\:BB\:CC\:DD\:EE\:FF:--:5180 MHz:36:WPA2:Infra").is_none());
    assert!(parse_nmcli_line(r"Home:AA\:BB\:CC\:DD\:EE\:FF::5180 MHz:36:WPA2:Infra").is_none());
    let u = parse_nmcli_line(r"Home:AA\:BB\:CC\:DD\:EE\:FF:72.5:5180 MHz:36:WPA2:Infra").unwrap();
    assert_eq!(u.signal_pct.as_deref(), Some("72.5"));
}

#[test]
fn number_text_agrees_with_the_float_parser() {
    let cases = [
        "72", "0", "-3", "+4", "1.", ".5", "+.5", "1.5e3", "1E-3", "2e+7", "inf", "-Infinity",
        "NaN", "nan", "INF", "", ".", "-", "e5", "1e", "1e+", " 1", "1 ", "1..2", "1.2.3", "0x10",
        "infinit", "nana", "--1", "12a", "٣",
    ];
    for c in cases {
        assert_eq!(is_float_text(c), c.parse::<f64>().is_ok(), "{c:?}");
    }
}
