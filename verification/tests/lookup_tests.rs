use airprowl::ble::BleCompanyDb;
use airprowl::names::NameStore;
use airprowl::oui::{
    is_locally_administered, parse_line, parse_mac_prefix, shorten_vendor, vendor_for_bt,
    vendor_for_wifi, BtIdentity, OuiDb,
};

const OUI: &str = "# nmap-mac-prefixes\n\
000000 Xerox\n\
B06088 Intel Corporate\n\
F40E22 Samsung Electronics Co.,Ltd\n\
B06088 Duplicate Vendor\n\
ZZZZZZ Broken\n\
00163E   Xensource, Inc.  # comment\n";

const BLE: &str = "# id name\n004C Apple, Inc.\n0075 Samsung Electronics Co. Ltd.\n00E0 Google\n004C Apple Again\nXYZ Bad\n";

#[test]
fn mac_prefixes_in_any_notation() {
    assert_eq!(parse_mac_prefix("B0:60:88:49:C5:CD"), Some([0xb0, 0x60, 0x88]));
    assert_eq!(parse_mac_prefix("b0-60-88"), Some([0xb0, 0x60, 0x88]));
    assert_eq!(parse_mac_prefix("00.11.22"), Some([0x00, 0x11, 0x22]));
    assert_eq!(parse_mac_prefix("b0:60"), None);
    assert!(is_locally_administered("DA:A1:19:7C:08:2E"));
    assert!(!is_locally_administered("D8:47:32:6E:AA:01"));
}

#[test]
fn database_lines() {
    let (k, v) = parse_line("B06088 Intel Corporate").unwrap();
    assert_eq!(k, [0xb0, 0x60, 0x88]);
    assert_eq!(v, "Intel Corporate");
    let (_, v) = parse_line("00163E   Xensource, Inc.  # comment").unwrap();
    assert_eq!(v, "Xensource, Inc.");
    let (_, v) = parse_line("0050C2 (hex) IEEE Registration Authority").unwrap();
    assert_eq!(v, "IEEE Registration Authority");
    assert!(parse_line("00163E").is_none());
    assert!(parse_line("00163E # only a comment").is_none());
    assert!(parse_line("nothex Vendor").is_none());
}

#[test]
fn oui_lookup_first_line_wins() {
    let db = OuiDb::load(OUI).unwrap();
    assert_eq!(db.lookup("B0:60:88:49:C5:CD"), Some("Intel Corporate"));
    assert_eq!(db.lookup("00:16:3e:00:00:01"), Some("Xensource, Inc."));
    assert_eq!(db.lookup("12:34:56:00:00:00"), None);
    assert!(OuiDb::load("# only comments\n\n").is_none());
}

#[test]
fn vendors_are_shortened() {
    assert_eq!(shorten_vendor("Samsung Electronics Co. Ltd."), "Samsung");
    assert_eq!(shorten_vendor("Apple, Inc."), "Apple");
    assert_eq!(shorten_vendor("Intel Corporate"), "Intel Corporate");
    assert_eq!(shorten_vendor("Inc."), "Inc.");
}

#[test]
fn wifi_vendor_labels() {
    let db = OuiDb::load(OUI).unwrap();
    assert_eq!(vendor_for_wifi("DA:A1:19:7C:08:2E", Some(&db)).as_deref(), Some("random"));
    assert_eq!(vendor_for_wifi("F4:0E:22:6B:1A:3C", Some(&db)).as_deref(), Some("Samsung Electronics Co.,Ltd"));
    assert_eq!(vendor_for_wifi("F4:0E:22:6B:1A:3C", None), None);
}

#[test]
fn company_lookup_last_line_wins() {
    let db = BleCompanyDb::load(BLE).unwrap();
    assert_eq!(db.lookup(0x004c), Some("Apple Again"));
    assert_eq!(db.lookup(0x0075), Some("Samsung Electronics Co. Ltd."));
    assert_eq!(db.lookup(0x1234), None);
    assert!(BleCompanyDb::load("").is_none());
}

#[test]
fn bluetooth_vendor_labels() {
    let oui = OuiDb::load(OUI).unwrap();
    let ble = BleCompanyDb::load(BLE).unwrap();
    let public = BtIdentity { mac: "F4:0E:22:6B:1A:3C", is_random: false, company_id: Some(0x4c), icon: Some("phone") };
    assert_eq!(vendor_for_bt(public, Some(&oui), Some(&ble)).as_deref(), Some("Samsung Electronics Co., phone"));
    let random = BtIdentity { mac: "F4:0E:22:6B:1A:3C", is_random: true, company_id: Some(0xe0), icon: None };
    assert_eq!(vendor_for_bt(random, Some(&oui), Some(&ble)).as_deref(), Some("Google"));
    let bare = BtIdentity { mac: "7E:A1:33:9F:42:0B", is_random: true, company_id: None, icon: Some("") };
    assert_eq!(vendor_for_bt(bare, Some(&oui), Some(&ble)).as_deref(), Some("random"));
    let icon_only = BtIdentity { mac: "12:34:56:9F:42:0B", is_random: false, company_id: None, icon: Some("computer") };
    assert_eq!(vendor_for_bt(icon_only, Some(&oui), None).as_deref(), Some("computer"));
    let nothing = BtIdentity { mac: "12:34:56:9F:42:0B", is_random: false, company_id: None, icon: None };
    assert_eq!(vendor_for_bt(nothing, None, None), None);
}

#[test]
fn names_set_get_remove() {
    let mut n = NameStore::new();
    assert_eq!(n.get("B0:60:88:49:C5:CD"), None);
    n.set("B0:60:88:49:C5:CD", "Desk");
    n.set("433920000", "Doorbell");
    assert_eq!(n.get("B0:60:88:49:C5:CD"), Some("Desk"));
    n.set("B0:60:88:49:C5:CD", "Office");
    assert_eq!(n.get("B0:60:88:49:C5:CD"), Some("Office"));
    n.remove("B0:60:88:49:C5:CD");
    assert_eq!(n.get("B0:60:88:49:C5:CD"), None);
    assert_eq!(n.get("433920000"), Some("Doorbell"));
}

#[test]
fn names_file_round_trip() {
    let mut n = NameStore::new();
    n.set("a", "one");
    n.set("b", "two \"quoted\"");
    let json = n.to_json().unwrap();
    let back = NameStore::from_json(&json);
    assert_eq!(back.get("a"), Some("one"));
    assert_eq!(back.get("b"), Some("two \"quoted\""));
    let bad = NameStore::from_json("not json");
    assert_eq!(bad.get("a"), None);
    let parsed = NameStore::from_json("{\"433920000\": \"Doorbell\"}");
    assert_eq!(parsed.get("433920000"), Some("Doorbell"));
}
