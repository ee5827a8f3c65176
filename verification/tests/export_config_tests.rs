use airprowl::config::{parse_cli, wants_demo, wants_help, wants_version, CliMode, Config, ScanTarget};
use airprowl::export::{
    export_filename, export_stamp, exported_message, scan_type, serialize_failed_message,
    write_failed_message,
};
use airprowl::tui::Tab;

fn args(v: &[&str]) -> Vec<String> {
    v.iter().map(|s| s.to_string()).collect()
}

#[test]
fn headless_options() {
    assert_eq!(parse_cli(&args(&["airprowl"])), Ok(None));
    assert_eq!(
        parse_cli(&args(&["airprowl", "--scan", "bt", "--duration", "5"])),
        Ok(Some(CliMode { scan: ScanTarget::Bt, duration_secs: 5 }))
    );
    assert_eq!(
        parse_cli(&args(&["airprowl", "--duration", "3", "--scan", "sub-ghz", "--scan", "wlan"])),
        Ok(Some(CliMode { scan: ScanTarget::Wifi, duration_secs: 3 }))
    );
    assert_eq!(
        parse_cli(&args(&["airprowl", "--scan", "subghz"])),
        Ok(Some(CliMode { scan: ScanTarget::SubGhz, duration_secs: 10 }))
    );
    assert_eq!(parse_cli(&args(&["airprowl", "--demo", "-V"])), Ok(None));
}

#[test]
fn headless_option_errors() {
    assert_eq!(parse_cli(&args(&["airprowl", "--scan"])), Err("--scan requires a value (bt|wifi|subghz)".to_string()));
    assert_eq!(parse_cli(&args(&["airprowl", "--scan", "zigbee"])), Err("unknown scan target 'zigbee'".to_string()));
    assert_eq!(parse_cli(&args(&["airprowl", "--duration"])), Err("--duration requires a value (seconds)".to_string()));
    assert_eq!(
        parse_cli(&args(&["airprowl", "--duration", "-1"])),
        Err("--duration: '-1' is not a positive integer".to_string())
    );
    assert_eq!(parse_cli(&args(&["airprowl", "--verbose"])), Err("unknown argument '--verbose'".to_string()));
}

#[test]
fn global_flags() {
    assert!(wants_help(&args(&["airprowl", "-h"])));
    assert!(wants_version(&args(&["airprowl", "--version"])));
    assert!(wants_demo(&args(&["airprowl", "--demo"])));
    assert!(!wants_demo(&args(&["airprowl"])));
}

#[test]
fn configuration_defaults() {
    let c = Config::from_parts(&args(&["airprowl", "--demo"]), None, Some("hci1".into()), "names.json".into(), false).unwrap();
    assert_eq!(c.wifi_iface, "wlo1");
    assert_eq!(c.mon_iface, "wlo1mon");
    assert_eq!(c.bt_iface.as_deref(), Some("hci1"));
    assert!(c.demo && !c.is_root && c.cli.is_none());
    assert!(Config::from_parts(&args(&["airprowl", "--bogus"]), None, None, "n".into(), true).is_err());
}

#[test]
fn export_names_and_messages() {
    assert_eq!(scan_type(Tab::SubGhz), "subghz");
    assert_eq!(export_stamp(Some("20260518-141233\n"), Some(5)), "20260518-141233");
    assert_eq!(export_stamp(Some("  \n"), Some(1_700_000_000)), "1700000000");
    assert_eq!(export_stamp(None, None), "");
    assert_eq!(export_filename("bt", "20260518-141233"), "airprowl-bt-20260518-141233.json");
    assert_eq!(export_filename(scan_type(Tab::Wifi), "1"), "airprowl-wifi-1.json");
    assert_eq!(exported_message(12, "airprowl-bt-1.json"), "Exported 12 devices → airprowl-bt-1.json");
    assert_eq!(write_failed_message("denied"), "Export failed (write): denied");
    assert_eq!(serialize_failed_message("bad"), "Export failed (serialize): bad");
}
