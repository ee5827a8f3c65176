use airprowl::signal::{clock_text, format_age, rssi_color, secs_between, SignalColor};

#[test]
fn age_formats_compactly() {
    assert_eq!(format_age(500), "<1s");
    assert_eq!(format_age(5_000), "5s");
    assert_eq!(format_age(65_000), "1m5s");
}

#[test]
fn age_edges() {
    assert_eq!(format_age(0), "<1s");
    assert_eq!(format_age(999), "<1s");
    assert_eq!(format_age(1_000), "1s");
    assert_eq!(format_age(59_999), "59s");
    assert_eq!(format_age(60_000), "1m0s");
    assert_eq!(format_age(3_600_000), "60m0s");
}

#[test]
fn rssi_colors_follow_thresholds() {
    assert_eq!(rssi_color(-40), SignalColor::Green);
    assert_eq!(rssi_color(-60), SignalColor::Green);
    assert_eq!(rssi_color(-61), SignalColor::Yellow);
    assert_eq!(rssi_color(-75), SignalColor::Yellow);
    assert_eq!(rssi_color(-76), SignalColor::Orange);
    assert_eq!(rssi_color(-85), SignalColor::Orange);
    assert_eq!(rssi_color(-86), SignalColor::Red);
}

#[test]
fn clock_pads_minutes_and_seconds() {
    assert_eq!(clock_text(0), "00:00");
    assert_eq!(clock_text(65), "01:05");
    assert_eq!(clock_text(600), "10:00");
    assert_eq!(clock_text(6_000), "100:00");
}

#[test]
fn whole_seconds_between_times() {
    assert_eq!(secs_between(1_000, 3_999), 2);
    assert_eq!(secs_between(5_000, 1_000), 0);
    assert_eq!(secs_between(0, 0), 0);
}
