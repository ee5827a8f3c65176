use airprowl::subghz::{
    command_frame, freq_register_values, freq_to_band, peek_diagnostic, peek_payload,
    poke_payload, rssi_from_response, signal_at, yardstick_pids, SweepPos, APP_SYSTEM, FREQ2,
    RSSI, SYS_CMD_PEEK, SYS_CMD_POKE,
};

/// A frequency given in MHz, as the sweep hands it over in Hz.
fn hz(mhz: f64) -> u32 {
    (mhz * 1_000_000.0).round() as u32
}

#[test]
fn maps_freq_to_ism_band() {
    assert_eq!(freq_to_band(hz(433.92)), "433 MHz");
    assert_eq!(freq_to_band(hz(315.0)), "315 MHz");
    assert_eq!(freq_to_band(hz(868.3)), "868 MHz");
    assert_eq!(freq_to_band(hz(915.0)), "915 MHz");
    assert_eq!(freq_to_band(hz(100.0)), "100 MHz"); // outside known bands -> fallback
}

#[test]
fn band_bounds_are_inclusive() {
    assert_eq!(freq_to_band(310_000_000), "315 MHz");
    assert_eq!(freq_to_band(320_000_000), "315 MHz");
    assert_eq!(freq_to_band(309_999_999), "310 MHz");
    assert_eq!(freq_to_band(436_000_001), "436 MHz");
    assert_eq!(freq_to_band(928_000_000), "915 MHz");
    assert_eq!(freq_to_band(1_200_400_000), "1200 MHz");
    assert_eq!(freq_to_band(1_200_600_000), "1201 MHz");
    assert_eq!(freq_to_band(0), "0 MHz");
}

#[test]
fn command_frames_carry_length_and_payload() {
    assert_eq!(command_frame(0xff, 0x82, b"ABC"), vec![0xff, 0x82, 3, 0, b'A', b'B', b'C']);
    assert_eq!(command_frame(1, 2, &[]), vec![1, 2, 0, 0]);
    let big = vec![7u8; 300];
    let f = command_frame(APP_SYSTEM, SYS_CMD_POKE, &big);
    assert_eq!(&f[..4], &[0xff, 0x81, 44, 1]);
    assert_eq!(f.len(), 304);
}

#[test]
fn register_payloads() {
    assert_eq!(peek_payload(RSSI, 1), vec![1, 0, 0x06, 0xdf]);
    assert_eq!(poke_payload(FREQ2, &[0x10, 0xb1, 0x3b]), vec![0x09, 0xdf, 0x10, 0xb1, 0x3b]);
    assert_eq!(SYS_CMD_PEEK, 0x80);
    assert_eq!(freq_register_values(0x0010_b13b), [0x10, 0xb1, 0x3b]);
    assert_eq!(freq_register_values(0xff12_3456), [0x12, 0x34, 0x56]);
}

#[test]
fn rssi_reply_decoding() {
    // '@' header of five bytes, then the register value.
    assert_eq!(rssi_from_response(&[0x40, 0xff, 0x80, 1, 0, 0x10]), Some(16 - 74));
    // Four-byte header.
    assert_eq!(rssi_from_response(&[0xff, 0x80, 1, 0, 0xf0]), Some(-16 - 74));
    // Short reply: the first byte is the value.
    assert_eq!(rssi_from_response(&[0x80]), Some(-128 - 74));
    assert_eq!(rssi_from_response(&[]), None);
    // Exactly five bytes starting with '@': the four-byte rule applies.
    assert_eq!(rssi_from_response(&[0x40, 1, 2, 3, 0x05]), Some(5 - 74));
}

#[test]
fn readings_below_the_noise_floor_are_dropped() {
    assert!(signal_at(433_920_000, -100).is_none());
    let s = signal_at(433_920_000, -99).unwrap();
    assert_eq!(s.freq_hz, 433_920_000);
    assert_eq!(s.rssi_dbm, -99);
    assert_eq!(s.band, "433 MHz");
}

#[test]
fn sweep_walks_the_ranges_in_order() {
    let mut p = SweepPos::start();
    assert_eq!((p.range, p.freq_hz), (0, 312_000_000));
    p.advance();
    assert_eq!((p.range, p.freq_hz), (0, 312_200_000));
    let mut steps = 1;
    while p.range == 0 {
        p.advance();
        steps += 1;
    }
    // 312.0 to 318.0 MHz in 200 kHz steps is 31 frequencies.
    assert_eq!(steps, 31);
    assert_eq!((p.range, p.freq_hz), (1, 430_000_000));
    while p.range != 3 {
        p.advance();
    }
    assert_eq!(p.freq_hz, 902_000_000);
    while p.range == 3 {
        assert!(p.freq_hz <= 928_000_000);
        p.advance();
    }
    assert_eq!((p.range, p.freq_hz), (0, 312_000_000));
}

#[test]
fn startup_report() {
    assert_eq!(
        peek_diagnostic(&Ok(vec![0x40, 0x0a, 0xff])),
        "YS1 connected (peek OK: [40 0a ff]) — scanning"
    );
    assert_eq!(peek_diagnostic(&Ok(vec![])), "YS1 connected (peek empty) — scanning");
    assert_eq!(
        peek_diagnostic(&Err("timed out".to_string())),
        "YS1 peek failed: timed out — scanning anyway"
    );
}

#[test]
fn dongle_ids() {
    assert_eq!(yardstick_pids(), [0x605b, 0x6048, 0x604f, 0x6047]);
    assert_eq!(airprowl::subghz::YS1_VID, 0x1d50);
}
