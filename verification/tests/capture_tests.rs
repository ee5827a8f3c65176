use airprowl::elements::stops_parser;
use airprowl::radiotap::{extract_rssi, radiotap_len};
use airprowl::sniffer::{client_update_for, mac_text, process_packet, KnownAps, WifiFrame};

fn radiotap_with_signal(dbm: i8) -> Vec<u8> {
    // version, pad, length 9, presence word with only the antenna signal.
    vec![0, 0, 9, 0, 0x20, 0, 0, 0, dbm as u8]
}

fn header(fc0: u8, source: [u8; 6]) -> Vec<u8> {
    let mut f = vec![fc0, 0x00, 0, 0];
    f.extend_from_slice(&[0xff; 6]);
    f.extend_from_slice(&source);
    f.extend_from_slice(&[0x02, 0x11, 0x22, 0x33, 0x44, 0x55]);
    f.extend_from_slice(&[0x10, 0x00]);
    f
}

fn probe_request(source: [u8; 6], ssid: &str) -> Vec<u8> {
    let mut f = header(0x40, source);
    f.push(0);
    f.push(ssid.len() as u8);
    f.extend_from_slice(ssid.as_bytes());
    f
}

fn probe_response(source: [u8; 6]) -> Vec<u8> {
    let mut f = header(0x50, source);
    f.extend_from_slice(&[0; 8]);
    f.extend_from_slice(&[0x64, 0x00, 0x01, 0x00]);
    f.extend_from_slice(&[0, 3, b'n', b'e', b't']);
    f
}

fn data_frame(source: [u8; 6]) -> Vec<u8> {
    let mut f = header(0x08, source);
    f.extend_from_slice(&[1, 2, 3, 4, 5, 6, 7, 8]);
    f
}

fn packet(dbm: i8, frame: Vec<u8>) -> Vec<u8> {
    let mut p = radiotap_with_signal(dbm);
    p.extend(frame);
    p
}

#[test]
fn antenna_signal_is_read_from_the_header() {
    let h = radiotap_with_signal(-60);
    assert_eq!(radiotap_len(&h), 9);
    assert_eq!(extract_rssi(&h, 9), Some(-60));
    // The field lies outside the stated header length.
    assert_eq!(extract_rssi(&h, 8), None);
    // No antenna signal announced.
    assert_eq!(extract_rssi(&[0, 0, 8, 0, 0, 0, 0, 0], 8), None);
    // Too short.
    assert_eq!(extract_rssi(&[0, 0, 4, 0], 4), None);
}

#[test]
fn antenna_signal_after_other_fields() {
    // TSFT (8 bytes at offset 8), flags, rate, then the signal at 18.
    let mut h = vec![0, 0, 19, 0, 0x27, 0, 0, 0];
    h.extend_from_slice(&[0; 8]);
    h.push(0x10);
    h.push(0x02);
    h.push(0xb5);
    assert_eq!(extract_rssi(&h, 19), Some(-75));
    // Channel is 2-aligned: flags at 8 makes it start at 10, signal at 14.
    let h2 = vec![0, 0, 15, 0, 0x2a, 0, 0, 0, 0x10, 0, 0x6c, 0x09, 0xa0, 0x00, 0xc8];
    assert_eq!(extract_rssi(&h2, 15), Some(-56));
}

#[test]
fn extended_presence_words_are_followed() {
    // Extension bit set on the first word, a second word follows; the
    // chain ends short of the data.
    let h = vec![0, 0, 12, 0, 0x20, 0, 0, 0x80];
    assert_eq!(extract_rssi(&h, 12), None);
    // With the second word present, fields are read from where that word
    // starts.
    let h2 = vec![0, 0, 17, 0, 0x20, 0, 0, 0x80, 0xd0, 0, 0, 0, 0, 0, 0, 0, 0x99];
    assert_eq!(extract_rssi(&h2, 17), Some(0));
    let h3 = vec![0, 0, 17, 0, 0x20, 0, 0, 0x80, 0, 0, 0, 0, 0xd0, 0, 0, 0, 0x99];
    assert_eq!(extract_rssi(&h3, 17), Some(-48));
}

#[test]
fn probe_request_reports_a_client() {
    let mut known = KnownAps::new();
    let src = [0x00, 0x11, 0x22, 0x33, 0x44, 0x5a];
    let u = process_packet(&packet(-60, probe_request(src, "home")), &mut known).unwrap();
    assert_eq!(u.mac, "00112233445A");
    assert_eq!(u.rssi, Some(-60));
    assert_eq!(u.probing_for.as_deref(), Some("home"));
}

#[test]
fn wildcard_probe_has_no_ssid() {
    let mut known = KnownAps::new();
    let src = [0x00, 0x11, 0x22, 0x33, 0x44, 0x5a];
    let mut frame = header(0x40, src);
    frame.extend_from_slice(&[0, 0, 1, 1, 0x82]);
    let u = process_packet(&packet(-70, frame), &mut known).unwrap();
    assert_eq!(u.probing_for, None);
}

#[test]
fn group_sources_are_ignored() {
    let mut known = KnownAps::new();
    let group = [0x01, 0x00, 0x5e, 0x00, 0x00, 0x01];
    assert!(process_packet(&packet(-60, probe_request(group, "x")), &mut known).is_none());
    assert!(process_packet(&packet(-60, data_frame(group)), &mut known).is_none());
}

#[test]
fn access_points_are_not_clients() {
    let mut known = KnownAps::new();
    let ap = [0x00, 0xaa, 0xbb, 0xcc, 0xdd, 0xee];
    let station = [0x00, 0x01, 0x02, 0x03, 0x04, 0x05];
    let u = process_packet(&packet(-50, data_frame(ap)), &mut known).unwrap();
    assert_eq!(u.mac, "00AABBCCDDEE");
    assert!(process_packet(&packet(-50, probe_response(ap)), &mut known).is_none());
    assert!(known.contains(ap));
    assert!(process_packet(&packet(-50, data_frame(ap)), &mut known).is_none());
    let c = process_packet(&packet(-66, data_frame(station)), &mut known).unwrap();
    assert_eq!(c.mac, "000102030405");
    assert_eq!(c.rssi, Some(-66));
    assert_eq!(c.probing_for, None);
}

#[test]
fn short_or_headerless_packets_give_nothing() {
    let mut known = KnownAps::new();
    assert!(process_packet(&[0, 0, 9], &mut known).is_none());
    assert!(process_packet(&radiotap_with_signal(-60), &mut known).is_none());
    assert!(process_packet(&packet(-60, vec![0x40]), &mut known).is_none());
}

#[test]
fn frame_decisions() {
    let mut known = KnownAps::new();
    let a = [0x00, 0, 0, 0, 0, 1];
    assert!(client_update_for(WifiFrame::Other, Some(-1), &mut known).is_none());
    let u = client_update_for(
        WifiFrame::ProbeRequest { source: a, ssid: Some(String::new()) },
        None,
        &mut known,
    )
    .unwrap();
    assert_eq!(u.probing_for, None);
    assert_eq!(u.rssi, None);
    client_update_for(WifiFrame::ProbeResponse { source: a }, None, &mut known);
    assert!(client_update_for(WifiFrame::QosData { source: a }, None, &mut known).is_none());
    assert_eq!(mac_text([0xde, 0xad, 0xbe, 0xef, 0x00, 0x09]), "DEADBEEF0009");
}

fn with_wps(mut frame: Vec<u8>, attrs: &[u8]) -> Vec<u8> {
    frame.push(221);
    frame.push((4 + attrs.len()) as u8);
    frame.extend_from_slice(&[0x00, 0x50, 0xf2, 0x04]);
    frame.extend_from_slice(attrs);
    frame
}

#[test]
fn empty_wps_setup_state_at_the_end_is_dropped() {
    let src = [0x00, 0x11, 0x22, 0x33, 0x44, 0x5a];
    let bad = with_wps(probe_request(src, "home"), &[0x10, 0x57, 0x00, 0x00]);
    assert!(stops_parser(&bad));
    let mut known = KnownAps::new();
    assert!(process_packet(&packet(-60, bad), &mut known).is_none());
    // A setup state that holds its byte is read as usual.
    let good = with_wps(probe_request(src, "home"), &[0x10, 0x57, 0x00, 0x01, 0x02]);
    assert!(!stops_parser(&good));
    let u = process_packet(&packet(-60, good), &mut known).unwrap();
    assert_eq!(u.probing_for.as_deref(), Some("home"));
}

#[test]
fn wps_walk_ends_before_a_later_empty_setup_state() {
    let src = [0x00, 0x11, 0x22, 0x33, 0x44, 0x5a];
    // A device name that is not UTF-8 ends the attribute walk first.
    let attrs = [0x10, 0x11, 0x00, 0x01, 0xff, 0x10, 0x57, 0x00, 0x00];
    let frame = with_wps(probe_request(src, "home"), &attrs);
    assert!(!stops_parser(&frame));
    let mut known = KnownAps::new();
    let u = process_packet(&packet(-60, frame), &mut known).unwrap();
    assert_eq!(u.probing_for.as_deref(), Some("home"));
    // A valid name does not.
    let attrs2 = [0x10, 0x11, 0x00, 0x01, b'a', 0x10, 0x57, 0x00, 0x00];
    assert!(stops_parser(&with_wps(probe_request(src, "home"), &attrs2)));
    // Data frames carry no elements the parser walks.
    assert!(!stops_parser(&data_frame(src)));
}
