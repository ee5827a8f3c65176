//! Turning captured 802.11 frames into WiFi client sightings: probe
//! requests announce a client, probe responses reveal an access point, and
//! data frames from anything not known to be an access point are clients.

use std::collections::HashSet;
use vstd::prelude::*;

use libwifi::Frame;

use crate::elements::{frame_stops_parser, stops_parser};
use crate::events::WifiClientUpdate;
use crate::oui::opt_string;
use crate::radiotap::{extract_rssi, header_len, radiotap_len, radiotap_rssi};

verus! {

broadcast use vstd::std_specs::hash::group_hash_axioms;

/// What client tracking reads of a parsed 802.11 frame: its kind and the
/// transmitter address (the header's second address).
pub enum WifiFrame {
    ProbeRequest { source: [u8; 6], ssid: Option<String> },
    ProbeResponse { source: [u8; 6] },
    Data { source: [u8; 6] },
    QosData { source: [u8; 6] },
    Other,
}

/// A [`WifiFrame`] with its address as a byte sequence and its SSID as
/// characters.
pub enum FrameView {
    ProbeRequest { source: Seq<u8>, ssid: Option<Seq<char>> },
    ProbeResponse { source: Seq<u8> },
    Data { source: Seq<u8> },
    QosData { source: Seq<u8> },
    Other,
}

impl View for WifiFrame {
    type V = FrameView;

    open spec fn view(&self) -> FrameView {
        match self {
            WifiFrame::ProbeRequest { source, ssid } => FrameView::ProbeRequest {
                source: source@,
                ssid: opt_string(*ssid),
            },
            WifiFrame::ProbeResponse { source } => FrameView::ProbeResponse { source: source@ },
            WifiFrame::Data { source } => FrameView::Data { source: source@ },
            WifiFrame::QosData { source } => FrameView::QosData { source: source@ },
            WifiFrame::Other => FrameView::Other,
        }
    }
}

/// What the 802.11 frame parser makes of `bytes` (no trailing FCS):
/// `None` when it rejects them.
pub uninterp spec fn parsed_frame(bytes: Seq<u8>) -> Option<FrameView>;

/// The frame view of an optional parsed frame.
pub open spec fn opt_frame(f: Option<WifiFrame>) -> Option<FrameView> {
    match f {
        Some(w) => Some(w@),
        None => None,
    }
}

/// Calls `libwifi::parse_frame(bytes, false)` and keeps the kind and the
/// transmitter address of probe requests (with their SSID), probe
/// responses, data and QoS data frames; every other kind is `Other`, and a
/// parse error is `None`. The contract only names the result: what the
/// parser accepts is libwifi's own grammar of 802.11 frames. It is not
/// called on frames on which libwifi reads past a WPS element.
#[verifier::external_body]
fn parse_wifi_frame(bytes: &[u8]) -> (r: Option<WifiFrame>)
    requires
        !frame_stops_parser(bytes@),
    ensures
        opt_frame(r) == parsed_frame(bytes@),
{
    match libwifi::parse_frame(bytes, false) {
        Ok(Frame::ProbeRequest(req)) => Some(
            WifiFrame::ProbeRequest { source: req.header.address_2.0, ssid: req.station_info.ssid },
        ),
        Ok(Frame::ProbeResponse(resp)) => Some(
            WifiFrame::ProbeResponse { source: resp.header.address_2.0 },
        ),
        Ok(Frame::Data(data)) => Some(WifiFrame::Data { source: data.header.address_2.0 }),
        Ok(Frame::QosData(qos)) => Some(WifiFrame::QosData { source: qos.header.address_2.0 }),
        Ok(_) => Some(WifiFrame::Other),
        Err(_) => None,
    }
}

// ---------------------------------------------------------------------------
// Addresses
// ---------------------------------------------------------------------------

/// A group (multicast or broadcast) address: the lowest bit of its first
/// byte is set.
pub open spec fn is_group(a: Seq<u8>) -> bool {
    a[0] % 2 == 1
}

/// The 48-bit number whose big-endian bytes are `a`.
pub open spec fn mac_number(a: Seq<u8>) -> u64 {
    (a[0] as int * 0x100_0000_0000 + a[1] as int * 0x1_0000_0000 + a[2] as int * 0x100_0000
        + a[3] as int * 0x1_0000 + a[4] as int * 0x100 + a[5] as int) as u64
}

/// An uppercase hexadecimal digit.
pub open spec fn hex_upper(n: nat) -> char {
    if n < 10 {
        ((n + 48) as u8) as char
    } else {
        ((n + 55) as u8) as char
    }
}

/// `a` as twelve uppercase hexadecimal digits without separators.
pub open spec fn mac_upper(a: Seq<u8>) -> Seq<char>
    decreases a.len(),
{
    if a.len() == 0 {
        seq![]
    } else {
        seq![hex_upper((a[0] / 16) as nat), hex_upper((a[0] % 16) as nat)] + mac_upper(
            a.drop_first(),
        )
    }
}

fn hex_upper_char(n: u8) -> (c: char)
    requires
        n < 16,
    ensures
        c == hex_upper(n as nat),
{
    if n < 10 {
        (n + 48) as char
    } else {
        (n + 55) as char
    }
}

/// The address as twelve uppercase hexadecimal digits.
pub fn mac_text(a: [u8; 6]) -> (r: String)
    ensures
        r@ == mac_upper(a@),
{
    let mut s = String::new();
    let mut i: usize = 0;
    assert(a@.skip(0) =~= a@);
    assert(s@ + mac_upper(a@) =~= mac_upper(a@));
    while i < 6
        invariant
            i <= 6,
            a@.len() == 6,
            s@ + mac_upper(a@.skip(i as int)) == mac_upper(a@),
        decreases 6 - i,
    {
        let b = a[i];
        assert(a@.skip(i as int).drop_first() =~= a@.skip(i + 1));
        s.push(hex_upper_char(b / 16));
        s.push(hex_upper_char(b % 16));
        i = i + 1;
    }
    assert(a@.skip(6) =~= Seq::<u8>::empty());
    s
}

fn mac_key(a: [u8; 6]) -> (r: u64)
    ensures
        r == mac_number(a@),
{
    a[0] as u64 * 0x100_0000_0000 + a[1] as u64 * 0x1_0000_0000 + a[2] as u64 * 0x100_0000
        + a[3] as u64 * 0x1_0000 + a[4] as u64 * 0x100 + a[5] as u64
}

// ---------------------------------------------------------------------------
// Known access points
// ---------------------------------------------------------------------------

/// The transmitters seen sending probe responses, that is, access points.
pub struct KnownAps {
    set: HashSet<u64>,
}

impl View for KnownAps {
    type V = Set<u64>;

    closed spec fn view(&self) -> Set<u64> {
        self.set@
    }
}

impl KnownAps {
    pub fn new() -> (r: Self)
        ensures
            r@ == Set::<u64>::empty(),
    {
        KnownAps { set: HashSet::new() }
    }

    /// Whether the address `a` is a known access point.
    pub fn contains(&self, a: [u8; 6]) -> (r: bool)
        ensures
            r == self@.contains(mac_number(a@)),
    {
        let k = mac_key(a);
        self.set.contains(&k)
    }

    /// Records the address `a` as an access point.
    pub fn insert(&mut self, a: [u8; 6])
        ensures
            final(self)@ == old(self)@.insert(mac_number(a@)),
    {
        let k = mac_key(a);
        self.set.insert(k);
    }
}

// ---------------------------------------------------------------------------
// From frames to sightings
// ---------------------------------------------------------------------------

/// `r` reports the client `source` with signal `rssi`, probing for `ssid`.
pub open spec fn reports(
    r: Option<WifiClientUpdate>,
    source: Seq<u8>,
    rssi: Option<i16>,
    ssid: Option<Seq<char>>,
) -> bool {
    &&& r is Some
    &&& r->0.mac@ == mac_upper(source)
    &&& r->0.rssi == rssi
    &&& opt_string(r->0.probing_for) == ssid
}

/// An SSID, unless it is empty.
pub open spec fn nonempty(ssid: Option<Seq<char>>) -> Option<Seq<char>> {
    match ssid {
        Some(s) => if s.len() == 0 {
            None
        } else {
            Some(s)
        },
        None => None,
    }
}

/// One frame's effect: the sighting `r` it gives and the known access
/// points `after` it leaves, from those `before` it.
pub open spec fn client_step(
    f: FrameView,
    rssi: Option<i16>,
    before: Set<u64>,
    after: Set<u64>,
    r: Option<WifiClientUpdate>,
) -> bool {
    match f {
        FrameView::ProbeRequest { source, ssid } => {
            &&& after == before
            &&& if is_group(source) {
                r is None
            } else {
                reports(r, source, rssi, nonempty(ssid))
            }
        },
        FrameView::ProbeResponse { source } => {
            &&& r is None
            &&& after == before.insert(mac_number(source))
        },
        FrameView::Data { source } | FrameView::QosData { source } => {
            &&& after == before
            &&& if is_group(source) || before.contains(mac_number(source)) {
                r is None
            } else {
                reports(r, source, rssi, None)
            }
        },
        FrameView::Other => {
            &&& r is None
            &&& after == before
        },
    }
}

/// The client sighting that the frame `frame`, received with signal
/// `rssi`, gives; probe responses add their sender to `known`.
pub fn client_update_for(frame: WifiFrame, rssi: Option<i16>, known: &mut KnownAps) -> (r: Option<
    WifiClientUpdate,
>)
    ensures
        client_step(frame@, rssi, old(known)@, final(known)@, r),
{
    match frame {
        WifiFrame::ProbeRequest { source, ssid } => {
            if source[0] % 2 == 1 {
                return None;
            }
            let probing_for = match ssid {
                Some(s) => if s.as_str().is_empty() {
                    None
                } else {
                    Some(s)
                },
                None => None,
            };
            Some(WifiClientUpdate { mac: mac_text(source), rssi, probing_for })
        },
        WifiFrame::ProbeResponse { source } => {
            known.insert(source);
            None
        },
        WifiFrame::Data { source } | WifiFrame::QosData { source } => {
            if source[0] % 2 == 1 || known.contains(source) {
                return None;
            }
            Some(WifiClientUpdate { mac: mac_text(source), rssi, probing_for: None })
        },
        WifiFrame::Other => None,
    }
}

/// The effect of a packet that holds its radiotap header and more: the
/// frame after the header, as the parser reads it, handled as
/// [`client_step`] says with the signal from the header. A frame on which
/// the parser would read past a WPS element is dropped unread.
pub open spec fn packet_step(
    packet: Seq<u8>,
    before: Set<u64>,
    after: Set<u64>,
    r: Option<WifiClientUpdate>,
) -> bool {
    let n = header_len(packet) as int;
    if frame_stops_parser(packet.skip(n)) {
        r is None && after == before
    } else {
        match parsed_frame(packet.skip(n)) {
            None => r is None && after == before,
            Some(f) => client_step(f, radiotap_rssi(packet, n), before, after, r),
        }
    }
}

/// What a captured packet (radiotap header, then the 802.11 frame) gives:
/// packets too short to hold their radiotap header give nothing, and so do
/// frames the parser rejects or would read past; otherwise the frame is
/// handled as [`client_update_for`] says, with the signal from the radiotap header.
pub fn process_packet(packet: &[u8], known: &mut KnownAps) -> (r: Option<WifiClientUpdate>)
    ensures
        packet@.len() < 4 || packet@.len() <= header_len(packet@) ==> r is None
            && final(known)@ == old(known)@,
        packet@.len() >= 4 && packet@.len() > header_len(packet@) ==> packet_step(
            packet@,
            old(known)@,
            final(known)@,
            r,
        ),
{
    if packet.len() < 4 {
        return None;
    }
    let rt_len = radiotap_len(packet);
    if packet.len() <= rt_len {
        return None;
    }
    let rssi = extract_rssi(packet, rt_len);
    let body = slice_from(packet, rt_len);
    if stops_parser(body) {
        return None;
    }
    match parse_wifi_frame(body) {
        Some(frame) => client_update_for(frame, rssi, known),
        None => None,
    }
}

fn slice_from(v: &[u8], start: usize) -> (r: &[u8])
    requires
        start <= v@.len(),
    ensures
        r@ == v@.skip(start as int),
{
    let r = &v[start..v.len()];
    assert(r@ =~= v@.skip(start as int));
    r
}

} // verus!
