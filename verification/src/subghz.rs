//! The Yard Stick One (CC1111) sweep: the command frames sent to the
//! dongle, reading its RSSI register, naming ISM bands and stepping through
//! the scanned frequency ranges.

use vstd::prelude::*;

use crate::events::SubGhzSignal;
use crate::text::{decimal, push_decimal};

verus! {

/// USB vendor id of the dongle.
pub const YS1_VID: u16 = 0x1d50;
/// Bulk endpoint towards the dongle.
pub const EP_OUT: u8 = 0x05;
/// Bulk endpoint from the dongle.
pub const EP_IN: u8 = 0x85;
/// The firmware's system application.
pub const APP_SYSTEM: u8 = 0xff;
pub const SYS_CMD_PING: u8 = 0x82;
pub const SYS_CMD_PEEK: u8 = 0x80;
pub const SYS_CMD_POKE: u8 = 0x81;
/// RF strobe register.
pub const RFST: u16 = 0xdfe1;
/// RSSI register.
pub const RSSI: u16 = 0xdf06;
/// First of the three frequency registers.
pub const FREQ2: u16 = 0xdf09;
/// Main radio state machine register.
pub const MARCSTATE: u16 = 0xdf14;
pub const SCAL: u8 = 0x01;
pub const SRX: u8 = 0x02;
pub const SIDLE: u8 = 0x04;
/// Readings at or below this level (dBm) are noise.
pub const NOISE_FLOOR_DBM: i32 = -100;
/// What the CC1111 adds to a level in dBm to give its RSSI reading.
pub const RSSI_OFFSET: i32 = 74;

/// The product ids the dongle enumerates under.
pub fn yardstick_pids() -> (r: [u16; 4])
    ensures
        r@ == seq![0x605bu16, 0x6048u16, 0x604fu16, 0x6047u16],
{
    let r = [0x605bu16, 0x6048, 0x604f, 0x6047];
    assert(r@ =~= seq![0x605bu16, 0x6048u16, 0x604fu16, 0x6047u16]);
    r
}

// ---------------------------------------------------------------------------
// Frames
// ---------------------------------------------------------------------------

/// The two little-endian bytes of the 16-bit value `v`.
pub open spec fn le_bytes(v: nat) -> Seq<u8> {
    seq![(v % 256) as u8, ((v / 256) % 256) as u8]
}

fn push_le16(out: &mut Vec<u8>, v: u16)
    ensures
        final(out)@ == old(out)@ + le_bytes(v as nat),
{
    out.push((v % 256) as u8);
    out.push((v / 256) as u8);
    assert(final(out)@ =~= old(out)@ + le_bytes(v as nat));
}

fn push_all(out: &mut Vec<u8>, data: &[u8])
    ensures
        final(out)@ == old(out)@ + data@,
{
    let mut i: usize = 0;
    while i < data.len()
        invariant
            i <= data@.len(),
            out@ == old(out)@ + data@.take(i as int),
        decreases data@.len() - i,
    {
        out.push(data[i]);
        assert(data@.take(i as int).push(data@[i as int]) =~= data@.take(i + 1));
        i = i + 1;
    }
    assert(data@.take(data@.len() as int) =~= data@);
}

/// A command to the dongle: application, command, the payload length as a
/// 16-bit little-endian number (taken modulo 2^16), then the payload.
pub open spec fn command_bytes(app: u8, cmd: u8, payload: Seq<u8>) -> Seq<u8> {
    seq![app, cmd] + le_bytes(payload.len() % 65536) + payload
}

/// The bytes of a command with payload `payload`.
pub fn command_frame(app: u8, cmd: u8, payload: &[u8]) -> (r: Vec<u8>)
    ensures
        r@ == command_bytes(app, cmd, payload@),
{
    let mut msg: Vec<u8> = Vec::new();
    msg.push(app);
    msg.push(cmd);
    let len = (payload.len() % 65536) as u16;
    push_le16(&mut msg, len);
    push_all(&mut msg, payload);
    assert(msg@ =~= command_bytes(app, cmd, payload@));
    msg
}

/// The payload of a register read: count, then address, both 16-bit
/// little-endian.
pub fn peek_payload(addr: u16, count: u16) -> (r: Vec<u8>)
    ensures
        r@ == le_bytes(count as nat) + le_bytes(addr as nat),
{
    let mut p: Vec<u8> = Vec::new();
    push_le16(&mut p, count);
    push_le16(&mut p, addr);
    assert(p@ =~= le_bytes(count as nat) + le_bytes(addr as nat));
    p
}

/// The payload of a register write: the 16-bit little-endian address,
/// then the values.
pub fn poke_payload(addr: u16, values: &[u8]) -> (r: Vec<u8>)
    ensures
        r@ == le_bytes(addr as nat) + values@,
{
    let mut p: Vec<u8> = Vec::new();
    push_le16(&mut p, addr);
    push_all(&mut p, values);
    assert(p@ =~= le_bytes(addr as nat) + values@);
    p
}

/// The three frequency register values (FREQ2, FREQ1, FREQ0) for the
/// frequency word `num`: its bits 16-23, 8-15 and 0-7.
pub fn freq_register_values(num: u32) -> (r: [u8; 3])
    ensures
        r@ == seq![((num / 65536) % 256) as u8, ((num / 256) % 256) as u8, (num % 256) as u8],
{
    let r = [((num / 65536) % 256) as u8, ((num / 256) % 256) as u8, (num % 256) as u8];
    assert(r@ =~= seq![((num / 65536) % 256) as u8, ((num / 256) % 256) as u8, (num % 256) as u8]);
    r
}

// ---------------------------------------------------------------------------
// Readings
// ---------------------------------------------------------------------------

/// A byte read as a two's-complement signed value.
pub open spec fn signed(b: u8) -> int {
    if b < 128 { b as int } else { b as int - 256 }
}

/// Where the register data starts in a reply: after the 5-byte header
/// (`@`, application, command, 16-bit length) when the reply starts with
/// `@` and is longer than that, else after 4 bytes when it is longer than
/// 4, else at once.
pub open spec fn data_start(resp: Seq<u8>) -> int {
    if resp.len() > 5 && resp[0] == 0x40 {
        5
    } else if resp.len() > 4 {
        4
    } else {
        0
    }
}

/// The level in dBm that a reply to an RSSI read gives: the signed
/// register value less the chip's offset. `None` for an empty reply.
pub open spec fn reply_rssi(resp: Seq<u8>) -> Option<i32> {
    let at = data_start(resp);
    if resp.len() > at {
        Some((signed(resp[at]) - RSSI_OFFSET) as i32)
    } else {
        None
    }
}

/// The level in dBm in the reply `resp` to an RSSI register read.
pub fn rssi_from_response(resp: &[u8]) -> (r: Option<i32>)
    ensures
        r == reply_rssi(resp@),
{
    let at: usize = if resp.len() > 5 && resp[0] == 0x40 {
        5
    } else if resp.len() > 4 {
        4
    } else {
        0
    };
    if resp.len() > at {
        let b = resp[at];
        let v: i32 = if b < 128 {
            b as i32
        } else {
            b as i32 - 256
        };
        Some(v - RSSI_OFFSET)
    } else {
        None
    }
}

// ---------------------------------------------------------------------------
// Bands
// ---------------------------------------------------------------------------

/// `n / d` rounded to the nearest integer, ties to the even one.
pub open spec fn round_half_even(n: nat, d: nat) -> nat
    recommends
        d > 0,
{
    let q = n / d;
    let r = n % d;
    if 2 * r > d || (2 * r == d && q % 2 == 1) {
        q + 1
    } else {
        q
    }
}

/// The ISM band a frequency (Hz) lies in, bounds included; outside them
/// the frequency in whole MHz (nearest, ties to even) and ` MHz`.
pub open spec fn band_name(freq_hz: nat) -> Seq<char> {
    if 310_000_000 <= freq_hz <= 320_000_000 {
        "315 MHz"@
    } else if 430_000_000 <= freq_hz <= 436_000_000 {
        "433 MHz"@
    } else if 865_000_000 <= freq_hz <= 870_000_000 {
        "868 MHz"@
    } else if 902_000_000 <= freq_hz <= 928_000_000 {
        "915 MHz"@
    } else {
        decimal(round_half_even(freq_hz, 1_000_000)) + " MHz"@
    }
}

/// The band label of the frequency `freq_hz` (Hz).
pub fn freq_to_band(freq_hz: u32) -> (r: String)
    ensures
        r@ == band_name(freq_hz as nat),
{
    if 310_000_000 <= freq_hz && freq_hz <= 320_000_000 {
        "315 MHz".to_owned()
    } else if 430_000_000 <= freq_hz && freq_hz <= 436_000_000 {
        "433 MHz".to_owned()
    } else if 865_000_000 <= freq_hz && freq_hz <= 870_000_000 {
        "868 MHz".to_owned()
    } else if 902_000_000 <= freq_hz && freq_hz <= 928_000_000 {
        "915 MHz".to_owned()
    } else {
        let q = freq_hz / 1_000_000;
        let r = freq_hz % 1_000_000;
        let mhz = if 2 * r > 1_000_000 || (2 * r == 1_000_000 && q % 2 == 1) {
            q + 1
        } else {
            q
        };
        let mut s = String::new();
        push_decimal(&mut s, mhz as u64);
        s.push(' ');
        s.push('M');
        s.push('H');
        s.push('z');
        proof {
            reveal_strlit(" MHz");
        }
        assert(s@ =~= decimal(mhz as nat) + " MHz"@);
        s
    }
}

/// The signal a reading of `rssi_dbm` at `freq_hz` reports: only above
/// the noise floor, with the level as a 16-bit number and the band label.
pub fn signal_at(freq_hz: u32, rssi_dbm: i32) -> (r: Option<SubGhzSignal>)
    ensures
        rssi_dbm <= NOISE_FLOOR_DBM ==> r is None,
        rssi_dbm > NOISE_FLOOR_DBM ==> (r matches Some(s) && s.freq_hz == freq_hz && s.rssi_dbm
            == rssi_dbm as i16 && s.band@ == band_name(freq_hz as nat)),
{
    if rssi_dbm > NOISE_FLOOR_DBM {
        Some(SubGhzSignal { freq_hz, rssi_dbm: rssi_dbm as i16, band: freq_to_band(freq_hz) })
    } else {
        None
    }
}

// ---------------------------------------------------------------------------
// The sweep
// ---------------------------------------------------------------------------

/// The scanned ranges, in order: start, end and step in Hz.
pub open spec fn scan_range(i: int) -> (u32, u32, u32) {
    if i == 0 {
        (312_000_000, 318_000_000, 200_000)
    } else if i == 1 {
        (430_000_000, 435_000_000, 100_000)
    } else if i == 2 {
        (866_000_000, 870_000_000, 200_000)
    } else {
        (902_000_000, 928_000_000, 500_000)
    }
}

/// How many ranges the sweep goes through.
pub const SCAN_RANGE_COUNT: usize = 4;

/// Where the sweep stands: which range, and the frequency to measure next.
pub struct SweepPos {
    pub range: usize,
    pub freq_hz: u32,
}

/// A position on the grid of its range: inside it, a whole number of
/// steps from its start.
pub open spec fn on_grid(p: SweepPos) -> bool {
    let (start, end, step) = scan_range(p.range as int);
    &&& p.range < SCAN_RANGE_COUNT
    &&& start <= p.freq_hz <= end
    &&& (p.freq_hz - start) % (step as int) == 0
}

/// The position after `p`: one step on, or the start of the next range
/// (after the last, the first) once a step would leave the range.
pub open spec fn after(p: SweepPos) -> SweepPos {
    let (start, end, step) = scan_range(p.range as int);
    if p.freq_hz + step <= end {
        SweepPos { range: p.range, freq_hz: (p.freq_hz + step) as u32 }
    } else {
        let next = (p.range + 1) % (SCAN_RANGE_COUNT as int);
        SweepPos { range: next as usize, freq_hz: scan_range(next).0 }
    }
}

fn range_bounds(i: usize) -> (r: (u32, u32, u32))
    ensures
        r == scan_range(i as int),
{
    if i == 0 {
        (312_000_000, 318_000_000, 200_000)
    } else if i == 1 {
        (430_000_000, 435_000_000, 100_000)
    } else if i == 2 {
        (866_000_000, 870_000_000, 200_000)
    } else {
        (902_000_000, 928_000_000, 500_000)
    }
}

impl SweepPos {
    /// The first frequency of the first range.
    pub fn start() -> (r: Self)
        ensures
            r.range == 0,
            r.freq_hz == scan_range(0).0,
            on_grid(r),
    {
        SweepPos { range: 0, freq_hz: 312_000_000 }
    }

    /// Moves to the next frequency of the sweep.
    pub fn advance(&mut self)
        requires
            old(self).range < SCAN_RANGE_COUNT,
        ensures
            *final(self) == after(*old(self)),
    {
        let (_start, end, step) = range_bounds(self.range);
        if self.freq_hz <= end && end - self.freq_hz >= step {
            self.freq_hz = self.freq_hz + step;
        } else {
            let next = (self.range + 1) % SCAN_RANGE_COUNT;
            let (s, _e, _t) = range_bounds(next);
            self.range = next;
            self.freq_hz = s;
        }
    }
}

/// Every position the sweep moves to is on the grid of its range: the
/// sweep never measures outside the scanned ranges nor off their steps.
pub proof fn sweep_stays_on_grid(p: SweepPos)
    requires
        on_grid(p),
    ensures
        on_grid(after(p)),
{
    let (start, end, step) = scan_range(p.range as int);
    if p.freq_hz + step <= end {
        assert((p.freq_hz + step - start) % (step as int) == 0) by {
            vstd::arithmetic::div_mod::lemma_mod_add_multiples_vanish(
                (p.freq_hz - start) as int,
                step as int,
            );
        }
    } else {
        let next = (p.range + 1) % (SCAN_RANGE_COUNT as int);
        assert(0 <= next < 4);
    }
}

// ---------------------------------------------------------------------------
// Start-up report
// ---------------------------------------------------------------------------

/// A lowercase hexadecimal digit.
pub open spec fn hex_lower(n: nat) -> char {
    if n < 10 {
        ((n + 48) as u8) as char
    } else {
        ((n + 87) as u8) as char
    }
}

/// Each byte as two lowercase hexadecimal digits, separated by spaces.
pub open spec fn hex_list(b: Seq<u8>) -> Seq<char>
    decreases b.len(),
{
    if b.len() == 0 {
        seq![]
    } else if b.len() == 1 {
        seq![hex_lower((b[0] / 16) as nat), hex_lower((b[0] % 16) as nat)]
    } else {
        hex_list(b.drop_last()) + seq![
            ' ',
            hex_lower((b.last() / 16) as nat),
            hex_lower((b.last() % 16) as nat),
        ]
    }
}

fn hex_lower_char(n: u8) -> (c: char)
    requires
        n < 16,
    ensures
        c == hex_lower(n as nat),
{
    if n < 10 {
        (n + 48) as char
    } else {
        (n + 87) as char
    }
}

/// The start-up report, from the reply to a read of the radio state
/// register (`Err` with the error's text when the read failed).
pub open spec fn peek_report(resp: Result<Seq<u8>, Seq<char>>) -> Seq<char> {
    match resp {
        Ok(b) => if b.len() == 0 {
            "YS1 connected (peek empty) — scanning"@
        } else {
            "YS1 connected (peek OK: ["@ + hex_list(b) + "]) — scanning"@
        },
        Err(e) => "YS1 peek failed: "@ + e + " — scanning anyway"@,
    }
}

/// The reply bytes, or the error text.
pub open spec fn reply_view(resp: &Result<Vec<u8>, String>) -> Result<Seq<u8>, Seq<char>> {
    match resp {
        Ok(b) => Ok(b@),
        Err(e) => Err(e@),
    }
}


/// The start-up report for the reply `resp` to the radio state read.
pub fn peek_diagnostic(resp: &Result<Vec<u8>, String>) -> (r: String)
    ensures
        r@ == peek_report(reply_view(resp)),
{
    match resp {
        Ok(b) => {
            if b.len() == 0 {
                "YS1 connected (peek empty) — scanning".to_owned()
            } else {
                let mut s = "YS1 connected (peek OK: [".to_owned();
                let ghost s0 = s@;
                let mut i: usize = 0;
                while i < b.len()
                    invariant
                        i <= b@.len(),
                        s@ == s0 + hex_list(b@.take(i as int)),
                    decreases b@.len() - i,
                {
                    let x = b[i];
                    assert(b@.take(i + 1).drop_last() =~= b@.take(i as int));
                    if i > 0 {
                        s.push(' ');
                    }
                    s.push(hex_lower_char(x / 16));
                    s.push(hex_lower_char(x % 16));
                    assert(s@ =~= s0 + hex_list(b@.take(i + 1)));
                    i = i + 1;
                }
                assert(b@.take(b@.len() as int) =~= b@);
                s.append("]) — scanning");
                s
            }
        },
        Err(e) => {
            let mut s = "YS1 peek failed: ".to_owned();
            s.append(e.as_str());
            s.append(" — scanning anyway");
            s
        },
    }
}

} // verus!
