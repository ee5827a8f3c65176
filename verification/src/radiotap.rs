//! The radiotap header that a monitor-mode interface puts in front of each
//! captured 802.11 frame: its length and the antenna signal field.

use vstd::prelude::*;

verus! {

/// The little-endian 16-bit value of two bytes.
pub open spec fn le16(b0: u8, b1: u8) -> nat {
    b0 as nat + 256 * (b1 as nat)
}

/// The little-endian 32-bit word of `d` at `at`.
pub open spec fn le32(d: Seq<u8>, at: int) -> u32 {
    (d[at] as int + 256 * (d[at + 1] as int) + 65536 * (d[at + 2] as int) + 16777216 * (
    d[at + 3] as int)) as u32
}

/// Whether the presence word `present` has any bit of `mask` set.
pub open spec fn flag(present: u32, mask: u32) -> bool {
    present & mask != 0
}

/// Follows the chain of presence words: while the word `p` read at `at`
/// has its extension bit set, the next word is read 4 bytes further on.
/// The offset reached is where field parsing starts; `None` when the chain
/// runs past the end of `d`.
pub open spec fn fields_start(d: Seq<u8>, at: int, p: u32) -> Option<int>
    decreases d.len() - at,
{
    if !flag(p, 0x8000_0000) {
        Some(at)
    } else if at + 8 > d.len() {
        None
    } else {
        fields_start(d, at + 4, le32(d, at + 4))
    }
}

/// `o` rounded up to a multiple of `a`.
pub open spec fn align_up(o: int, a: int) -> int {
    (o + a - 1) / a * a
}

/// Where the antenna signal field lies when the fields start at `o`:
/// past the TSFT (8 bytes, 8-aligned), flags (1), rate (1), channel
/// (4, 2-aligned) and FHSS (2) fields that `present` announces.
pub open spec fn signal_offset(present: u32, o: int) -> int {
    let o1 = if flag(present, 0x01) { align_up(o, 8) + 8 } else { o };
    let o2 = if flag(present, 0x02) { o1 + 1 } else { o1 };
    let o3 = if flag(present, 0x04) { o2 + 1 } else { o2 };
    let o4 = if flag(present, 0x08) { align_up(o3, 2) + 4 } else { o3 };
    if flag(present, 0x10) { o4 + 2 } else { o4 }
}

/// A byte read as a two's-complement signed value.
pub open spec fn signed_byte(b: u8) -> int {
    if b < 128 { b as int } else { b as int - 256 }
}

/// The antenna signal in dBm that the radiotap header of `d` (of length
/// `rt_len`) carries, if it carries one inside the header.
pub open spec fn radiotap_rssi(d: Seq<u8>, rt_len: int) -> Option<i16> {
    if d.len() < 8 || rt_len < 8 {
        None
    } else {
        let present = le32(d, 4);
        match fields_start(d, 8, present) {
            None => None,
            Some(o) => {
                let at = signal_offset(present, o);
                if flag(present, 0x20) && at < rt_len && at < d.len() {
                    Some(signed_byte(d[at]) as i16)
                } else {
                    None
                }
            },
        }
    }
}

/// The radiotap header length of a captured packet: the little-endian
/// 16-bit value at bytes 2 and 3.
pub open spec fn header_len(d: Seq<u8>) -> nat {
    le16(d[2], d[3])
}

fn le_u32_at(data: &[u8], at: usize) -> (r: u32)
    requires
        at + 4 <= data@.len(),
    ensures
        r == le32(data@, at as int),
{
    let b0 = data[at] as u32;
    let b1 = data[at + 1] as u32;
    let b2 = data[at + 2] as u32;
    let b3 = data[at + 3] as u32;
    b0 + b1 * 256 + b2 * 65536 + b3 * 16777216
}

/// The radiotap header length of `packet` (at least 4 bytes long).
pub fn radiotap_len(packet: &[u8]) -> (r: usize)
    requires
        packet@.len() >= 4,
    ensures
        r == header_len(packet@),
{
    let lo = packet[2] as usize;
    let hi = packet[3] as usize;
    lo + hi * 256
}

/// The antenna signal (dBm) from the radiotap header of `data`, whose
/// length is `rt_len`.
pub fn extract_rssi(data: &[u8], rt_len: usize) -> (r: Option<i16>)
    ensures
        r == radiotap_rssi(data@, rt_len as int),
{
    if data.len() < 8 || rt_len < 8 {
        return None;
    }
    let present = le_u32_at(data, 4);
    let mut offset: usize = 8;
    let mut p = present;
    while p & 0x8000_0000 != 0
        invariant
            8 <= offset <= data@.len(),
            rt_len >= 8,
            present == le32(data@, 4),
            fields_start(data@, offset as int, p) == fields_start(data@, 8, present),
        decreases data@.len() - offset,
    {
        if data.len() - offset < 8 {
            assert(fields_start(data@, offset as int, p) is None);
            return None;
        }
        offset = offset + 4;
        p = le_u32_at(data, offset);
    }
    assert(fields_start(data@, 8, present) == Some(offset as int));
    let mut at: u128 = offset as u128;
    if present & 0x01 != 0 {
        at = (at + 7) / 8 * 8 + 8;
    }
    if present & 0x02 != 0 {
        at = at + 1;
    }
    if present & 0x04 != 0 {
        at = at + 1;
    }
    if present & 0x08 != 0 {
        at = (at + 1) / 2 * 2 + 4;
    }
    if present & 0x10 != 0 {
        at = at + 2;
    }
    assert(at == signal_offset(present, offset as int));
    if present & 0x20 != 0 && at < rt_len as u128 && at < data.len() as u128 {
        let b = data[at as usize];
        if b < 128 {
            Some(b as i16)
        } else {
            Some(b as i16 - 256)
        }
    } else {
        None
    }
}

} // verus!
