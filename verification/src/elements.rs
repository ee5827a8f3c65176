//! The walk the 802.11 frame parser makes over a management frame's
//! information elements, as far as it decides whether the parser returns.
//!
//! libwifi 0.5 reads the WPS vendor element (OUI 00:50:F2, type 4)
//! attribute by attribute. When the last attribute is the setup state
//! (type 0x1057) with length 0, it reads the byte after the element's data
//! and the program stops. [`frame_stops_parser`] says of the bytes of a
//! frame (no trailing FCS) whether the parser reaches that read;
//! [`stops_parser`] computes it.

use vstd::prelude::*;

verus! {

/// The big-endian 16-bit number at `i`.
pub open spec fn be16(b: Seq<u8>, i: int) -> int {
    b[i] as int * 256 + b[i + 1] as int
}

/// The little-endian 16-bit number at `i`.
pub open spec fn le16(b: Seq<u8>, i: int) -> int {
    b[i] as int + b[i + 1] as int * 256
}

/// A UTF-8 continuation byte.
pub open spec fn is_cont(x: u8) -> bool {
    0x80 <= x <= 0xBF
}

/// The length of the well-formed UTF-8 character at `i` within `i..z`, or
/// 0 when none starts there.
pub open spec fn utf8_char_len(b: Seq<u8>, i: int, z: int) -> int {
    let x = b[i];
    let n = z - i;
    if x < 0x80 {
        1
    } else if 0xC2 <= x <= 0xDF {
        if n >= 2 && is_cont(b[i + 1]) { 2 } else { 0 }
    } else if x == 0xE0 {
        if n >= 3 && 0xA0 <= b[i + 1] <= 0xBF && is_cont(b[i + 2]) { 3 } else { 0 }
    } else if x == 0xED {
        if n >= 3 && 0x80 <= b[i + 1] <= 0x9F && is_cont(b[i + 2]) { 3 } else { 0 }
    } else if 0xE1 <= x <= 0xEF {
        if n >= 3 && is_cont(b[i + 1]) && is_cont(b[i + 2]) { 3 } else { 0 }
    } else if x == 0xF0 {
        if n >= 4 && 0x90 <= b[i + 1] <= 0xBF && is_cont(b[i + 2]) && is_cont(b[i + 3]) {
            4
        } else {
            0
        }
    } else if x == 0xF4 {
        if n >= 4 && 0x80 <= b[i + 1] <= 0x8F && is_cont(b[i + 2]) && is_cont(b[i + 3]) {
            4
        } else {
            0
        }
    } else if 0xF1 <= x <= 0xF3 {
        if n >= 4 && is_cont(b[i + 1]) && is_cont(b[i + 2]) && is_cont(b[i + 3]) {
            4
        } else {
            0
        }
    } else {
        0
    }
}

/// The bytes `i..z` are well-formed UTF-8.
pub open spec fn utf8_valid(b: Seq<u8>, i: int, z: int) -> bool
    decreases z - i,
{
    if i >= z {
        true
    } else {
        let k = utf8_char_len(b, i, z);
        if k <= 0 || k > z - i {
            false
        } else {
            utf8_valid(b, i + k, z)
        }
    }
}

/// A WPS attribute the parser reads as UTF-8 text.
pub open spec fn wps_text(t: int) -> bool {
    t == 0x1021 || t == 0x1023 || t == 0x1024 || t == 0x1042 || t == 0x1011
}

/// Reading the WPS attributes from `o` to `z` reaches a setup-state
/// attribute of length 0 that ends the data. The walk ends early where an
/// attribute does not fit, a setup state is neither 1 nor 2, or a text
/// attribute is not UTF-8.
pub open spec fn wps_stops(b: Seq<u8>, o: int, z: int) -> bool
    decreases z - o,
{
    if z - o < 4 {
        false
    } else {
        let t = be16(b, o);
        let l = be16(b, o + 2);
        let v = o + 4;
        if l > z - v {
            false
        } else if t == 0x1057 && v == z {
            true
        } else if t == 0x1057 && b[v] != 1 && b[v] != 2 {
            false
        } else if wps_text(t) && !utf8_valid(b, v, v + l) {
            false
        } else {
            wps_stops(b, v + l, z)
        }
    }
}

/// The parser accepts the WPA vendor data in `a..z`: version 1, and the
/// cipher and key-management suite lists it announces fit.
pub open spec fn wpa_ok(b: Seq<u8>, a: int, z: int) -> bool {
    let n = z - a;
    &&& n >= 10
    &&& le16(b, a) == 1
    &&& n >= 8 + 4 * le16(b, a + 6) + 2
    &&& n >= 8 + 4 * le16(b, a + 6) + 2 + 4 * le16(b, a + 8 + 4 * le16(b, a + 6))
}

/// The element at `p` is a vendor element of the 00:50:F2 OUI with
/// type `ty`.
pub open spec fn ms_vendor(b: Seq<u8>, p: int, ty: u8) -> bool {
    &&& b[p] == 221
    &&& b[p + 1] >= 4
    &&& b[p + 2] == 0x00
    &&& b[p + 3] == 0x50
    &&& b[p + 4] == 0xf2
    &&& b[p + 5] == ty
}

/// Walking the information elements from `p` to the end reaches a WPS
/// element on which the parser stops the program. The walk ends where an
/// element does not fit, a WPA element is refused, or at most four bytes
/// follow a non-empty element.
pub open spec fn elements_stop(b: Seq<u8>, p: int) -> bool
    decreases b.len() - p,
{
    let z = b.len() as int;
    if z - p < 2 {
        false
    } else {
        let l = b[p + 1] as int;
        let q = p + 2 + l;
        if q > z {
            false
        } else if l == 0 {
            elements_stop(b, q)
        } else if ms_vendor(b, p, 4) && wps_stops(b, p + 6, q) {
            true
        } else if ms_vendor(b, p, 1) && !wpa_ok(b, p + 6, q) {
            false
        } else if z - q <= 4 {
            false
        } else {
            elements_stop(b, q)
        }
    }
}

/// The parser, given the frame `b`, reaches the read past a WPS element:
/// `b` is a management frame whose fixed fields are present and whose
/// elements, from where that subtype's parser starts reading them, hold
/// such an element.
pub open spec fn frame_stops_parser(b: Seq<u8>) -> bool {
    &&& b.len() >= 2
    &&& (b[0] / 4) % 4 == 0
    &&& {
        let st = b[0] / 16;
        let n = b.len();
        if st == 0 {
            n >= 28 && elements_stop(b, 28)
        } else if st == 1 {
            n >= 30 && elements_stop(b, 30)
        } else if st == 2 {
            n >= 34 && elements_stop(b, 34)
        } else if st == 3 {
            n >= 30 && elements_stop(b, 24)
        } else if st == 4 {
            n >= 24 && elements_stop(b, 24)
        } else if st == 5 || st == 8 {
            n >= 36 && elements_stop(b, 36)
        } else if st == 11 {
            &&& n >= 30
            &&& !(le16(b, 24) == 1 && (le16(b, 26) == 2 || le16(b, 26) == 3))
            &&& elements_stop(b, 30)
        } else if st == 13 {
            n >= 26 && elements_stop(b, 26)
        } else {
            false
        }
    }
}

fn char_len(b: &[u8], i: usize, z: usize) -> (k: usize)
    requires
        i < z <= b@.len(),
    ensures
        k == utf8_char_len(b@, i as int, z as int),
        k <= z - i,
{
    let x = b[i];
    let n = z - i;
    if x < 0x80 {
        1
    } else if 0xC2 <= x && x <= 0xDF {
        if n >= 2 && 0x80 <= b[i + 1] && b[i + 1] <= 0xBF { 2 } else { 0 }
    } else if x == 0xE0 {
        if n >= 3 && 0xA0 <= b[i + 1] && b[i + 1] <= 0xBF && 0x80 <= b[i + 2] && b[i + 2] <= 0xBF {
            3
        } else {
            0
        }
    } else if x == 0xED {
        if n >= 3 && 0x80 <= b[i + 1] && b[i + 1] <= 0x9F && 0x80 <= b[i + 2] && b[i + 2] <= 0xBF {
            3
        } else {
            0
        }
    } else if 0xE1 <= x && x <= 0xEF {
        if n >= 3 && 0x80 <= b[i + 1] && b[i + 1] <= 0xBF && 0x80 <= b[i + 2] && b[i + 2] <= 0xBF {
            3
        } else {
            0
        }
    } else if x == 0xF0 {
        if n >= 4 && 0x90 <= b[i + 1] && b[i + 1] <= 0xBF && 0x80 <= b[i + 2] && b[i + 2] <= 0xBF
            && 0x80 <= b[i + 3] && b[i + 3] <= 0xBF {
            4
        } else {
            0
        }
    } else if x == 0xF4 {
        if n >= 4 && 0x80 <= b[i + 1] && b[i + 1] <= 0x8F && 0x80 <= b[i + 2] && b[i + 2] <= 0xBF
            && 0x80 <= b[i + 3] && b[i + 3] <= 0xBF {
            4
        } else {
            0
        }
    } else if 0xF1 <= x && x <= 0xF3 {
        if n >= 4 && 0x80 <= b[i + 1] && b[i + 1] <= 0xBF && 0x80 <= b[i + 2] && b[i + 2] <= 0xBF
            && 0x80 <= b[i + 3] && b[i + 3] <= 0xBF {
            4
        } else {
            0
        }
    } else {
        0
    }
}

/// Whether the bytes `start..end` are well-formed UTF-8.
pub fn is_utf8(b: &[u8], start: usize, end: usize) -> (r: bool)
    requires
        start <= end <= b@.len(),
    ensures
        r == utf8_valid(b@, start as int, end as int),
{
    let mut i = start;
    while i < end
        invariant
            start <= i <= end <= b@.len(),
            utf8_valid(b@, i as int, end as int) == utf8_valid(b@, start as int, end as int),
        decreases end - i,
    {
        let k = char_len(b, i, end);
        if k == 0 {
            return false;
        }
        i = i + k;
    }
    true
}

fn be16_at(b: &[u8], i: usize) -> (r: usize)
    requires
        i + 1 < b@.len(),
    ensures
        r == be16(b@, i as int),
{
    b[i] as usize * 256 + b[i + 1] as usize
}

fn le16_at(b: &[u8], i: usize) -> (r: usize)
    requires
        i + 1 < b@.len(),
    ensures
        r == le16(b@, i as int),
{
    b[i] as usize + b[i + 1] as usize * 256
}

fn wps_would_stop(b: &[u8], start: usize, z: usize) -> (r: bool)
    requires
        start <= z <= b@.len(),
    ensures
        r == wps_stops(b@, start as int, z as int),
{
    let mut o = start;
    while z - o >= 4
        invariant
            start <= o <= z <= b@.len(),
            wps_stops(b@, o as int, z as int) == wps_stops(b@, start as int, z as int),
        decreases z - o,
    {
        let t = be16_at(b, o);
        let l = be16_at(b, o + 2);
        let v = o + 4;
        if l > z - v {
            return false;
        }
        if t == 0x1057 && v == z {
            return true;
        }
        if t == 0x1057 && b[v] != 1 && b[v] != 2 {
            return false;
        }
        if (t == 0x1021 || t == 0x1023 || t == 0x1024 || t == 0x1042 || t == 0x1011) && !is_utf8(
            b,
            v,
            v + l,
        ) {
            return false;
        }
        o = v + l;
    }
    false
}

fn wpa_accepts(b: &[u8], a: usize, z: usize) -> (r: bool)
    requires
        a <= z <= b@.len(),
    ensures
        r == wpa_ok(b@, a as int, z as int),
{
    let n = z - a;
    if n < 10 {
        return false;
    }
    if le16_at(b, a) != 1 {
        return false;
    }
    let c = le16_at(b, a + 6);
    if n < 8 + 4 * c + 2 {
        return false;
    }
    let m = le16_at(b, a + 8 + 4 * c);
    n >= 8 + 4 * c + 2 + 4 * m
}

fn elements_would_stop(b: &[u8], start: usize) -> (r: bool)
    requires
        start <= b@.len(),
    ensures
        r == elements_stop(b@, start as int),
{
    let mut p = start;
    while b.len() - p >= 2
        invariant
            start <= p <= b@.len(),
            elements_stop(b@, p as int) == elements_stop(b@, start as int),
        decreases b@.len() - p,
    {
        let l = b[p + 1] as usize;
        if l > b.len() - p - 2 {
            return false;
        }
        let q = p + 2 + l;
        if l > 0 {
            let ms = b[p] == 221 && l >= 4 && b[p + 2] == 0x00 && b[p + 3] == 0x50 && b[p + 4]
                == 0xf2;
            if ms && b[p + 5] == 4 && wps_would_stop(b, p + 6, q) {
                return true;
            }
            if ms && b[p + 5] == 1 && !wpa_accepts(b, p + 6, q) {
                return false;
            }
            if b.len() - q <= 4 {
                return false;
            }
        }
        p = q;
    }
    false
}

/// Whether the 802.11 frame parser, given the frame `b` (no trailing FCS),
/// reaches the read past a WPS element.
pub fn stops_parser(b: &[u8]) -> (r: bool)
    ensures
        r == frame_stops_parser(b@),
{
    let n = b.len();
    if n < 2 || (b[0] / 4) % 4 != 0 {
        return false;
    }
    let st = b[0] / 16;
    if st == 0 {
        n >= 28 && elements_would_stop(b, 28)
    } else if st == 1 {
        n >= 30 && elements_would_stop(b, 30)
    } else if st == 2 {
        n >= 34 && elements_would_stop(b, 34)
    } else if st == 3 {
        n >= 30 && elements_would_stop(b, 24)
    } else if st == 4 {
        n >= 24 && elements_would_stop(b, 24)
    } else if st == 5 || st == 8 {
        n >= 36 && elements_would_stop(b, 36)
    } else if st == 11 {
        if n < 30 {
            return false;
        }
        let alg = le16_at(b, 24);
        let seq = le16_at(b, 26);
        if alg == 1 && (seq == 2 || seq == 3) {
            return false;
        }
        elements_would_stop(b, 30)
    } else if st == 13 {
        n >= 26 && elements_would_stop(b, 26)
    } else {
        false
    }
}

} // verus!
