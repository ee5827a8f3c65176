//! IEEE OUI vendor lookup and the combined vendor label for devices.

use std::collections::HashMap;
use vstd::prelude::*;

use crate::ble::BleCompanyDb;
use crate::text::lines;
use crate::text::{
    char_hex_val, char_is_hex, chars_eq, chars_of, copy_range, find_char, hex_val, is_hex, join,
    join_chars, lemma_chars_deep_view, remove_all, remove_all_chars, split_lines, split_words,
    string_of, trim, trim_chars, until_char, words, contains_word,
};

verus! {

broadcast use vstd::std_specs::hash::group_hash_axioms;

// ---------------------------------------------------------------------------
// MAC prefixes
// ---------------------------------------------------------------------------

/// The hexadecimal digits of `s`, in order, everything else dropped.
pub open spec fn hex_digits(s: Seq<char>) -> Seq<char>
    decreases s.len(),
{
    if s.len() == 0 {
        seq![]
    } else if is_hex(s.last()) {
        hex_digits(s.drop_last()).push(s.last())
    } else {
        hex_digits(s.drop_last())
    }
}

/// The byte written by the two hexadecimal digits `hi`, `lo`.
pub open spec fn hex_byte(hi: char, lo: char) -> u8 {
    (hex_val(hi) * 16 + hex_val(lo)) as u8
}

/// The first three bytes of a MAC address written in any of the forms
/// `001122`, `00:11:22`, `00-11-22` or `00.11.22`: the first six hexadecimal
/// digits of the text, when it has that many.
pub open spec fn mac_prefix(s: Seq<char>) -> Option<(u8, u8, u8)> {
    let h = hex_digits(s);
    if h.len() < 6 {
        None
    } else {
        Some((hex_byte(h[0], h[1]), hex_byte(h[2], h[3]), hex_byte(h[4], h[5])))
    }
}

/// The table key of a three-byte prefix.
pub open spec fn prefix_key(p: (u8, u8, u8)) -> u32 {
    (p.0 as nat * 65536 + p.1 as nat * 256 + p.2 as nat) as u32
}

fn key_of(p: (u8, u8, u8)) -> (k: u32)
    ensures
        k == prefix_key(p),
{
    p.0 as u32 * 65536 + p.1 as u32 * 256 + p.2 as u32
}

fn byte_of(hi: u8, lo: u8) -> (b: u8)
    requires
        hi < 16,
        lo < 16,
    ensures
        b as nat == hi as nat * 16 + lo as nat,
{
    hi * 16 + lo
}

/// First three bytes of the MAC address written in `mac`.
fn mac_prefix_chars(mac: &[char]) -> (r: Option<(u8, u8, u8)>)
    ensures
        r == mac_prefix(mac@),
{
    let mut vals: Vec<u8> = Vec::new();
    let mut count: usize = 0;
    let mut i: usize = 0;
    while i < mac.len()
        invariant
            i <= mac@.len(),
            count <= i,
            count == hex_digits(mac@.take(i as int)).len(),
            vals@.len() == if count < 6 {
                count
            } else {
                6
            },
            forall|k: int|
                0 <= k < vals@.len() ==> #[trigger] vals@[k] as nat == hex_val(
                    hex_digits(mac@.take(i as int))[k],
                ),
            forall|k: int|
                0 <= k < vals@.len() ==> is_hex(#[trigger] hex_digits(mac@.take(i as int))[k]),
        decreases mac@.len() - i,
    {
        let c = mac[i];
        let ghost before = hex_digits(mac@.take(i as int));
        assert(mac@.take(i + 1).drop_last() =~= mac@.take(i as int));
        assert(mac@.take(i + 1).last() == c);
        if char_is_hex(c) {
            assert(hex_digits(mac@.take(i + 1)) == before.push(c));
            if count < 6 {
                let v = char_hex_val(c);
                vals.push(v);
            }
            count = count + 1;
        }
        i = i + 1;
    }
    assert(mac@.take(i as int) =~= mac@);
    proof {
        lemma_hex_digits_all_hex(mac@);
    }
    if count < 6 {
        None
    } else {
        let ghost h = hex_digits(mac@);
        let b0 = byte_of(vals[0], vals[1]);
        let b1 = byte_of(vals[2], vals[3]);
        let b2 = byte_of(vals[4], vals[5]);
        Some((b0, b1, b2))
    }
}

proof fn lemma_hex_digits_all_hex(s: Seq<char>)
    ensures
        forall|k: int| 0 <= k < hex_digits(s).len() ==> is_hex(#[trigger] hex_digits(s)[k]),
    decreases s.len(),
{
    if s.len() > 0 {
        lemma_hex_digits_all_hex(s.drop_last());
        let p = hex_digits(s.drop_last());
        if is_hex(s.last()) {
            assert forall|k: int| 0 <= k < p.push(s.last()).len() implies is_hex(
                #[trigger] p.push(s.last())[k],
            ) by {
                if k < p.len() {
                    assert(p.push(s.last())[k] == p[k]);
                }
            }
        }
    }
}

/// Whether the locally-administered bit (bit 1 of the first byte) is set:
/// the 802.11 address randomisation signal.
pub open spec fn locally_administered(mac: Seq<char>) -> bool {
    match mac_prefix(mac) {
        Some(p) => p.0 & 2 != 0,
        None => false,
    }
}

fn locally_administered_chars(mac: &[char]) -> (r: bool)
    ensures
        r == locally_administered(mac@),
{
    match mac_prefix_chars(mac) {
        Some(p) => p.0 & 2 != 0,
        None => false,
    }
}


// ---------------------------------------------------------------------------
// Database lines
// ---------------------------------------------------------------------------

/// The vendor text of a database line, given the words after the prefix:
/// the words joined by single spaces, the `(hex)` and `(base 16)` markers
/// removed, everything from the first `#` on dropped, and the rest trimmed.
pub open spec fn vendor_text(rest: Seq<Seq<char>>) -> Seq<char> {
    let joined = join(rest, seq![' ']);
    let cleaned = remove_all(remove_all(joined, "(hex)"@), "(base 16)"@);
    trim(cleaned.take(until_char(cleaned, '#') as int))
}

/// A database line `PREFIX Vendor name`: the key of its prefix and the
/// vendor name, when the prefix parses and the name is not empty.
pub open spec fn oui_line(line: Seq<char>) -> Option<(u32, Seq<char>)> {
    let ws = words(line);
    if ws.len() == 0 {
        None
    } else {
        match mac_prefix(ws[0]) {
            None => None,
            Some(p) => {
                let vendor = vendor_text(ws.skip(1));
                if vendor.len() == 0 {
                    None
                } else {
                    Some((prefix_key(p), vendor))
                }
            },
        }
    }
}

fn line_entry(line: &[char]) -> (r: Option<(u32, Vec<char>)>)
    ensures
        match r {
            Some((k, v)) => oui_line(line@) == Some((k, v@)),
            None => oui_line(line@) is None,
        },
{
    let ws = split_words(line);
    if ws.len() == 0 {
        return None;
    }
    proof {
        lemma_chars_deep_view(ws@[0]);
    }
    let prefix = match mac_prefix_chars(&ws[0]) {
        Some(p) => p,
        None => return None,
    };
    let mut rest: Vec<Vec<char>> = Vec::new();
    let mut i: usize = 1;
    while i < ws.len()
        invariant
            1 <= i <= ws@.len(),
            rest.deep_view() == ws.deep_view().subrange(1, i as int),
        decreases ws@.len() - i,
    {
        let ghost before = rest.deep_view();
        let w = copy_range(&ws[i], 0, ws[i].len());
        proof {
            lemma_chars_deep_view(ws@[i as int]);
            lemma_chars_deep_view(w);
            assert(ws@[i as int]@.subrange(0, ws@[i as int]@.len() as int) =~= ws@[i as int]@);
        }
        rest.push(w);
        assert(rest.deep_view() =~= before.push(ws.deep_view()[i as int]));
        assert(ws.deep_view().subrange(1, i + 1) =~= ws.deep_view().subrange(1, i as int).push(
            ws.deep_view()[i as int],
        ));
        i = i + 1;
    }
    assert(ws.deep_view().subrange(1, ws@.len() as int) =~= ws.deep_view().skip(1));
    let joined = join_chars(&rest, ' ');
    let hex_marker = chars_of("(hex)");
    let base_marker = chars_of("(base 16)");
    proof {
        reveal_strlit("(hex)");
        reveal_strlit("(base 16)");
    }
    let cleaned1 = remove_all_chars(&joined, &hex_marker);
    let cleaned = remove_all_chars(&cleaned1, &base_marker);
    let cut = find_char(&cleaned, '#');
    let head = copy_range(&cleaned, 0, cut);
    assert(cleaned@.subrange(0, cut as int) =~= cleaned@.take(cut as int));
    let vendor = trim_chars(&head);
    if vendor.len() == 0 {
        None
    } else {
        Some((key_of(prefix), vendor))
    }
}

/// The entries of the database text, one per line that is neither blank
/// nor a `#` comment once trimmed, and that parses.
pub open spec fn oui_entries(ls: Seq<Seq<char>>) -> Seq<(u32, Seq<char>)>
    decreases ls.len(),
{
    if ls.len() == 0 {
        seq![]
    } else {
        let before = oui_entries(ls.drop_last());
        let t = trim(ls.last());
        if t.len() > 0 && t[0] != '#' {
            match oui_line(t) {
                Some(e) => before.push(e),
                None => before,
            }
        } else {
            before
        }
    }
}

/// The table built from `es` when the first entry for a key wins.
pub open spec fn first_wins(es: Seq<(u32, Seq<char>)>) -> Map<u32, Seq<char>>
    decreases es.len(),
{
    if es.len() == 0 {
        Map::empty()
    } else {
        let m = first_wins(es.drop_last());
        let e = es.last();
        if m.contains_key(e.0) {
            m
        } else {
            m.insert(e.0, e.1)
        }
    }
}

/// Vendor names by the first three bytes of a MAC address.
pub struct OuiDb {
    map: HashMap<u32, String>,
}

/// The vendor of `mac` in the table `m`.
pub open spec fn lookup_in(m: Map<u32, Seq<char>>, mac: Seq<char>) -> Option<Seq<char>> {
    match mac_prefix(mac) {
        None => None,
        Some(p) => if m.contains_key(prefix_key(p)) {
            Some(m[prefix_key(p)])
        } else {
            None
        },
    }
}

/// The characters of an optional string slice.
pub open spec fn opt_str(o: Option<&str>) -> Option<Seq<char>> {
    match o {
        Some(s) => Some(s@),
        None => None,
    }
}

/// The characters of an optional string.
pub open spec fn opt_string(o: Option<String>) -> Option<Seq<char>> {
    match o {
        Some(s) => Some(s@),
        None => None,
    }
}

impl View for OuiDb {
    type V = Map<u32, Seq<char>>;

    closed spec fn view(&self) -> Map<u32, Seq<char>> {
        self.map@.map_values(|s: String| s@)
    }
}

impl OuiDb {
    /// Builds the table from the text of the prefix database (one
    /// `PREFIX Vendor` per line, `#` comments): the first line for a prefix
    /// wins. `None` when no line gives an entry.
    pub fn load(text: &str) -> (r: Option<Self>)
        ensures
            r is None <==> oui_entries(lines(text@)).len() == 0,
            r matches Some(db) ==> db@ == first_wins(oui_entries(lines(text@))),
    {
        let chars = chars_of(text);
        let ls = split_lines(&chars);
        let ghost lv = ls.deep_view();
        let mut map: HashMap<u32, String> = HashMap::new();
        let mut n: usize = 0;
        let mut i: usize = 0;
        while i < ls.len()
            invariant
                i <= ls@.len(),
                lv == ls.deep_view(),
                map@.map_values(|s: String| s@) == first_wins(oui_entries(lv.take(i as int))),
                (n == 0) == (oui_entries(lv.take(i as int)).len() == 0),
            decreases ls@.len() - i,
        {
            let ghost prev = lv.take(i as int);
            assert(lv.take(i + 1).drop_last() =~= prev);
            proof {
                lemma_chars_deep_view(ls@[i as int]);
            }
            assert(lv.take(i + 1).last() == ls@[i as int]@);
            let t = trim_chars(&ls[i]);
            assert(t@ == trim(lv.take(i + 1).last()));
            if t.len() > 0 && t[0] != '#' {
                match line_entry(&t) {
                    Some((k, v)) => {
                        let ghost m0 = map@;
                        assert(oui_entries(lv.take(i + 1)) == oui_entries(prev).push((k, v@)));
                        assert(oui_entries(prev).push((k, v@)).drop_last() =~= oui_entries(prev));
                        assert(m0.map_values(|s: String| s@).contains_key(k) == m0.contains_key(k));
                        let present = map.contains_key(&k);
                        assert(present == m0.contains_key(k));
                        if !present {
                            map.insert(k, string_of(&v));
                            assert(map@.map_values(|s: String| s@) =~= m0.map_values(
                                |s: String| s@,
                            ).insert(k, v@));
                        } else {
                            assert(first_wins(oui_entries(lv.take(i + 1))) == first_wins(
                                oui_entries(prev),
                            ));
                        }
                        n = 1;
                    },
                    None => {
                        assert(oui_entries(lv.take(i + 1)) == oui_entries(prev));
                    },
                }
            } else {
                assert(oui_entries(lv.take(i + 1)) == oui_entries(prev));
            }
            i = i + 1;
        }
        assert(lv.take(ls@.len() as int) =~= lv);
        if n == 0 {
            None
        } else {
            Some(OuiDb { map })
        }
    }

    /// The vendor of the MAC address `mac`, by its first three bytes.
    pub fn lookup(&self, mac: &str) -> (r: Option<&str>)
        ensures
            opt_str(r) == lookup_in(self@, mac@),
    {
        let chars = chars_of(mac);
        let p = match mac_prefix_chars(&chars) {
            Some(p) => p,
            None => return None,
        };
        let k = key_of(p);
        match self.map.get(&k) {
            Some(s) => Some(s.as_str()),
            None => None,
        }
    }
}


// ---------------------------------------------------------------------------
// Vendor labels
// ---------------------------------------------------------------------------

/// Corporate suffixes that end the useful part of a vendor name.
pub open spec fn stop_words() -> Seq<Seq<char>> {
    seq![
        "Inc."@, "Inc"@, "Corp."@, "Corp"@, "LLC"@, "Corporation"@, "Ltd."@, "Ltd"@, "Co."@, "Co"@,
        "Electronics"@, "Limited"@, "GmbH"@, "S.A."@, "SA"@, "BV"@, "AG"@, "AS"@, "AB"@, "OY"@,
        "S.r.l."@, "S.p.A."@, "PLC"@, "B.V."@,
    ]
}

fn stop_list() -> (r: Vec<Vec<char>>)
    ensures
        r.deep_view() == stop_words(),
{
    let lits = [
        "Inc.", "Inc", "Corp.", "Corp", "LLC", "Corporation", "Ltd.", "Ltd", "Co.", "Co",
        "Electronics", "Limited", "GmbH", "S.A.", "SA", "BV", "AG", "AS", "AB", "OY", "S.r.l.",
        "S.p.A.", "PLC", "B.V.",
    ];
    let mut r: Vec<Vec<char>> = Vec::new();
    let mut i: usize = 0;
    while i < 24
        invariant
            i <= 24,
            lits@ == seq![
                "Inc.", "Inc", "Corp.", "Corp", "LLC", "Corporation", "Ltd.", "Ltd", "Co.", "Co",
                "Electronics", "Limited", "GmbH", "S.A.", "SA", "BV", "AG", "AS", "AB", "OY",
                "S.r.l.", "S.p.A.", "PLC", "B.V.",
            ],
            r.deep_view() == stop_words().take(i as int),
        decreases 24 - i,
    {
        let w = chars_of(lits[i]);
        let ghost before = r.deep_view();
        proof {
            lemma_chars_deep_view(w);
        }
        r.push(w);
        assert(r.deep_view() =~= before.push(lits@[i as int]@));
        assert(stop_words().take(i + 1) =~= stop_words().take(i as int).push(stop_words()[i as int]));
        i = i + 1;
    }
    assert(stop_words().take(24) =~= stop_words());
    r
}

/// The words of a vendor name up to the first corporate suffix.
pub open spec fn leading_vendor_words(ws: Seq<Seq<char>>) -> Seq<Seq<char>>
    decreases ws.len(),
{
    if ws.len() == 0 || stop_words().contains(ws[0]) {
        seq![]
    } else {
        seq![ws[0]] + leading_vendor_words(ws.drop_first())
    }
}

/// The short form of a vendor name: the trimmed text before the first
/// comma when there is one; otherwise the words before the first corporate
/// suffix, joined by spaces, or the whole name when that leaves nothing.
pub open spec fn short_vendor(name: Seq<char>) -> Seq<char> {
    let c = until_char(name, ',');
    if c < name.len() {
        trim(name.take(c as int))
    } else {
        let ws = leading_vendor_words(words(name));
        if ws.len() == 0 {
            name
        } else {
            join(ws, seq![' '])
        }
    }
}

/// "Samsung Electronics Co. Ltd." becomes "Samsung", "Apple, Inc." becomes
/// "Apple".
fn shorten_chars(name: &[char]) -> (r: Vec<char>)
    ensures
        r@ == short_vendor(name@),
{
    let c = find_char(name, ',');
    if c < name.len() {
        let head = copy_range(name, 0, c);
        assert(name@.subrange(0, c as int) =~= name@.take(c as int));
        return trim_chars(&head);
    }
    let ws = split_words(name);
    let stops = stop_list();
    let mut keep: Vec<Vec<char>> = Vec::new();
    let mut i: usize = 0;
    let ghost wv = ws.deep_view();
    assert(wv.skip(0) =~= wv);
    while i < ws.len() && !contains_word(&stops, &ws[i])
        invariant
            i <= ws@.len(),
            wv == ws.deep_view(),
            stops.deep_view() == stop_words(),
            leading_vendor_words(wv) == keep.deep_view() + leading_vendor_words(
                wv.skip(i as int),
            ),
        decreases ws@.len() - i,
    {
        proof {
            lemma_chars_deep_view(ws@[i as int]);
        }
        assert(wv.skip(i as int)[0] == wv[i as int]);
        let w = copy_range(&ws[i], 0, ws[i].len());
        assert(ws@[i as int]@.subrange(0, ws@[i as int]@.len() as int) =~= ws@[i as int]@);
        let ghost before = keep.deep_view();
        proof {
            lemma_chars_deep_view(w);
        }
        keep.push(w);
        assert(keep.deep_view() =~= before.push(wv[i as int]));
        assert(wv.skip(i as int).drop_first() =~= wv.skip(i + 1));
        assert(before + (seq![wv[i as int]] + leading_vendor_words(wv.skip(i + 1)))
            =~= before.push(wv[i as int]) + leading_vendor_words(wv.skip(i + 1)));
        i = i + 1;
    }
    assert(leading_vendor_words(wv) == keep.deep_view()) by {
        if i < ws@.len() {
            lemma_chars_deep_view(ws@[i as int]);
            assert(wv.skip(i as int)[0] == wv[i as int]);
            assert(leading_vendor_words(wv.skip(i as int)) == Seq::<Seq<char>>::empty());
        } else {
            assert(wv.skip(i as int).len() == 0);
        }
        assert(keep.deep_view() + Seq::<Seq<char>>::empty() =~= keep.deep_view());
    }
    if keep.len() == 0 {
        copy_range(name, 0, name.len())
    } else {
        join_chars(&keep, ' ')
    }
}

/// The vendor of a WiFi MAC: "random" when the locally-administered bit is
/// set, otherwise the prefix database entry.
pub open spec fn wifi_vendor(mac: Seq<char>, db: Option<&OuiDb>) -> Option<Seq<char>> {
    if locally_administered(mac) {
        Some("random"@)
    } else {
        match db {
            Some(d) => lookup_in(d@, mac),
            None => None,
        }
    }
}

/// WiFi-side vendor lookup: randomised addresses are reported as "random".
pub fn vendor_for_wifi(mac: &str, db: Option<&OuiDb>) -> (r: Option<String>)
    ensures
        opt_string(r) == wifi_vendor(mac@, db),
{
    let chars = chars_of(mac);
    if locally_administered_chars(&chars) {
        return Some(String::from_str("random"));
    }
    match db {
        Some(d) => match d.lookup(mac) {
            Some(s) => Some(String::from_str(s)),
            None => None,
        },
        None => None,
    }
}

/// All the signals available to identify a Bluetooth device.
pub struct BtIdentity<'a> {
    pub mac: &'a str,
    pub is_random: bool,
    pub company_id: Option<u16>,
    pub icon: Option<&'a str>,
}

/// The full vendor name of a Bluetooth device: the prefix database entry
/// for a public address, else the company registered under its company
/// identifier.
pub open spec fn bt_vendor_full(
    mac: Seq<char>,
    is_random: bool,
    company_id: Option<u16>,
    oui_db: Option<&OuiDb>,
    ble_db: Option<&BleCompanyDb>,
) -> Option<Seq<char>> {
    let from_oui = if is_random {
        None
    } else {
        match oui_db {
            Some(d) => lookup_in(d@, mac),
            None => None,
        }
    };
    match from_oui {
        Some(v) => Some(v),
        None => match (company_id, ble_db) {
            (Some(c), Some(b)) => if b@.contains_key(c) {
                Some(b@[c])
            } else {
                None
            },
            _ => None,
        },
    }
}

/// The label shown for a Bluetooth device: "Vendor, icon", "Vendor",
/// "icon", "random" for a random address with nothing else, or nothing.
pub open spec fn bt_vendor_label(
    mac: Seq<char>,
    is_random: bool,
    company_id: Option<u16>,
    icon: Option<Seq<char>>,
    oui_db: Option<&OuiDb>,
    ble_db: Option<&BleCompanyDb>,
) -> Option<Seq<char>> {
    let vendor = match bt_vendor_full(mac, is_random, company_id, oui_db, ble_db) {
        Some(v) => Some(short_vendor(v)),
        None => None,
    };
    let icon = match icon {
        Some(i) => if i.len() > 0 {
            Some(i)
        } else {
            None
        },
        None => None,
    };
    match (vendor, icon) {
        (Some(v), Some(i)) => Some(v + ", "@ + i),
        (Some(v), None) => Some(v),
        (None, Some(i)) => Some(i),
        (None, None) => if is_random {
            Some("random"@)
        } else {
            None
        },
    }
}

/// Bluetooth-side vendor lookup combining the address type, the prefix
/// database, the company identifier and the device-class icon.
pub fn vendor_for_bt(
    id: BtIdentity<'_>,
    oui_db: Option<&OuiDb>,
    ble_db: Option<&BleCompanyDb>,
) -> (r: Option<String>)
    ensures
        opt_string(r) == bt_vendor_label(
            id.mac@,
            id.is_random,
            id.company_id,
            opt_str(id.icon),
            oui_db,
            ble_db,
        ),
{
    let from_oui: Option<&str> = if id.is_random {
        None
    } else {
        match oui_db {
            Some(d) => d.lookup(id.mac),
            None => None,
        }
    };
    let full: Option<&str> = match from_oui {
        Some(v) => Some(v),
        None => match (id.company_id, ble_db) {
            (Some(c), Some(b)) => b.lookup(c),
            _ => None,
        },
    };
    let vendor: Option<Vec<char>> = match full {
        Some(v) => Some(shorten_chars(&chars_of(v))),
        None => None,
    };
    let icon: Option<&str> = match id.icon {
        Some(i) => if i.is_empty() {
            None
        } else {
            Some(i)
        },
        None => None,
    };
    match (vendor, icon) {
        (Some(v), Some(i)) => {
            let mut s = string_of(&v);
            s.append(", ");
            s.append(i);
            Some(s)
        },
        (Some(v), None) => Some(string_of(&v)),
        (None, Some(i)) => Some(String::from_str(i)),
        (None, None) => if id.is_random {
            Some(String::from_str("random"))
        } else {
            None
        },
    }
}

// ---------------------------------------------------------------------------
// Text entry points
// ---------------------------------------------------------------------------

/// The first three bytes of the MAC address written in `mac`, in any of
/// the forms `001122`, `00:11:22`, `00-11-22` or `00.11.22`.
pub fn parse_mac_prefix(mac: &str) -> (r: Option<[u8; 3]>)
    ensures
        match r {
            Some(b) => mac_prefix(mac@) == Some((b[0], b[1], b[2])),
            None => mac_prefix(mac@) is None,
        },
{
    match mac_prefix_chars(&chars_of(mac)) {
        Some((a, b, c)) => Some([a, b, c]),
        None => None,
    }
}

/// A line `PREFIX Vendor name` of the prefix database: the prefix bytes
/// and the cleaned vendor name (see [`oui_line`]).
pub fn parse_line(line: &str) -> (r: Option<([u8; 3], String)>)
    ensures
        match r {
            Some((b, v)) => oui_line(line@) == Some((prefix_key((b[0], b[1], b[2])), v@)),
            None => oui_line(line@) is None,
        },
{
    let chars = chars_of(line);
    let ws = split_words(&chars);
    if ws.len() == 0 {
        proof {
            assert(oui_line(line@) is None);
        }
        return None;
    }
    let p = mac_prefix_chars(&ws[0]);
    match line_entry(&chars) {
        Some((_k, v)) => {
            proof {
                lemma_chars_deep_view(ws@[0]);
            }
            match p {
                Some((a, b, c)) => Some(([a, b, c], string_of(&v))),
                None => None,
            }
        },
        None => None,
    }
}

/// Whether the MAC address written in `mac` has the locally-administered
/// bit set.
pub fn is_locally_administered(mac: &str) -> (r: bool)
    ensures
        r == locally_administered(mac@),
{
    locally_administered_chars(&chars_of(mac))
}

/// The short vendor name shown in tables: "Samsung Electronics Co. Ltd."
/// becomes "Samsung", "Apple, Inc." becomes "Apple".
pub fn shorten_vendor(name: &str) -> (r: String)
    ensures
        r@ == short_vendor(name@),
{
    string_of(&shorten_chars(&chars_of(name)))
}

} // verus!
