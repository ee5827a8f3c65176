//! Stable ordering of device lists by integer sequence keys compared
//! lexicographically; keys for text, numbers and staleness are built here.

use vstd::prelude::*;

use crate::oui::opt_str;
use crate::text::chars_of;
use crate::tui::SortMode;

verus! {

/// Lexicographic order on integer sequences: a proper prefix comes first.
pub open spec fn lex_lt(a: Seq<i64>, b: Seq<i64>) -> bool
    decreases a.len(),
{
    if a.len() == 0 {
        b.len() > 0
    } else if b.len() == 0 {
        false
    } else if a[0] < b[0] {
        true
    } else if a[0] > b[0] {
        false
    } else {
        lex_lt(a.drop_first(), b.drop_first())
    }
}

/// No key comes before itself.
pub proof fn lemma_lex_irreflexive(a: Seq<i64>)
    ensures
        !lex_lt(a, a),
    decreases a.len(),
{
    if a.len() > 0 {
        lemma_lex_irreflexive(a.drop_first());
    }
}

/// The order is transitive.
pub proof fn lemma_lex_transitive(a: Seq<i64>, b: Seq<i64>, c: Seq<i64>)
    requires
        lex_lt(a, b),
        lex_lt(b, c),
    ensures
        lex_lt(a, c),
    decreases a.len(),
{
    if a.len() > 0 && b.len() > 0 && c.len() > 0 && a[0] == b[0] && b[0] == c[0] {
        lemma_lex_transitive(a.drop_first(), b.drop_first(), c.drop_first());
    }
}

/// Of two different keys, one comes first.
pub proof fn lemma_lex_total(a: Seq<i64>, b: Seq<i64>)
    ensures
        a == b || lex_lt(a, b) || lex_lt(b, a),
    decreases a.len(),
{
    if a.len() == 0 && b.len() == 0 {
        assert(a =~= b);
    } else if a.len() == 0 || b.len() == 0 {
    } else if a[0] != b[0] {
    } else {
        let ta = a.drop_first();
        let tb = b.drop_first();
        lemma_lex_total(ta, tb);
        if ta == tb {
            assert forall|k: int| 0 <= k < a.len() implies a[k] == b[k] by {
                if k > 0 {
                    assert(a[k] == ta[k - 1]);
                    assert(b[k] == tb[k - 1]);
                }
            }
            assert(a =~= b);
        }
    }
}

/// Whether `a` comes before `b` (see [`lex_lt`]).
pub fn key_less(a: &[i64], b: &[i64]) -> (r: bool)
    ensures
        r == lex_lt(a@, b@),
{
    let mut i: usize = 0;
    assert(a@.skip(0) =~= a@);
    assert(b@.skip(0) =~= b@);
    assert(a@.take(0) =~= b@.take(0));
    while i < a.len() && i < b.len()
        invariant
            i <= a@.len(),
            i <= b@.len(),
            a@.take(i as int) == b@.take(i as int),
            lex_lt(a@, b@) == lex_lt(a@.skip(i as int), b@.skip(i as int)),
        decreases a@.len() - i,
    {
        let x = a[i];
        let y = b[i];
        if x < y {
            return true;
        }
        if x > y {
            return false;
        }
        assert(a@.skip(i as int).drop_first() =~= a@.skip(i + 1));
        assert(b@.skip(i as int).drop_first() =~= b@.skip(i + 1));
        assert(a@.take(i + 1) =~= a@.take(i as int).push(x));
        assert(b@.take(i + 1) =~= b@.take(i as int).push(y));
        i = i + 1;
    }
    i < b.len()
}

/// Entry `i` comes before entry `j` of a list keyed by `keys`: by key, and
/// by position where the keys are equal.
pub open spec fn goes_before(keys: Seq<Seq<i64>>, i: int, j: int) -> bool {
    lex_lt(keys[i], keys[j]) || (keys[i] == keys[j] && i < j)
}

/// `idx` lists positions of `keys` in the order of [`goes_before`].
pub open spec fn ordered_by(keys: Seq<Seq<i64>>, idx: Seq<usize>) -> bool {
    forall|a: int, b: int|
        0 <= a < b < idx.len() ==> goes_before(keys, #[trigger] idx[a] as int, #[trigger] idx[b] as int)
}

/// The keys of a list of key vectors.
pub open spec fn key_seqs(keys: Seq<Vec<i64>>) -> Seq<Seq<i64>> {
    keys.map_values(|k: Vec<i64>| k@)
}

/// Where the entry `i` goes among the entries `out` (all before it, in
/// order): after every entry whose key does not come after its key.
fn insertion_point(keys: &Vec<Vec<i64>>, out: &Vec<usize>, i: usize) -> (p: usize)
    requires
        i < keys@.len(),
        forall|a: int| 0 <= a < out@.len() ==> #[trigger] out@[a] < i,
        ordered_by(key_seqs(keys@), out@),
    ensures
        p <= out@.len(),
        forall|a: int| 0 <= a < p ==> goes_before(key_seqs(keys@), #[trigger] out@[a] as int, i as int),
        forall|b: int| p <= b < out@.len() ==> lex_lt(key_seqs(keys@)[i as int], #[trigger] key_seqs(keys@)[out@[b] as int]),
{
    let ghost ks = key_seqs(keys@);
    let mut p: usize = 0;
    while p < out.len() && !key_less(keys[i].as_slice(), keys[out[p]].as_slice())
        invariant
            i < keys@.len(),
            ks == key_seqs(keys@),
            p <= out@.len(),
            forall|a: int| 0 <= a < out@.len() ==> #[trigger] out@[a] < i,
            ordered_by(ks, out@),
            forall|a: int| 0 <= a < p ==> !lex_lt(ks[i as int], #[trigger] ks[out@[a] as int]),
        decreases out@.len() - p,
    {
        p = p + 1;
    }
    proof {
        assert forall|b: int| p <= b < out@.len() implies lex_lt(
            ks[i as int],
            #[trigger] ks[out@[b] as int],
        ) by {
            assert(lex_lt(ks[i as int], ks[out@[p as int] as int]));
            if b > p {
                assert(goes_before(ks, out@[p as int] as int, out@[b] as int));
                if lex_lt(ks[out@[p as int] as int], ks[out@[b] as int]) {
                    lemma_lex_transitive(ks[i as int], ks[out@[p as int] as int], ks[out@[b] as int]);
                }
            }
        }
        assert forall|a: int| 0 <= a < p implies goes_before(ks, #[trigger] out@[a] as int, i as int) by {
            lemma_lex_total(ks[i as int], ks[out@[a] as int]);
        }
    }
    p
}

/// Putting `i` at its insertion point keeps the entries in order.
proof fn lemma_insert_ordered(ks: Seq<Seq<i64>>, s: Seq<usize>, p: int, i: usize)
    requires
        ordered_by(ks, s),
        0 <= p <= s.len(),
        forall|a: int| 0 <= a < s.len() ==> #[trigger] s[a] < i,
        forall|a: int| 0 <= a < p ==> goes_before(ks, #[trigger] s[a] as int, i as int),
        forall|b: int| p <= b < s.len() ==> lex_lt(ks[i as int], #[trigger] ks[s[b] as int]),
    ensures
        ordered_by(ks, s.insert(p, i)),
        forall|a: int| 0 <= a < s.len() + 1 ==> #[trigger] s.insert(p, i)[a] < i + 1,
{
    let t = s.insert(p, i);
    assert forall|a: int, b: int| 0 <= a < b < t.len() implies goes_before(
        ks,
        #[trigger] t[a] as int,
        #[trigger] t[b] as int,
    ) by {
        if b < p {
            assert(t[a] == s[a] && t[b] == s[b]);
        } else if b == p {
            assert(t[a] == s[a]);
        } else if a < p {
            assert(t[a] == s[a] && t[b] == s[b - 1]);
        } else if a == p {
            assert(t[b] == s[b - 1]);
        } else {
            assert(t[a] == s[a - 1] && t[b] == s[b - 1]);
        }
    }
    assert forall|a: int| 0 <= a < s.len() + 1 implies #[trigger] t[a] < i + 1 by {
        if a < p {
            assert(t[a] == s[a]);
        } else if a > p {
            assert(t[a] == s[a - 1]);
        }
    }
}

/// The positions of `keys`, ordered by key with ties in list order (a
/// stable sort): each position once, every earlier one before every later
/// one by [`goes_before`].
pub fn stable_order(keys: &Vec<Vec<i64>>) -> (r: Vec<usize>)
    ensures
        r@.len() == keys@.len(),
        forall|a: int| 0 <= a < r@.len() ==> #[trigger] r@[a] < keys@.len(),
        ordered_by(key_seqs(keys@), r@),
{
    let ghost ks = key_seqs(keys@);
    let mut out: Vec<usize> = Vec::new();
    let mut i: usize = 0;
    while i < keys.len()
        invariant
            i <= keys@.len(),
            ks == key_seqs(keys@),
            out@.len() == i,
            forall|a: int| 0 <= a < out@.len() ==> #[trigger] out@[a] < i,
            ordered_by(ks, out@),
        decreases keys@.len() - i,
    {
        let p = insertion_point(keys, &out, i);
        proof {
            lemma_insert_ordered(ks, out@, p as int, i);
        }
        out.insert(p, i);
        i = i + 1;
    }
    out
}

/// The entries `items` rearranged in the order [`stable_order`] gives for
/// their `keys`: some ordering `idx` of the positions by [`goes_before`]
/// with each result entry the item at its position.
pub fn sort_by_keys<T>(items: Vec<T>, keys: &Vec<Vec<i64>>) -> (r: Vec<T>)
    requires
        items@.len() == keys@.len(),
    ensures
        r@.len() == items@.len(),
        exists|idx: Seq<usize>|
            {
                &&& idx.len() == r@.len()
                &&& forall|a: int| 0 <= a < idx.len() ==> #[trigger] idx[a] < keys@.len()
                &&& ordered_by(key_seqs(keys@), idx)
                &&& forall|a: int| 0 <= a < r@.len() ==> r@[a] == items@[#[trigger] idx[a] as int]
            },
{
    let ghost ks = key_seqs(keys@);
    let ghost orig = items@;
    let mut rest = items;
    let mut out: Vec<T> = Vec::new();
    let mut pos: Vec<usize> = Vec::new();
    let mut i: usize = 0;
    while i < keys.len()
        invariant
            i <= keys@.len(),
            orig.len() == keys@.len(),
            ks == key_seqs(keys@),
            rest@ == orig.skip(i as int),
            out@.len() == i,
            pos@.len() == i,
            forall|a: int| 0 <= a < pos@.len() ==> #[trigger] pos@[a] < i,
            ordered_by(ks, pos@),
            forall|a: int| 0 <= a < out@.len() ==> out@[a] == orig[#[trigger] pos@[a] as int],
        decreases keys@.len() - i,
    {
        let item = rest.remove(0);
        assert(item == orig[i as int]);
        assert(rest@ =~= orig.skip(i + 1));
        let p = insertion_point(keys, &pos, i);
        proof {
            lemma_insert_ordered(ks, pos@, p as int, i);
        }
        let ghost old_pos = pos@;
        let ghost old_out = out@;
        pos.insert(p, i);
        out.insert(p, item);
        proof {
            assert forall|a: int| 0 <= a < out@.len() implies out@[a] == orig[#[trigger] pos@[a] as int] by {
                if a < p {
                    assert(out@[a] == old_out[a] && pos@[a] == old_pos[a]);
                } else if a > p {
                    assert(out@[a] == old_out[a - 1] && pos@[a] == old_pos[a - 1]);
                }
            }
        }
        i = i + 1;
    }
    proof {
        let idx = pos@;
        assert(idx.len() == out@.len());
    }
    out
}

// ---------------------------------------------------------------------------
// Keys
// ---------------------------------------------------------------------------

/// The key of a text: its characters' code points, so that texts compare
/// as `str` does (by code point, a proper prefix first).
pub open spec fn text_key(s: Seq<char>) -> Seq<i64> {
    s.map_values(|c: char| (c as u32) as i64)
}

/// The key of a text followed by a number: the text's code points, a
/// separator below every code point, then the number; keys compare as the
/// pair (text, number) does.
pub open spec fn text_number_key(s: Seq<char>, n: i64) -> Seq<i64> {
    text_key(s) + seq![-1i64, n]
}

/// The key that puts larger numbers first: `-1 - n`, which every 64-bit
/// value has.
pub open spec fn descending_key(n: i64) -> Seq<i64> {
    seq![(-1 - n) as i64]
}

/// `key` after the staleness mark: fresh entries (0) before stale ones (1).
pub open spec fn grouped_key(stale: bool, key: Seq<i64>) -> Seq<i64> {
    seq![if stale { 1i64 } else { 0i64 }] + key
}

/// The key of the text `s`.
pub fn text_order_key(s: &str) -> (r: Vec<i64>)
    ensures
        r@ == text_key(s@),
{
    let v = chars_of(s);
    let mut out: Vec<i64> = Vec::new();
    let mut i: usize = 0;
    while i < v.len()
        invariant
            i <= v@.len(),
            v@ == s@,
            out@ == text_key(v@.take(i as int)),
        decreases v@.len() - i,
    {
        out.push(v[i] as u32 as i64);
        assert(text_key(v@.take(i + 1)) =~= text_key(v@.take(i as int)).push((v@[i as int] as u32) as i64));
        i = i + 1;
    }
    assert(v@.take(v@.len() as int) =~= v@);
    out
}

/// The key of the text `s` followed by the number `n`.
pub fn text_number_order_key(s: &str, n: i64) -> (r: Vec<i64>)
    ensures
        r@ == text_number_key(s@, n),
{
    let mut k = text_order_key(s);
    k.push(-1);
    k.push(n);
    assert(k@ =~= text_number_key(s@, n));
    k
}

/// The key that puts larger values of `n` first.
pub fn descending_order_key(n: i64) -> (r: Vec<i64>)
    ensures
        r@ == descending_key(n),
{
    let mut k: Vec<i64> = Vec::new();
    k.push(-1 - n);
    assert(k@ =~= descending_key(n));
    k
}

/// `key` with the staleness mark in front.
pub fn grouped_order_key(stale: bool, key: Vec<i64>) -> (r: Vec<i64>)
    ensures
        r@ == grouped_key(stale, key@),
{
    let mut k: Vec<i64> = Vec::new();
    k.push(if stale { 1 } else { 0 });
    let mut i: usize = 0;
    while i < key.len()
        invariant
            i <= key@.len(),
            k@ == seq![if stale { 1i64 } else { 0i64 }] + key@.take(i as int),
        decreases key@.len() - i,
    {
        k.push(key[i]);
        assert(key@.take(i + 1) =~= key@.take(i as int).push(key@[i as int]));
        i = i + 1;
    }
    assert(key@.take(key@.len() as int) =~= key@);
    k
}

// ---------------------------------------------------------------------------
// Row keys
// ---------------------------------------------------------------------------

/// `a` when present, else `b`.
pub open spec fn or_text(a: Option<Seq<char>>, b: Seq<char>) -> Seq<char> {
    match a {
        Some(x) => x,
        None => b,
    }
}

/// The key sequence an optional key vector holds.
pub open spec fn opt_key(o: Option<Vec<i64>>) -> Option<Seq<i64>> {
    match o {
        Some(v) => Some(v@),
        None => None,
    }
}

fn or_str<'a>(a: Option<&'a str>, b: &'a str) -> (r: &'a str)
    ensures
        r@ == or_text(opt_str(a), b@),
{
    match a {
        Some(x) => x,
        None => b,
    }
}

/// The key a Bluetooth row is listed by: in the name order its custom name,
/// else its reported name, else its address; in the distance order none,
/// for the floating-point averages decide it; otherwise its latest reading,
/// strongest first, with no reading counted as -127 dBm. Fresh rows come
/// first in every order.
pub open spec fn bt_row_key_of(
    mode: SortMode,
    stale: bool,
    custom: Option<Seq<char>>,
    name: Option<Seq<char>>,
    address: Seq<char>,
    rssi: Option<i16>,
) -> Option<Seq<i64>> {
    match mode {
        SortMode::Distance => None,
        SortMode::Name => Some(grouped_key(stale, text_key(or_text(custom, or_text(name, address))))),
        _ => Some(
            grouped_key(
                stale,
                descending_key(
                    match rssi {
                        Some(r) => r as i64,
                        None => -127i64,
                    },
                ),
            ),
        ),
    }
}

/// The key a Bluetooth row is listed by, as [`bt_row_key_of`] says.
pub fn bt_row_key(
    mode: SortMode,
    stale: bool,
    custom: Option<&str>,
    name: Option<&str>,
    address: &str,
    rssi: Option<i16>,
) -> (r: Option<Vec<i64>>)
    ensures
        opt_key(r) == bt_row_key_of(mode, stale, opt_str(custom), opt_str(name), address@, rssi),
{
    match mode {
        SortMode::Distance => None,
        SortMode::Name => {
            let label = or_str(custom, or_str(name, address));
            Some(grouped_order_key(stale, text_order_key(label)))
        },
        _ => {
            let level: i64 = match rssi {
                Some(r) => r as i64,
                None => -127,
            };
            Some(grouped_order_key(stale, descending_order_key(level)))
        },
    }
}

/// The key a WiFi row is listed by in the name order: its custom name, else
/// its SSID, else the network it probes for, else its address, fresh rows
/// first. The other orders go by the floating-point averages, and give none.
pub open spec fn wifi_row_key_of(
    mode: SortMode,
    stale: bool,
    custom: Option<Seq<char>>,
    ssid: Option<Seq<char>>,
    probing_for: Option<Seq<char>>,
    mac: Seq<char>,
) -> Option<Seq<i64>> {
    match mode {
        SortMode::Name => Some(
            grouped_key(stale, text_key(or_text(custom, or_text(ssid, or_text(probing_for, mac))))),
        ),
        _ => None,
    }
}

/// The key a WiFi row is listed by, as [`wifi_row_key_of`] says.
pub fn wifi_row_key(
    mode: SortMode,
    stale: bool,
    custom: Option<&str>,
    ssid: Option<&str>,
    probing_for: Option<&str>,
    mac: &str,
) -> (r: Option<Vec<i64>>)
    ensures
        opt_key(r) == wifi_row_key_of(mode, stale, opt_str(custom), opt_str(ssid), opt_str(probing_for), mac@),
{
    match mode {
        SortMode::Name => {
            let label = or_str(custom, or_str(ssid, or_str(probing_for, mac)));
            Some(grouped_order_key(stale, text_order_key(label)))
        },
        _ => None,
    }
}

/// The key a Sub-GHz row is listed by: in the name order its custom name
/// (empty when it has none), then its frequency; otherwise its latest
/// reading, strongest first. Fresh rows come first.
pub open spec fn subghz_row_key_of(
    mode: SortMode,
    stale: bool,
    custom: Option<Seq<char>>,
    freq_hz: u32,
    rssi: i16,
) -> Seq<i64> {
    match mode {
        SortMode::Name => grouped_key(stale, text_number_key(or_text(custom, Seq::empty()), freq_hz as i64)),
        _ => grouped_key(stale, descending_key(rssi as i64)),
    }
}

/// The key a Sub-GHz row is listed by, as [`subghz_row_key_of`] says.
pub fn subghz_row_key(mode: SortMode, stale: bool, custom: Option<&str>, freq_hz: u32, rssi: i16) -> (r: Vec<i64>)
    ensures
        r@ == subghz_row_key_of(mode, stale, opt_str(custom), freq_hz, rssi),
{
    match mode {
        SortMode::Name => {
            let label = or_str(custom, "");
            proof {
                reveal_strlit("");
            }
            grouped_order_key(stale, text_number_order_key(label, freq_hz as i64))
        },
        _ => grouped_order_key(stale, descending_order_key(rssi as i64)),
    }
}

} // verus!
