//! Properties that hold across the library's operations.

use vstd::prelude::*;

use crate::ap_scan::{escape_field, escaped_line, lemma_fields_nonempty, nmcli_fields, prepend};
use crate::bluetooth::{clean_name, hex_only};
use crate::ble::last_wins;
use crate::names::name_of;
use crate::oui::first_wins;
use crate::text::trim;
use crate::order::{
    descending_key, goes_before, grouped_key, lemma_lex_irreflexive, lex_lt, ordered_by, text_key,
    text_number_key,
};
use crate::sniffer::{client_step, mac_number, mac_upper, FrameView};
use crate::store::BtDevice;
use crate::subghz::{band_name, on_grid, SweepPos};
use crate::tui::{
    key_step, moved_row, next_sort, next_tab, selected_row, ActionView, KeyCode, KeyPress, SortMode,
    Tab, TuiView,
};
use crate::util::{cells_of, fixed, fitting_prefix, lemma_cells_concat, lemma_cells_spaces, lemma_fitting_prefix_fits};

verus! {

// ---------------------------------------------------------------------------
// Custom names
// ---------------------------------------------------------------------------

/// After a device is named, looking it up gives that name.
pub proof fn name_read_after_write(m: Map<Seq<char>, Seq<char>>, id: Seq<char>, name: Seq<char>)
    ensures
        name_of(m.insert(id, name), id) == Some(name),
{
}

/// After a device's name is removed, looking it up gives nothing.
pub proof fn name_gone_after_remove(m: Map<Seq<char>, Seq<char>>, id: Seq<char>)
    ensures
        name_of(m.remove(id), id) is None,
{
}

/// Naming or un-naming one device leaves every other device's name as it
/// was.
pub proof fn name_writes_are_local(
    m: Map<Seq<char>, Seq<char>>,
    id: Seq<char>,
    name: Seq<char>,
    other: Seq<char>,
)
    requires
        other != id,
    ensures
        name_of(m.insert(id, name), other) == name_of(m, other),
        name_of(m.remove(id), other) == name_of(m, other),
{
}

// ---------------------------------------------------------------------------
// The view
// ---------------------------------------------------------------------------

/// The tab key goes BT, WiFi, Sub-GHz and back: three presses return to
/// the tab one started on, and no fewer do.
pub proof fn tabs_cycle(t: Tab)
    ensures
        next_tab(next_tab(next_tab(t))) == t,
        next_tab(t) != t,
        next_tab(next_tab(t)) != t,
{
}

/// Cycling the sort mode from signal comes back to signal: after three
/// presses on the BT and WiFi tabs, after two on the Sub-GHz tab.
pub proof fn sort_cycle_returns(t: Tab)
    ensures
        t != Tab::SubGhz ==> next_sort(t, next_sort(t, next_sort(t, SortMode::Signal)))
            == SortMode::Signal,
        t == Tab::SubGhz ==> next_sort(t, next_sort(t, SortMode::Signal)) == SortMode::Signal,
        next_sort(t, SortMode::Signal) != SortMode::Signal,
{
}

/// At most one text input is open: no key opens the naming input while
/// the password prompt is open, nor the other way round.
pub proof fn one_input_at_a_time(
    v: TuiView,
    names: Map<Seq<char>, Seq<char>>,
    k: KeyPress,
    w: TuiView,
    names2: Map<Seq<char>, Seq<char>>,
    a: ActionView,
)
    requires
        !(v.editing && v.modal is Some),
        key_step(v, names, k, w, names2, a),
    ensures
        !(w.editing && w.modal is Some),
{
}

/// Esc closes whichever input is open without touching the names, and
/// asks for nothing.
pub proof fn escape_cancels_input(
    v: TuiView,
    names: Map<Seq<char>, Seq<char>>,
    k: KeyPress,
    w: TuiView,
    names2: Map<Seq<char>, Seq<char>>,
    a: ActionView,
)
    requires
        v.editing || v.modal is Some,
        !(v.editing && v.modal is Some),
        k.code == KeyCode::Esc,
        key_step(v, names, k, w, names2, a),
    ensures
        !w.editing,
        w.modal is None,
        names2 == names,
        a == ActionView::Nothing,
{
}

/// Confirming the naming input gives the selected device the trimmed
/// text as its name, or forgets its name when the text is blank, and asks
/// for the names to be saved.
pub proof fn confirmed_name_is_stored(
    v: TuiView,
    names: Map<Seq<char>, Seq<char>>,
    k: KeyPress,
    w: TuiView,
    names2: Map<Seq<char>, Seq<char>>,
    a: ActionView,
)
    requires
        v.modal is None,
        v.editing,
        v.selected is Some,
        k.code == KeyCode::Enter,
        key_step(v, names, k, w, names2, a),
    ensures
        name_of(names2, v.selected->0) == if trim(v.buffer).len() == 0 {
            None
        } else {
            Some(trim(v.buffer))
        },
        a == ActionView::SaveNames,
        !w.editing,
{
}

/// Moving the selection never leaves the list: the row it lands on is a
/// row of the list.
pub proof fn selection_stays_in_list(ids: Seq<Seq<char>>, sel: Option<Seq<char>>, delta: int)
    requires
        ids.len() > 0,
    ensures
        0 <= moved_row(selected_row(ids, sel), delta, ids.len() as int) < ids.len(),
{
    match sel {
        None => {},
        Some(id) => crate::tui::lemma_selected_in_range(ids, id),
    }
}

// ---------------------------------------------------------------------------
// Ordering
// ---------------------------------------------------------------------------

proof fn lemma_marked_keys(a: Seq<i64>, b: Seq<i64>, x: i64, y: i64)
    requires
        forall|i: int| 0 <= i < a.len() ==> a[i] >= 0,
        forall|i: int| 0 <= i < b.len() ==> b[i] >= 0,
    ensures
        lex_lt(a + seq![-1i64, x], b + seq![-1i64, y]) <==> lex_lt(a, b) || (a == b && x < y),
    decreases a.len(),
{
    let l = a + seq![-1i64, x];
    let r = b + seq![-1i64, y];
    if a.len() == 0 && b.len() == 0 {
        assert(l =~= seq![-1i64, x]);
        assert(r =~= seq![-1i64, y]);
        assert(l.drop_first() =~= seq![x]);
        assert(r.drop_first() =~= seq![y]);
        assert(seq![x].drop_first() =~= Seq::<i64>::empty());
        assert(seq![y].drop_first() =~= Seq::<i64>::empty());
        assert(!lex_lt(Seq::<i64>::empty(), Seq::<i64>::empty()));
        assert(lex_lt(seq![x], seq![y]) == (x < y));
        assert(lex_lt(l, r) == lex_lt(seq![x], seq![y]));
        assert(a =~= b);
        assert(!lex_lt(a, b));
    } else if a.len() == 0 {
        assert(l[0] == -1i64);
        assert(r[0] == b[0]);
    } else if b.len() == 0 {
        assert(l[0] == a[0]);
        assert(r[0] == -1i64);
    } else {
        assert(l[0] == a[0]);
        assert(r[0] == b[0]);
        if a[0] == b[0] {
            assert(l.drop_first() =~= a.drop_first() + seq![-1i64, x]);
            assert(r.drop_first() =~= b.drop_first() + seq![-1i64, y]);
            lemma_marked_keys(a.drop_first(), b.drop_first(), x, y);
            if a.drop_first() == b.drop_first() {
                assert forall|k: int| 0 <= k < a.len() implies a[k] == b[k] by {
                    if k > 0 {
                        assert(a[k] == a.drop_first()[k - 1]);
                        assert(b[k] == b.drop_first()[k - 1]);
                    }
                }
                assert(a =~= b);
            }
            if a == b {
                assert(a.drop_first() =~= b.drop_first());
            }
        }
    }
}

proof fn lemma_code_point_injective(c: char, d: char)
    requires
        c as u32 == d as u32,
    ensures
        c == d,
{
}

/// Entries keyed by a text and a number are ordered as the pair is: by
/// the text as `str` compares it, then by the number.
pub proof fn text_number_keys_order_pairs(s1: Seq<char>, n1: i64, s2: Seq<char>, n2: i64)
    ensures
        lex_lt(text_number_key(s1, n1), text_number_key(s2, n2)) <==> lex_lt(
            text_key(s1),
            text_key(s2),
        ) || (s1 == s2 && n1 < n2),
{
    let a = text_key(s1);
    let b = text_key(s2);
    lemma_marked_keys(a, b, n1, n2);
    if a == b {
        assert(s1.len() == s2.len());
        assert forall|k: int| 0 <= k < s1.len() implies s1[k] == s2[k] by {
            assert(a[k] == b[k]);
            assert(a[k] == (s1[k] as u32) as i64);
            assert(b[k] == (s2[k] as u32) as i64);
            lemma_code_point_injective(s1[k], s2[k]);
        }
        assert(s1 =~= s2);
    }
}

/// An ordering by [`goes_before`] never lists a position twice.
pub proof fn ordered_positions_are_distinct(keys: Seq<Seq<i64>>, idx: Seq<usize>, a: int, b: int)
    requires
        ordered_by(keys, idx),
        0 <= a < b < idx.len(),
    ensures
        idx[a] != idx[b],
{
    assert(goes_before(keys, idx[a] as int, idx[b] as int));
    lemma_lex_irreflexive(keys[idx[a] as int]);
}

/// Fresh entries come before stale ones whatever their keys, and within a
/// group the keys decide.
pub proof fn fresh_before_stale(k1: Seq<i64>, k2: Seq<i64>, stale: bool)
    ensures
        lex_lt(grouped_key(false, k1), grouped_key(true, k2)),
        lex_lt(grouped_key(stale, k1), grouped_key(stale, k2)) <==> lex_lt(k1, k2),
{
    assert(grouped_key(false, k1)[0] == 0i64);
    assert(grouped_key(true, k2)[0] == 1i64);
    assert(grouped_key(stale, k1).drop_first() =~= k1);
    assert(grouped_key(stale, k2).drop_first() =~= k2);
}

/// The descending key puts the larger value first.
pub proof fn descending_keys_put_larger_first(x: i64, y: i64)
    ensures
        lex_lt(descending_key(x), descending_key(y)) <==> x > y,
{
    let kx = descending_key(x);
    let ky = descending_key(y);
    assert(kx[0] == -1 - x);
    assert(ky[0] == -1 - y);
    assert(kx.drop_first() =~= Seq::<i64>::empty());
    assert(ky.drop_first() =~= Seq::<i64>::empty());
    assert(!lex_lt(Seq::<i64>::empty(), Seq::<i64>::empty()));
}

// ---------------------------------------------------------------------------
// Vendor databases
// ---------------------------------------------------------------------------

/// In the prefix database the first line for a prefix wins: a prefix is
/// known exactly when some line gives it, and its vendor is the one of the
/// earliest such line.
pub proof fn first_line_wins(es: Seq<(u32, Seq<char>)>, j: int)
    requires
        0 <= j < es.len(),
        forall|i: int| 0 <= i < j ==> (#[trigger] es[i]).0 != es[j].0,
    ensures
        first_wins(es).contains_key(es[j].0),
        first_wins(es)[es[j].0] == es[j].1,
    decreases es.len(),
{
    let d = es.drop_last();
    if j < es.len() - 1 {
        assert forall|i: int| 0 <= i < j implies (#[trigger] d[i]).0 != d[j].0 by {
            assert(d[i] == es[i] && d[j] == es[j]);
        }
        first_line_wins(d, j);
        assert(d[j] == es[j]);
    } else {
        lemma_first_wins_dom(d, es[j].0);
        if first_wins(d).contains_key(es[j].0) {
            let i = choose|i: int| 0 <= i < d.len() && (#[trigger] d[i]).0 == es[j].0;
            assert(es[i] == d[i]);
        }
    }
}

proof fn lemma_first_wins_dom(es: Seq<(u32, Seq<char>)>, k: u32)
    ensures
        first_wins(es).contains_key(k) ==> exists|i: int| 0 <= i < es.len() && (#[trigger] es[i]).0 == k,
    decreases es.len(),
{
    if es.len() > 0 {
        let d = es.drop_last();
        lemma_first_wins_dom(d, k);
        if first_wins(d).contains_key(k) {
            let i = choose|i: int| 0 <= i < d.len() && (#[trigger] d[i]).0 == k;
            assert(es[i] == d[i]);
        } else if first_wins(es).contains_key(k) {
            assert(es[es.len() - 1].0 == k);
        }
    }
}

/// In the company list the last line for an identifier wins.
pub proof fn last_line_wins(es: Seq<(u16, Seq<char>)>, j: int)
    requires
        0 <= j < es.len(),
        forall|i: int| j < i < es.len() ==> (#[trigger] es[i]).0 != es[j].0,
    ensures
        last_wins(es).contains_key(es[j].0),
        last_wins(es)[es[j].0] == es[j].1,
    decreases es.len(),
{
    if j < es.len() - 1 {
        let d = es.drop_last();
        assert forall|i: int| j < i < d.len() implies (#[trigger] d[i]).0 != d[j].0 by {
            assert(d[i] == es[i] && d[j] == es[j]);
        }
        last_line_wins(d, j);
        assert(d[j] == es[j]);
        assert(es.last().0 != es[j].0);
    }
}

// ---------------------------------------------------------------------------
// NetworkManager listings
// ---------------------------------------------------------------------------

proof fn lemma_escaped_field_prefix(f: Seq<char>, t: Seq<char>)
    requires
        !f.contains('\\'),
    ensures
        nmcli_fields(escape_field(f) + t) == nmcli_fields(t).update(0, f + nmcli_fields(t)[0]),
    decreases f.len(),
{
    lemma_fields_nonempty(t);
    let big = nmcli_fields(t);
    if f.len() == 0 {
        assert(escape_field(f) + t =~= t);
        assert(f + big[0] =~= big[0]);
        assert(big.update(0, big[0]) =~= big);
    } else {
        let g = f.drop_first();
        assert(!g.contains('\\')) by {
            if g.contains('\\') {
                let k = choose|k: int| 0 <= k < g.len() && g[k] == '\\';
                assert(f[k + 1] == '\\');
            }
        }
        assert(f[0] != '\\') by {
            assert(f.contains(f[0]));
        }
        lemma_escaped_field_prefix(g, t);
        let inner = nmcli_fields(escape_field(g) + t);
        lemma_fields_nonempty(escape_field(g) + t);
        let s = escape_field(f) + t;
        if f[0] == ':' {
            assert(s =~= seq!['\\', ':'] + (escape_field(g) + t));
            assert(s.skip(2) =~= escape_field(g) + t);
            assert(s[0] == '\\' && s[1] == ':');
            assert(nmcli_fields(s) == prepend(':', inner));
        } else {
            assert(s =~= seq![f[0]] + (escape_field(g) + t));
            assert(s.skip(1) =~= escape_field(g) + t);
            assert(s[0] == f[0]);
            assert(nmcli_fields(s) == prepend(f[0], inner));
        }
        assert(seq![f[0]] + (g + big[0]) =~= f + big[0]);
        assert(nmcli_fields(s) =~= big.update(0, f + big[0]));
    }
}

/// Reading a terse line gives back the fields it was written from, colons
/// inside fields included, as long as no field holds a backslash.
pub proof fn escaped_fields_read_back(fs: Seq<Seq<char>>)
    requires
        fs.len() >= 1,
        forall|i: int| 0 <= i < fs.len() ==> !(#[trigger] fs[i]).contains('\\'),
    ensures
        nmcli_fields(escaped_line(fs)) == fs,
    decreases fs.len(),
{
    if fs.len() == 1 {
        lemma_escaped_field_prefix(fs[0], seq![]);
        assert(escape_field(fs[0]) + Seq::<char>::empty() =~= escape_field(fs[0]));
        assert(nmcli_fields(Seq::<char>::empty()) == seq![Seq::<char>::empty()]);
        assert(fs[0] + Seq::<char>::empty() =~= fs[0]);
        assert(seq![Seq::<char>::empty()].update(0, fs[0]) =~= fs);
    } else {
        let rest = fs.drop_first();
        assert forall|i: int| 0 <= i < rest.len() implies !(#[trigger] rest[i]).contains('\\') by {
            assert(rest[i] == fs[i + 1]);
        }
        escaped_fields_read_back(rest);
        let t = seq![':'] + escaped_line(rest);
        assert(escaped_line(fs) =~= escape_field(fs[0]) + t);
        lemma_escaped_field_prefix(fs[0], t);
        assert(t[0] == ':');
        assert(t.skip(1) =~= escaped_line(rest));
        assert(nmcli_fields(t) == seq![Seq::<char>::empty()] + nmcli_fields(t.skip(1)));
        assert(fs[0] + Seq::<char>::empty() =~= fs[0]);
        assert((seq![Seq::<char>::empty()] + rest).update(0, fs[0]) =~= fs);
    }
}

// ---------------------------------------------------------------------------
// Devices
// ---------------------------------------------------------------------------

/// A Bluetooth device once seen with a random address stays marked random
/// whatever later reports say.
pub proof fn random_address_is_sticky<E: crate::store::Smoothing>(old: BtDevice<E>, u: crate::events::BtUpdate, now: u64, d: BtDevice<E>)
    requires
        crate::store::bt_merged(Some(old), u, now, d),
        old.is_random,
    ensures
        d.is_random,
{
}

/// The address a device reports as its name is never taken for a name,
/// however it is written (case, separators); a name that is taken is the
/// reported one unchanged.
pub proof fn address_is_no_name(name: Seq<char>, addr: Seq<char>)
    ensures
        hex_only(name) == hex_only(addr) ==> clean_name(name, addr) is None,
        clean_name(name, addr) matches Some(n) ==> n == name && name.len() > 0,
{
}

// ---------------------------------------------------------------------------
// Client sniffing
// ---------------------------------------------------------------------------

/// Once an address has answered a probe, its data frames are never taken
/// for a client, and what is known to be an access point stays known.
pub proof fn access_point_is_never_a_client(
    source: Seq<u8>,
    rssi1: Option<i16>,
    rssi2: Option<i16>,
    s0: Set<u64>,
    s1: Set<u64>,
    s2: Set<u64>,
    r1: Option<crate::events::WifiClientUpdate>,
    r2: Option<crate::events::WifiClientUpdate>,
    qos: bool,
)
    requires
        client_step(FrameView::ProbeResponse { source }, rssi1, s0, s1, r1),
        client_step(
            if qos {
                FrameView::QosData { source }
            } else {
                FrameView::Data { source }
            },
            rssi2,
            s1,
            s2,
            r2,
        ),
    ensures
        r1 is None,
        r2 is None,
        s2.contains(mac_number(source)),
{
}

/// Every frame leaves the known access points as they were or adds one.
pub proof fn known_access_points_only_grow(
    f: FrameView,
    rssi: Option<i16>,
    before: Set<u64>,
    after: Set<u64>,
    r: Option<crate::events::WifiClientUpdate>,
)
    requires
        client_step(f, rssi, before, after, r),
    ensures
        before.subset_of(after),
{
}

/// A client address is shown as twelve uppercase hexadecimal digits.
pub proof fn client_address_text(a: Seq<u8>)
    ensures
        mac_upper(a).len() == 2 * a.len(),
        forall|i: int|
            0 <= i < mac_upper(a).len() ==> {
                let c = #[trigger] mac_upper(a)[i];
                ('0' <= c && c <= '9') || ('A' <= c && c <= 'F')
            },
    decreases a.len(),
{
    if a.len() > 0 {
        client_address_text(a.drop_first());
        let hi = (a[0] / 16) as nat;
        let lo = (a[0] % 16) as nat;
        let head = seq![crate::sniffer::hex_upper(hi), crate::sniffer::hex_upper(lo)];
        let rest = mac_upper(a.drop_first());
        assert(mac_upper(a) == head + rest);
        assert forall|i: int| 0 <= i < mac_upper(a).len() implies {
            let c = #[trigger] mac_upper(a)[i];
            ('0' <= c && c <= '9') || ('A' <= c && c <= 'F')
        } by {
            if i >= 2 {
                assert(mac_upper(a)[i] == rest[i - 2]);
            }
        }
    }
}

// ---------------------------------------------------------------------------
// Sub-GHz sweep
// ---------------------------------------------------------------------------

/// The band label of each scanned range.
pub open spec fn range_band(i: int) -> Seq<char> {
    if i == 0 {
        "315 MHz"@
    } else if i == 1 {
        "433 MHz"@
    } else if i == 2 {
        "868 MHz"@
    } else {
        "915 MHz"@
    }
}

/// Every frequency the sweep measures lies in the ISM band its range is
/// named after.
pub proof fn sweep_frequencies_are_in_band(p: SweepPos)
    requires
        on_grid(p),
    ensures
        band_name(p.freq_hz as nat) == range_band(p.range as int),
{
}

// ---------------------------------------------------------------------------
// Columns
// ---------------------------------------------------------------------------

/// A padded column takes exactly its width in terminal cells.
pub proof fn fixed_width_fills_its_cells(s: Seq<char>, width: nat)
    ensures
        cells_of(fixed(s, width)) == width,
{
    let p = fitting_prefix(s, width);
    lemma_fitting_prefix_fits(s, width);
    lemma_cells_concat(p, crate::util::spaces((width - cells_of(p)) as nat));
    lemma_cells_spaces((width - cells_of(p)) as nat);
}

// ---------------------------------------------------------------------------
// Reports that leave fields out
// ---------------------------------------------------------------------------

/// A Bluetooth report keeps every field it does not carry: a report
/// without a company id, name, icon, transmit power or reading leaves the
/// device's value as it was, and one that carries it stores the reported
/// value.
pub proof fn bt_report_keeps_absent_fields<E: crate::store::Smoothing>(
    old: BtDevice<E>,
    u: crate::events::BtUpdate,
    now: u64,
    d: BtDevice<E>,
)
    requires
        crate::store::bt_merged(Some(old), u, now, d),
    ensures
        u.company_id is None ==> d.company_id == old.company_id,
        u.company_id matches Some(c) ==> d.company_id == Some(c),
        u.name is None ==> d.name == old.name,
        u.name matches Some(n) ==> d.name == Some(n),
        u.icon is None ==> d.icon == old.icon,
        u.icon matches Some(i) ==> d.icon == Some(i),
        u.tx_power is None ==> d.tx_power == old.tx_power,
        u.tx_power matches Some(t) ==> d.tx_power == Some(t),
        u.rssi is None ==> d.rssi == old.rssi && d.ema == old.ema && d.sample_count
            == old.sample_count,
        u.rssi matches Some(r) ==> d.rssi == Some(r) && d.sample_count == old.sample_count + 1,
{
}

/// An access-point listing with a signal percentage leaves the device with
/// that percentage, whatever earlier listings said; one without leaves the
/// stored percentage alone.
pub proof fn ap_signal_is_the_latest_listing<E: crate::store::Smoothing>(
    old: Option<crate::store::WifiDevice<E>>,
    u: crate::events::WifiApUpdate<E>,
    now: u64,
    d: crate::store::WifiDevice<E>,
)
    requires
        crate::store::ap_merged(old, u, now, d),
    ensures
        u.signal_pct matches Some(s) ==> d.signal_pct == Some(s),
        u.signal_pct is None ==> d.signal_pct == (match old {
            Some(o) => o.signal_pct,
            None => None,
        }),
{
}

// ---------------------------------------------------------------------------
// Access-point keys
// ---------------------------------------------------------------------------

proof fn lemma_digit_split(h1: int, l1: int, h2: int, l2: int, m: int)
    requires
        m > 0,
        0 <= l1 < m,
        0 <= l2 < m,
        h1 * m + l1 == h2 * m + l2,
    ensures
        h1 == h2,
        l1 == l2,
{
    if h1 < h2 {
        assert(h1 * m + m <= h2 * m) by (nonlinear_arith)
            requires
                h1 < h2,
                m > 0,
        ;
    } else if h2 < h1 {
        assert(h2 * m + m <= h1 * m) by (nonlinear_arith)
            requires
                h2 < h1,
                m > 0,
        ;
    }
}

/// Different six-byte addresses have different access-point keys: the key
/// keeps every byte of the address.
pub proof fn mac_keys_are_distinct(a: Seq<u8>, b: Seq<u8>)
    requires
        a.len() == 6,
        b.len() == 6,
        a != b,
    ensures
        mac_number(a) != mac_number(b),
{
    let ta = a[0] as int * 0x100_0000_0000 + a[1] as int * 0x1_0000_0000 + a[2] as int * 0x100_0000
        + a[3] as int * 0x1_0000 + a[4] as int * 0x100 + a[5] as int;
    let tb = b[0] as int * 0x100_0000_0000 + b[1] as int * 0x1_0000_0000 + b[2] as int * 0x100_0000
        + b[3] as int * 0x1_0000 + b[4] as int * 0x100 + b[5] as int;
    assert(0 <= ta < 0x1_0000_0000_0000);
    assert(0 <= tb < 0x1_0000_0000_0000);
    if mac_number(a) == mac_number(b) {
        assert(ta == tb);
        let la4 = a[1] as int * 0x1_0000_0000 + a[2] as int * 0x100_0000 + a[3] as int * 0x1_0000
            + a[4] as int * 0x100 + a[5] as int;
        let lb4 = b[1] as int * 0x1_0000_0000 + b[2] as int * 0x100_0000 + b[3] as int * 0x1_0000
            + b[4] as int * 0x100 + b[5] as int;
        lemma_digit_split(a[0] as int, la4, b[0] as int, lb4, 0x100_0000_0000);
        let la3 = a[2] as int * 0x100_0000 + a[3] as int * 0x1_0000 + a[4] as int * 0x100 + a[5] as int;
        let lb3 = b[2] as int * 0x100_0000 + b[3] as int * 0x1_0000 + b[4] as int * 0x100 + b[5] as int;
        lemma_digit_split(a[1] as int, la3, b[1] as int, lb3, 0x1_0000_0000);
        let la2 = a[3] as int * 0x1_0000 + a[4] as int * 0x100 + a[5] as int;
        let lb2 = b[3] as int * 0x1_0000 + b[4] as int * 0x100 + b[5] as int;
        lemma_digit_split(a[2] as int, la2, b[2] as int, lb2, 0x100_0000);
        let la1 = a[4] as int * 0x100 + a[5] as int;
        let lb1 = b[4] as int * 0x100 + b[5] as int;
        lemma_digit_split(a[3] as int, la1, b[3] as int, lb1, 0x1_0000);
        lemma_digit_split(a[4] as int, a[5] as int, b[4] as int, b[5] as int, 0x100);
        assert(a =~= b);
    }
}

/// A probe response makes only its sender a known access point: a data
/// frame that follows from any other unicast address not known before is
/// reported as a client, with its signal.
pub proof fn other_stations_stay_clients(
    ap: Seq<u8>,
    station: Seq<u8>,
    rssi1: Option<i16>,
    rssi2: Option<i16>,
    s0: Set<u64>,
    s1: Set<u64>,
    s2: Set<u64>,
    r1: Option<crate::events::WifiClientUpdate>,
    r2: Option<crate::events::WifiClientUpdate>,
)
    requires
        ap.len() == 6,
        station.len() == 6,
        ap != station,
        !crate::sniffer::is_group(station),
        !s0.contains(mac_number(station)),
        client_step(FrameView::ProbeResponse { source: ap }, rssi1, s0, s1, r1),
        client_step(FrameView::Data { source: station }, rssi2, s1, s2, r2),
    ensures
        r2 matches Some(u) && u.mac@ == mac_upper(station) && u.rssi == rssi2 && u.probing_for is None,
{
    mac_keys_are_distinct(ap, station);
}

// ---------------------------------------------------------------------------
// Radiotap field alignment
// ---------------------------------------------------------------------------

/// The TSFT field sits at the first multiple of 8 at or after where the
/// fields start and takes 8 bytes: the signal lies where it would lie for
/// the same fields without TSFT starting 8 bytes past that multiple.
pub proof fn tsft_is_eight_aligned(present: u32, o: int, t: int)
    requires
        crate::radiotap::flag(present, 0x01),
        t % 8 == 0,
        o <= t < o + 8,
    ensures
        crate::radiotap::signal_offset(present, o) == crate::radiotap::signal_offset(
            present & 0xFFFF_FFFE,
            t + 8,
        ),
{
    let q = present & 0xFFFF_FFFE;
    assert(q & 0x01 == 0) by (bit_vector)
        requires
            q == present & 0xFFFF_FFFE,
    ;
    assert(q & 0x02 == present & 0x02) by (bit_vector)
        requires
            q == present & 0xFFFF_FFFE,
    ;
    assert(q & 0x04 == present & 0x04) by (bit_vector)
        requires
            q == present & 0xFFFF_FFFE,
    ;
    assert(q & 0x08 == present & 0x08) by (bit_vector)
        requires
            q == present & 0xFFFF_FFFE,
    ;
    assert(q & 0x10 == present & 0x10) by (bit_vector)
        requires
            q == present & 0xFFFF_FFFE,
    ;
    assert(crate::radiotap::align_up(o, 8) == t);
}

/// With only TSFT before it, the antenna signal lies 8 bytes past the first
/// multiple of 8 at or after where the fields start.
pub proof fn signal_after_aligned_tsft(present: u32, o: int)
    requires
        crate::radiotap::flag(present, 0x01),
        !crate::radiotap::flag(present, 0x02),
        !crate::radiotap::flag(present, 0x04),
        !crate::radiotap::flag(present, 0x08),
        !crate::radiotap::flag(present, 0x10),
    ensures
        (crate::radiotap::signal_offset(present, o) - 8) % 8 == 0,
        o + 8 <= crate::radiotap::signal_offset(present, o) < o + 16,
{
}

// ---------------------------------------------------------------------------
// Bluetooth vendor labels
// ---------------------------------------------------------------------------

/// When the prefix database names no vendor for a device (its address is
/// random, no database is loaded, or the prefix is not listed), a company
/// id registered in the company database names it, public address or not.
pub proof fn company_id_names_unlisted_devices(
    mac: Seq<char>,
    is_random: bool,
    c: u16,
    icon: Option<Seq<char>>,
    oui_db: Option<&crate::oui::OuiDb>,
    ble_db: &crate::ble::BleCompanyDb,
)
    requires
        is_random || oui_db is None || crate::oui::lookup_in(oui_db->0@, mac) is None,
        ble_db@.contains_key(c),
    ensures
        crate::oui::bt_vendor_full(mac, is_random, Some(c), oui_db, Some(ble_db)) == Some(ble_db@[c]),
        crate::oui::bt_vendor_label(mac, is_random, Some(c), icon, oui_db, Some(ble_db)) == Some(
            match icon {
                Some(i) => if i.len() > 0 {
                    crate::oui::short_vendor(ble_db@[c]) + ", "@ + i
                } else {
                    crate::oui::short_vendor(ble_db@[c])
                },
                None => crate::oui::short_vendor(ble_db@[c]),
            },
        ),
{
}

// ---------------------------------------------------------------------------
// More report merges
// ---------------------------------------------------------------------------

/// A client sighting keeps what it does not carry: without a probed
/// network or a reading, the device's values stay; the access-point
/// details a client never reports stay as they were; the device is a
/// client.
pub proof fn client_report_keeps_absent_fields<E: crate::store::Smoothing>(
    old: crate::store::WifiDevice<E>,
    u: crate::events::WifiClientUpdate,
    now: u64,
    d: crate::store::WifiDevice<E>,
)
    requires
        crate::store::client_merged(Some(old), u, now, d),
    ensures
        d.kind == crate::store::WifiKind::Client,
        u.probing_for is None ==> d.probing_for == old.probing_for,
        u.probing_for matches Some(p) ==> d.probing_for == Some(p),
        u.rssi is None ==> d.rssi == old.rssi && d.ema == old.ema && d.sample_count
            == old.sample_count,
        u.rssi matches Some(r) ==> d.rssi == Some(r) && d.sample_count == old.sample_count + 1,
        d.ssid == old.ssid && d.freq == old.freq && d.channel == old.channel && d.security
            == old.security && d.signal_pct == old.signal_pct,
        d.first_seen == old.first_seen && d.last_seen == now,
{
}

/// An access-point listing states the network as it is now: its SSID,
/// frequency, channel and security replace the stored ones, absent ones
/// included, and the device is an access point.
pub proof fn ap_listing_replaces_details<E: crate::store::Smoothing>(
    old: Option<crate::store::WifiDevice<E>>,
    u: crate::events::WifiApUpdate<E>,
    now: u64,
    d: crate::store::WifiDevice<E>,
)
    requires
        crate::store::ap_merged(old, u, now, d),
    ensures
        d.kind == crate::store::WifiKind::Ap,
        d.ssid == u.ssid && d.freq == u.freq && d.channel == u.channel && d.security == u.security,
        d.mac@ == u.bssid@,
        d.last_seen == now,
{
}

/// A Sub-GHz reading stores its level and counts one sample, while the
/// band stays the one the frequency was first heard in.
pub proof fn subghz_reading_keeps_first_band<E: crate::store::Smoothing>(
    old: crate::store::SubGhzDevice<E>,
    sig: crate::events::SubGhzSignal,
    now: u64,
    d: crate::store::SubGhzDevice<E>,
)
    requires
        crate::store::subghz_merged(Some(old), sig, now, d),
    ensures
        d.band@ == old.band@,
        d.rssi == sig.rssi_dbm,
        d.freq_hz == sig.freq_hz,
        d.sample_count == old.sample_count + 1,
        d.first_seen == old.first_seen && d.last_seen == now,
{
}

/// With only the channel field before it, the antenna signal lies 4 bytes
/// past the first even offset at or after where the fields start.
pub proof fn signal_after_aligned_channel(present: u32, o: int)
    requires
        !crate::radiotap::flag(present, 0x01),
        !crate::radiotap::flag(present, 0x02),
        !crate::radiotap::flag(present, 0x04),
        crate::radiotap::flag(present, 0x08),
        !crate::radiotap::flag(present, 0x10),
    ensures
        (crate::radiotap::signal_offset(present, o) - 4) % 2 == 0,
        o + 4 <= crate::radiotap::signal_offset(present, o) < o + 6,
{
}

/// The antenna signal is one signed byte: every reading lies in
/// -128..=127 dBm, and a header that announces no signal gives none.
pub proof fn radiotap_signal_is_a_signed_byte(d: Seq<u8>, rt_len: int)
    ensures
        crate::radiotap::radiotap_rssi(d, rt_len) matches Some(x) ==> -128 <= x <= 127,
        d.len() >= 8 && !crate::radiotap::flag(crate::radiotap::le32(d, 4), 0x20)
            ==> crate::radiotap::radiotap_rssi(d, rt_len) is None,
{
}

/// A probe response adds its sender, and only its sender, to the known
/// access points.
pub proof fn probe_response_adds_only_its_sender(
    ap: Seq<u8>,
    rssi: Option<i16>,
    before: Set<u64>,
    after: Set<u64>,
    r: Option<crate::events::WifiClientUpdate>,
)
    requires
        client_step(FrameView::ProbeResponse { source: ap }, rssi, before, after, r),
    ensures
        after.contains(mac_number(ap)),
        forall|k: u64| k != mac_number(ap) ==> (after.contains(k) <==> before.contains(k)),
        r is None,
{
}

/// A public address whose prefix the database lists is named by that
/// entry, whatever company id it sends; a random address is never named
/// from its prefix, and with nothing else to go on it is labelled
/// "random".
pub proof fn prefix_names_public_addresses(
    mac: Seq<char>,
    is_random: bool,
    company_id: Option<u16>,
    oui_db: &crate::oui::OuiDb,
    ble_db: Option<&crate::ble::BleCompanyDb>,
)
    ensures
        !is_random ==> (crate::oui::lookup_in(oui_db@, mac) matches Some(v) ==> crate::oui::bt_vendor_full(
            mac,
            is_random,
            company_id,
            Some(oui_db),
            ble_db,
        ) == Some(v)),
        is_random ==> crate::oui::bt_vendor_full(mac, true, company_id, Some(oui_db), ble_db)
            == crate::oui::bt_vendor_full(mac, true, company_id, None, ble_db),
        is_random && company_id is None ==> crate::oui::bt_vendor_label(
            mac,
            true,
            None,
            None,
            Some(oui_db),
            ble_db,
        ) == Some("random"@),
{
}

} // verus!
