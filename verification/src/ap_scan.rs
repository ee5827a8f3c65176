//! Access-point scans through NetworkManager: reading its terse listing
//! and judging the state of the WiFi interface.

use vstd::prelude::*;

use crate::events::WifiApUpdate;
use crate::oui::{opt_str, opt_string};
use crate::text::{chars_of, string_of, trim};

verus! {

/// `fs` with `c` put in front of its first field.
pub open spec fn prepend(c: char, fs: Seq<Seq<char>>) -> Seq<Seq<char>> {
    fs.update(0, seq![c] + fs[0])
}

/// The fields of a terse NetworkManager line: split at every `:` that is
/// not escaped as `\:`, each `\:` standing for a colon.
pub open spec fn nmcli_fields(s: Seq<char>) -> Seq<Seq<char>>
    decreases s.len(),
{
    if s.len() == 0 {
        seq![seq![]]
    } else if s[0] == '\\' && s.len() >= 2 && s[1] == ':' {
        prepend(':', nmcli_fields(s.skip(2)))
    } else if s[0] == ':' {
        seq![seq![]] + nmcli_fields(s.skip(1))
    } else {
        prepend(s[0], nmcli_fields(s.skip(1)))
    }
}

/// A line always has at least one field.
pub proof fn lemma_fields_nonempty(s: Seq<char>)
    ensures
        nmcli_fields(s).len() >= 1,
    decreases s.len(),
{
    if s.len() == 0 {
    } else if s[0] == '\\' && s.len() >= 2 && s[1] == ':' {
        lemma_fields_nonempty(s.skip(2));
    } else if s[0] == ':' {
        lemma_fields_nonempty(s.skip(1));
    } else {
        lemma_fields_nonempty(s.skip(1));
    }
}

/// A field as NetworkManager writes it in terse output: each colon
/// escaped as `\:`.
pub open spec fn escape_field(f: Seq<char>) -> Seq<char>
    decreases f.len(),
{
    if f.len() == 0 {
        seq![]
    } else if f[0] == ':' {
        seq!['\\', ':'] + escape_field(f.drop_first())
    } else {
        seq![f[0]] + escape_field(f.drop_first())
    }
}

/// A terse line: the escaped fields joined by colons.
pub open spec fn escaped_line(fs: Seq<Seq<char>>) -> Seq<char>
    decreases fs.len(),
{
    if fs.len() == 0 {
        seq![]
    } else if fs.len() == 1 {
        escape_field(fs[0])
    } else {
        escape_field(fs[0]) + seq![':'] + escaped_line(fs.drop_first())
    }
}

/// The fields of `line` (see [`nmcli_fields`]).
pub fn split_nmcli_fields(line: &str) -> (r: Vec<String>)
    ensures
        r@.len() == nmcli_fields(line@).len(),
        forall|k: int| 0 <= k < r@.len() ==> #[trigger] r@[k]@ == nmcli_fields(line@)[k],
{
    let chars = chars_of(line);
    let ghost s = line@;
    let mut parts: Vec<String> = Vec::new();
    let ghost mut pv: Seq<Seq<char>> = seq![];
    let mut cur: Vec<char> = Vec::new();
    let mut i: usize = 0;
    proof {
        lemma_fields_nonempty(s);
        assert(s.skip(0) =~= s);
        assert(pv + seq![cur@ + nmcli_fields(s)[0]] + nmcli_fields(s).drop_first() =~= nmcli_fields(
            s,
        ));
    }
    while i < chars.len()
        invariant
            chars@ == s,
            i <= s.len(),
            parts@.len() == pv.len(),
            forall|k: int| 0 <= k < pv.len() ==> #[trigger] parts@[k]@ == pv[k],
            nmcli_fields(s) == pv + seq![cur@ + nmcli_fields(s.skip(i as int))[0]] + nmcli_fields(
                s.skip(i as int),
            ).drop_first(),
        decreases s.len() - i,
    {
        let ghost t = s.skip(i as int);
        let ghost f = nmcli_fields(t);
        if chars[i] == '\\' && i + 1 < chars.len() && chars[i + 1] == ':' {
            proof {
                assert(t.skip(2) =~= s.skip(i + 2));
                lemma_fields_nonempty(s.skip(i + 2));
                let g = nmcli_fields(s.skip(i + 2));
                assert(f == prepend(':', g));
                assert(f.drop_first() =~= g.drop_first());
                assert(cur@.push(':') + g[0] =~= cur@ + f[0]);
            }
            cur.push(':');
            i = i + 2;
        } else if chars[i] == ':' {
            proof {
                assert(t.skip(1) =~= s.skip(i + 1));
                lemma_fields_nonempty(s.skip(i + 1));
                let g = nmcli_fields(s.skip(i + 1));
                assert(f == seq![seq![]] + g);
                assert(f[0] =~= Seq::<char>::empty());
                assert(f.drop_first() =~= g);
                assert(cur@ + f[0] =~= cur@);
                assert(pv.push(cur@) + seq![Seq::<char>::empty() + g[0]] + g.drop_first() =~= pv
                    + seq![cur@ + f[0]] + f.drop_first());
            }
            let piece = string_of(&cur);
            parts.push(piece);
            proof {
                pv = pv.push(cur@);
            }
            cur = Vec::new();
            i = i + 1;
        } else {
            let c = chars[i];
            proof {
                assert(t.skip(1) =~= s.skip(i + 1));
                lemma_fields_nonempty(s.skip(i + 1));
                let g = nmcli_fields(s.skip(i + 1));
                assert(f == prepend(c, g));
                assert(f.drop_first() =~= g.drop_first());
                assert(cur@.push(c) + g[0] =~= cur@ + f[0]);
            }
            cur.push(c);
            i = i + 1;
        }
    }
    proof {
        assert(s.skip(i as int) =~= Seq::<char>::empty());
        assert(cur@ + Seq::<char>::empty() =~= cur@);
    }
    let last = string_of(&cur);
    parts.push(last);
    proof {
        pv = pv.push(cur@);
        assert(nmcli_fields(s) =~= pv);
    }
    parts
}

// ---------------------------------------------------------------------------
// Number text
// ---------------------------------------------------------------------------

/// An ASCII decimal digit.
pub open spec fn is_digit(c: char) -> bool {
    '0' <= c <= '9'
}

/// A sign.
pub open spec fn is_sign(c: char) -> bool {
    c == '+' || c == '-'
}

/// The characters `a..b` of `f` are all digits.
pub open spec fn digits(f: Seq<char>, a: int, b: int) -> bool {
    forall|k: int| a <= k < b ==> is_digit(#[trigger] f[k])
}

/// `c` is the lowercase ASCII letter `w`, in either case.
pub open spec fn ci_eq(c: char, w: char) -> bool {
    c == w || ('A' <= c <= 'Z' && c as u32 + 32 == w as u32)
}

/// The characters of `f` from `a` to its end spell `w`, ignoring ASCII
/// case.
pub open spec fn word_at(f: Seq<char>, a: int, w: Seq<char>) -> bool {
    &&& f.len() - a == w.len()
    &&& forall|k: int| 0 <= k < w.len() ==> ci_eq(#[trigger] f[a + k], w[k])
}

/// The first `.` in `f` from `i` before `k`, or `k`.
pub open spec fn find_dot(f: Seq<char>, i: int, k: int) -> int
    decreases k - i,
{
    if i >= k {
        k
    } else if f[i] == '.' {
        i
    } else {
        find_dot(f, i + 1, k)
    }
}

/// The first `e` or `E` in `f` from `i`, or the length of `f`.
pub open spec fn find_exp(f: Seq<char>, i: int) -> int
    decreases f.len() - i,
{
    if i >= f.len() {
        f.len() as int
    } else if f[i] == 'e' || f[i] == 'E' {
        i
    } else {
        find_exp(f, i + 1)
    }
}

/// `a..k` is digits, or digits, a point and digits with at least one digit.
pub open spec fn mantissa_at(f: Seq<char>, a: int, k: int) -> bool {
    let p = find_dot(f, a, k);
    if p == k {
        k > a && digits(f, a, k)
    } else {
        k - a > 1 && digits(f, a, p) && digits(f, p + 1, k)
    }
}

/// From `a` to the end: an optional sign, then one digit or more.
pub open spec fn exponent_at(f: Seq<char>, a: int) -> bool {
    let b = if a < f.len() && is_sign(f[a]) {
        a + 1
    } else {
        a
    };
    b < f.len() && digits(f, b, f.len() as int)
}

/// From `a` to the end: a mantissa, then optionally `e` and an exponent.
pub open spec fn number_at(f: Seq<char>, a: int) -> bool {
    let k = find_exp(f, a);
    mantissa_at(f, a, k) && (k == f.len() || exponent_at(f, k + 1))
}

/// `f` is text that `str::parse::<f64>` accepts: an optional sign, then
/// `inf`, `infinity` or `nan` in any ASCII case, or a decimal number with
/// an optional exponent; no surrounding whitespace.
pub open spec fn float_text(f: Seq<char>) -> bool {
    let a = if f.len() > 0 && is_sign(f[0]) {
        1int
    } else {
        0int
    };
    ||| word_at(f, a, seq!['i', 'n', 'f'])
    ||| word_at(f, a, seq!['i', 'n', 'f', 'i', 'n', 'i', 't', 'y'])
    ||| word_at(f, a, seq!['n', 'a', 'n'])
    ||| number_at(f, a)
}

fn digits_in(v: &Vec<char>, a: usize, b: usize) -> (r: bool)
    requires
        a <= b <= v@.len(),
    ensures
        r == digits(v@, a as int, b as int),
{
    let mut i = a;
    while i < b
        invariant
            a <= i <= b <= v@.len(),
            digits(v@, a as int, i as int),
        decreases b - i,
    {
        if !('0' <= v[i] && v[i] <= '9') {
            return false;
        }
        i = i + 1;
    }
    true
}

fn word_is(v: &Vec<char>, a: usize, w: &[char]) -> (r: bool)
    requires
        a <= v@.len(),
    ensures
        r == word_at(v@, a as int, w@),
{
    if v.len() - a != w.len() {
        return false;
    }
    let n = v.len();
    let mut k: usize = 0;
    while k < w.len()
        invariant
            n == v@.len(),
            a <= v@.len(),
            a + w@.len() == v@.len(),
            k <= w@.len(),
            forall|j: int| 0 <= j < k ==> ci_eq(#[trigger] v@[a + j], w@[j]),
        decreases w@.len() - k,
    {
        let i = a + k;
        let c = v[i];
        let x = w[k];
        let cu: u32 = c as u32;
        let same = if 'A' <= c && c <= 'Z' {
            c == x || cu + 32 == x as u32
        } else {
            c == x
        };
        if !same {
            return false;
        }
        k = k + 1;
    }
    true
}

fn dot_from(v: &Vec<char>, i: usize, k: usize) -> (r: usize)
    requires
        i <= k <= v@.len(),
    ensures
        r == find_dot(v@, i as int, k as int),
        i <= r <= k,
{
    let mut j = i;
    while j < k && v[j] != '.'
        invariant
            i <= j <= k <= v@.len(),
            find_dot(v@, j as int, k as int) == find_dot(v@, i as int, k as int),
        decreases k - j,
    {
        j = j + 1;
    }
    j
}

fn exp_from(v: &Vec<char>, i: usize) -> (r: usize)
    requires
        i <= v@.len(),
    ensures
        r == find_exp(v@, i as int),
        i <= r <= v@.len(),
{
    let mut j = i;
    while j < v.len() && v[j] != 'e' && v[j] != 'E'
        invariant
            i <= j <= v@.len(),
            find_exp(v@, j as int) == find_exp(v@, i as int),
        decreases v@.len() - j,
    {
        j = j + 1;
    }
    j
}

fn number_is(v: &Vec<char>, a: usize) -> (r: bool)
    requires
        a <= v@.len(),
    ensures
        r == number_at(v@, a as int),
{
    let k = exp_from(v, a);
    let p = dot_from(v, a, k);
    let mantissa = if p == k {
        k > a && digits_in(v, a, k)
    } else {
        k - a > 1 && digits_in(v, a, p) && digits_in(v, p + 1, k)
    };
    if !mantissa {
        return false;
    }
    if k == v.len() {
        return true;
    }
    let b = if k + 1 < v.len() && (v[k + 1] == '+' || v[k + 1] == '-') {
        k + 2
    } else {
        k + 1
    };
    b < v.len() && digits_in(v, b, v.len())
}

/// Whether `str::parse::<f64>` accepts `s`, as [`float_text`] says.
pub fn is_float_text(s: &str) -> (r: bool)
    ensures
        r == float_text(s@),
{
    let v = chars_of(s);
    let a: usize = if v.len() > 0 && (v[0] == '+' || v[0] == '-') {
        1
    } else {
        0
    };
    let inf = ['i', 'n', 'f'];
    let infinity = ['i', 'n', 'f', 'i', 'n', 'i', 't', 'y'];
    let nan = ['n', 'a', 'n'];
    proof {
        assert(inf@ =~= seq!['i', 'n', 'f']);
        assert(infinity@ =~= seq!['i', 'n', 'f', 'i', 'n', 'i', 't', 'y']);
        assert(nan@ =~= seq!['n', 'a', 'n']);
    }
    word_is(&v, a, &inf) || word_is(&v, a, &infinity) || word_is(&v, a, &nan) || number_is(&v, a)
}

/// The name NetworkManager lists for a hidden network.
pub open spec fn hidden_ssid() -> Seq<char> {
    "(hidden)"@
}

/// The access point a listing line describes: BSSID, SSID (or the hidden
/// marker), signal, frequency, channel and security from its first six
/// fields; `None` when it has fewer, or when the signal is not a number.
pub open spec fn nmcli_ap(line: Seq<char>) -> Option<
    (Seq<char>, Seq<char>, Seq<char>, Seq<char>, Seq<char>, Seq<char>),
> {
    let f = nmcli_fields(line);
    if f.len() < 6 || !float_text(f[2]) {
        None
    } else {
        Some(
            (
                f[1],
                if f[0].len() == 0 {
                    hidden_ssid()
                } else {
                    f[0]
                },
                f[2],
                f[3],
                f[4],
                f[5],
            ),
        )
    }
}

/// Reads a line of `nmcli -t -f SSID,BSSID,SIGNAL,FREQ,CHAN,SECURITY,MODE
/// dev wifi list`. A line whose signal is not a number gives `None`; the
/// signal is handed on as the text of its field, which `str::parse::<f64>`
/// accepts.
pub fn parse_nmcli_line(line: &str) -> (r: Option<WifiApUpdate<String>>)
    ensures
        match nmcli_ap(line@) {
            None => r is None,
            Some((bssid, ssid, signal, freq, channel, security)) => r matches Some(u) && u.bssid@
                == bssid && opt_string(u.ssid) == Some(ssid) && opt_string(u.signal_pct) == Some(
                signal) && opt_string(u.freq) == Some(freq) && opt_string(u.channel) == Some(
                channel) && opt_string(u.security) == Some(security),
        },
{
    let parts = split_nmcli_fields(line);
    if parts.len() < 6 || !is_float_text(parts[2].as_str()) {
        return None;
    }
    let ssid = if parts[0].as_str().is_empty() {
        proof {
            reveal_strlit("(hidden)");
        }
        "(hidden)".to_owned()
    } else {
        parts[0].clone()
    };
    Some(
        WifiApUpdate {
            bssid: parts[1].clone(),
            ssid: Some(ssid),
            signal_pct: Some(parts[2].clone()),
            freq: Some(parts[3].clone()),
            channel: Some(parts[4].clone()),
            security: Some(parts[5].clone()),
        },
    )
}

/// The warning for a WiFi interface, from the text of its `operstate`
/// (`None` when that could not be read): missing, down, or nothing to say.
pub open spec fn iface_warning(iface: Seq<char>, operstate: Option<Seq<char>>) -> Option<
    Seq<char>,
> {
    match operstate {
        None => Some(
            "WiFi iface "@ + iface + " not found — set WIFI_IFACE=<name> (see: ip -br link)"@,
        ),
        Some(state) => if trim(state) == "down"@ {
            Some("WiFi iface "@ + iface + " is DOWN — run: sudo ip link set "@ + iface + " up"@)
        } else {
            None
        },
    }
}

/// What is wrong with the WiFi interface `iface`, given the text of its
/// `operstate` file or `None` when it could not be read.
pub fn iface_problem(iface: &str, operstate: Option<&str>) -> (r: Option<String>)
    ensures
        opt_string(r) == iface_warning(iface@, opt_str(operstate)),
{
    match operstate {
        None => {
            let mut s = "WiFi iface ".to_owned();
            s.append(iface);
            s.append(" not found — set WIFI_IFACE=<name> (see: ip -br link)");
            Some(s)
        },
        Some(state) => {
            let chars = chars_of(state);
            let t = crate::text::trim_chars(&chars);
            let down = chars_of("down");
            if crate::text::chars_eq(&t, &down) {
                let mut s = "WiFi iface ".to_owned();
                s.append(iface);
                s.append(" is DOWN — run: sudo ip link set ");
                s.append(iface);
                s.append(" up");
                Some(s)
            } else {
                None
            }
        },
    }
}


} // verus!
