//! Character-level helpers shared by the parsers: whitespace, hex digits,
//! trimming, splitting into words and lines, joining, decimal rendering.

use vstd::prelude::*;

verus! {

/// `String::push` appends one character to the end of the string.
pub assume_specification[ String::push ](s: &mut String, ch: char)
    ensures
        final(s)@ == old(s)@.push(ch),
;

// ---------------------------------------------------------------------------
// Character classes
// ---------------------------------------------------------------------------

/// Unicode `White_Space`, the class that `char::is_whitespace` tests.
pub open spec fn is_ws(c: char) -> bool {
    let u = c as u32;
    ||| (0x09 <= u && u <= 0x0d)
    ||| u == 0x20
    ||| u == 0x85
    ||| u == 0xa0
    ||| u == 0x1680
    ||| (0x2000 <= u && u <= 0x200a)
    ||| u == 0x2028
    ||| u == 0x2029
    ||| u == 0x202f
    ||| u == 0x205f
    ||| u == 0x3000
}

/// ASCII hexadecimal digit, either case.
pub open spec fn is_hex(c: char) -> bool {
    ||| ('0' <= c && c <= '9')
    ||| ('a' <= c && c <= 'f')
    ||| ('A' <= c && c <= 'F')
}

/// Value of a hexadecimal digit.
pub open spec fn hex_val(c: char) -> nat {
    if '0' <= c && c <= '9' {
        (c as u32 - '0' as u32) as nat
    } else if 'a' <= c && c <= 'f' {
        (c as u32 - 'a' as u32 + 10) as nat
    } else {
        (c as u32 - 'A' as u32 + 10) as nat
    }
}

pub fn char_is_ws(c: char) -> (b: bool)
    ensures
        b == is_ws(c),
{
    let u = c as u32;
    (0x09 <= u && u <= 0x0d) || u == 0x20 || u == 0x85 || u == 0xa0 || u == 0x1680 || (0x2000
        <= u && u <= 0x200a) || u == 0x2028 || u == 0x2029 || u == 0x202f || u == 0x205f || u
        == 0x3000
}

pub fn char_is_hex(c: char) -> (b: bool)
    ensures
        b == is_hex(c),
{
    ('0' <= c && c <= '9') || ('a' <= c && c <= 'f') || ('A' <= c && c <= 'F')
}

pub fn char_hex_val(c: char) -> (v: u8)
    requires
        is_hex(c),
    ensures
        v as nat == hex_val(c),
        v < 16,
{
    let u = c as u32;
    if '0' <= c && c <= '9' {
        (u - 48) as u8
    } else if 'a' <= c && c <= 'f' {
        (u - 97 + 10) as u8
    } else {
        (u - 65 + 10) as u8
    }
}

// ---------------------------------------------------------------------------
// Conversions
// ---------------------------------------------------------------------------

/// The characters of `s`, in order.
pub fn chars_of(s: &str) -> (v: Vec<char>)
    ensures
        v@ == s@,
{
    let mut v: Vec<char> = Vec::new();
    for c in it: s.chars()
        invariant
            v@ == it.seq().take(it.index() as int),
            it.seq() == s@,
    {
        v.push(c);
    }
    v
}

/// A string holding exactly the characters of `v`.
pub fn string_of(v: &[char]) -> (s: String)
    ensures
        s@ == v@,
{
    let mut s = String::new();
    let mut i: usize = 0;
    while i < v.len()
        invariant
            i <= v@.len(),
            s@ == v@.take(i as int),
        decreases v@.len() - i,
    {
        s.push(v[i]);
        assert(v@.take(i as int).push(v@[i as int]) =~= v@.take(i + 1));
        i = i + 1;
    }
    assert(v@.take(v@.len() as int) =~= v@);
    s
}

/// Copy of `v[a..b]`.
pub fn copy_range(v: &[char], a: usize, b: usize) -> (r: Vec<char>)
    requires
        a <= b <= v@.len(),
    ensures
        r@ == v@.subrange(a as int, b as int),
{
    let mut r: Vec<char> = Vec::new();
    let mut i = a;
    while i < b
        invariant
            a <= i <= b <= v@.len(),
            r@ == v@.subrange(a as int, i as int),
        decreases b - i,
    {
        r.push(v[i]);
        assert(v@.subrange(a as int, i as int).push(v@[i as int]) =~= v@.subrange(
            a as int,
            i + 1,
        ));
        i = i + 1;
    }
    r
}

/// Character-wise equality of two sequences.
pub fn chars_eq(a: &[char], b: &[char]) -> (r: bool)
    ensures
        r == (a@ == b@),
{
    if a.len() != b.len() {
        return false;
    }
    let mut i: usize = 0;
    while i < a.len()
        invariant
            a@.len() == b@.len(),
            i <= a@.len(),
            forall|k: int| 0 <= k < i ==> a@[k] == b@[k],
        decreases a@.len() - i,
    {
        if a[i] != b[i] {
            return false;
        }
        i = i + 1;
    }
    assert(a@ =~= b@);
    true
}


// ---------------------------------------------------------------------------
// Trimming
// ---------------------------------------------------------------------------

/// `s` without its leading whitespace.
pub open spec fn trim_start(s: Seq<char>) -> Seq<char>
    decreases s.len(),
{
    if s.len() > 0 && is_ws(s[0]) {
        trim_start(s.drop_first())
    } else {
        s
    }
}

/// `s` without its trailing whitespace.
pub open spec fn trim_end(s: Seq<char>) -> Seq<char>
    decreases s.len(),
{
    if s.len() > 0 && is_ws(s.last()) {
        trim_end(s.drop_last())
    } else {
        s
    }
}

/// `s` without leading and trailing whitespace, as `str::trim` gives it.
pub open spec fn trim(s: Seq<char>) -> Seq<char> {
    trim_end(trim_start(s))
}

/// Bounds `(a, b)` such that `v[a..b]` is `v` trimmed.
pub fn trim_bounds(v: &[char]) -> (r: (usize, usize))
    ensures
        r.0 <= r.1 <= v@.len(),
        v@.subrange(r.0 as int, r.1 as int) == trim(v@),
{
    let mut a: usize = 0;
    assert(v@.skip(0) =~= v@);
    while a < v.len() && char_is_ws(v[a])
        invariant
            a <= v@.len(),
            trim_start(v@) == trim_start(v@.skip(a as int)),
        decreases v@.len() - a,
    {
        assert(v@.skip(a as int).drop_first() =~= v@.skip(a + 1));
        a = a + 1;
    }
    assert(trim_start(v@) == v@.skip(a as int));
    let mut b: usize = v.len();
    assert(v@.subrange(a as int, b as int) =~= v@.skip(a as int));
    while b > a && char_is_ws(v[b - 1])
        invariant
            a <= b <= v@.len(),
            trim(v@) == trim_end(v@.subrange(a as int, b as int)),
        decreases b - a,
    {
        assert(v@.subrange(a as int, b as int).drop_last() =~= v@.subrange(a as int, b - 1));
        b = b - 1;
    }
    (a, b)
}

/// `v` trimmed, as a new vector.
pub fn trim_chars(v: &[char]) -> (r: Vec<char>)
    ensures
        r@ == trim(v@),
{
    let (a, b) = trim_bounds(v);
    copy_range(v, a, b)
}

// ---------------------------------------------------------------------------
// Words
// ---------------------------------------------------------------------------

/// Number of leading characters of `s` that are not whitespace.
pub open spec fn token_len(s: Seq<char>) -> nat
    decreases s.len(),
{
    if s.len() > 0 && !is_ws(s[0]) {
        1 + token_len(s.drop_first())
    } else {
        0
    }
}

pub proof fn lemma_token_len_le(s: Seq<char>)
    ensures
        token_len(s) <= s.len(),
    decreases s.len(),
{
    if s.len() > 0 && !is_ws(s[0]) {
        lemma_token_len_le(s.drop_first());
    }
}

/// The maximal runs of non-whitespace characters of `s`, in order, as
/// `str::split_whitespace` yields them.
pub open spec fn words(s: Seq<char>) -> Seq<Seq<char>>
    decreases s.len(),
{
    if s.len() == 0 {
        seq![]
    } else if is_ws(s[0]) {
        words(s.drop_first())
    } else {
        let k = token_len(s);
        proof {
            lemma_token_len_le(s);
        }
        seq![s.take(k as int)] + words(s.skip(k as int))
    }
}

proof fn lemma_token_len_prefix(cur: Seq<char>, r: Seq<char>)
    requires
        forall|k: int| 0 <= k < cur.len() ==> !is_ws(#[trigger] cur[k]),
        r.len() == 0 || is_ws(r[0]),
    ensures
        token_len(cur + r) == cur.len(),
    decreases cur.len(),
{
    if cur.len() == 0 {
        assert(cur + r =~= r);
    } else {
        assert((cur + r).drop_first() =~= cur.drop_first() + r);
        assert(forall|k: int|
            0 <= k < cur.drop_first().len() ==> cur.drop_first()[k] == cur[k + 1]);
        lemma_token_len_prefix(cur.drop_first(), r);
    }
}

proof fn lemma_words_after_word(cur: Seq<char>, r: Seq<char>)
    requires
        cur.len() > 0,
        forall|k: int| 0 <= k < cur.len() ==> !is_ws(#[trigger] cur[k]),
        r.len() == 0 || is_ws(r[0]),
    ensures
        words(cur + r) == seq![cur] + words(r),
{
    lemma_token_len_prefix(cur, r);
    assert((cur + r).take(cur.len() as int) =~= cur);
    assert((cur + r).skip(cur.len() as int) =~= r);
    assert((cur + r)[0] == cur[0]);
}

/// A vector of characters deep-views as its plain view.
pub proof fn lemma_chars_deep_view(v: Vec<char>)
    ensures
        v.deep_view() == v@,
{
    assert(v.deep_view() =~= v@);
}

/// The words of `v`, as `str::split_whitespace` yields them.
pub fn split_words(v: &[char]) -> (r: Vec<Vec<char>>)
    ensures
        r.deep_view() == words(v@),
{
    let mut acc: Vec<Vec<char>> = Vec::new();
    let mut cur: Vec<char> = Vec::new();
    let mut i: usize = 0;
    assert(v@.skip(0) =~= v@);
    assert(cur@ + v@.skip(0) =~= v@);
    while i < v.len()
        invariant
            i <= v@.len(),
            forall|k: int| 0 <= k < cur@.len() ==> !is_ws(#[trigger] cur@[k]),
            words(v@) == acc.deep_view() + words(cur@ + v@.skip(i as int)),
        decreases v@.len() - i,
    {
        let c = v[i];
        let ghost rest = v@.skip(i + 1);
        assert(v@.skip(i as int) =~= seq![c] + rest);
        if char_is_ws(c) {
            if cur.len() > 0 {
                assert(cur@ + v@.skip(i as int) =~= cur@ + (seq![c] + rest));
                proof {
                    lemma_words_after_word(cur@, seq![c] + rest);
                }
                assert((seq![c] + rest).drop_first() =~= rest);
                let ghost before = acc.deep_view();
                let ghost w = cur@;
                proof {
                    lemma_chars_deep_view(cur);
                }
                acc.push(cur);
                cur = Vec::new();
                assert(acc.deep_view() =~= before.push(w));
                assert(before + (seq![w] + words(rest)) =~= before.push(w) + words(rest));
            } else {
                assert(cur@ + v@.skip(i as int) =~= seq![c] + rest);
                assert((seq![c] + rest).drop_first() =~= rest);
            }
            assert(cur@ + rest =~= rest);
        } else {
            assert(cur@ + v@.skip(i as int) =~= cur@.push(c) + rest);
            cur.push(c);
        }
        i = i + 1;
    }
    assert(v@.skip(i as int) =~= Seq::<char>::empty());
    assert(cur@ + v@.skip(i as int) =~= cur@);
    if cur.len() > 0 {
        proof {
            lemma_words_after_word(cur@, Seq::empty());
        }
        assert(cur@ + Seq::<char>::empty() =~= cur@);
        let ghost before = acc.deep_view();
        let ghost w = cur@;
        proof {
            lemma_chars_deep_view(cur);
        }
        acc.push(cur);
        assert(acc.deep_view() =~= before.push(w));
        assert(before + (seq![w] + words(Seq::empty())) =~= before.push(w));
    }
    acc
}


// ---------------------------------------------------------------------------
// Lines
// ---------------------------------------------------------------------------

/// Number of leading characters of `s` before the first `'\n'`.
pub open spec fn line_len(s: Seq<char>) -> nat
    decreases s.len(),
{
    if s.len() > 0 && s[0] != '\n' {
        1 + line_len(s.drop_first())
    } else {
        0
    }
}

pub proof fn lemma_line_len_le(s: Seq<char>)
    ensures
        line_len(s) <= s.len(),
    decreases s.len(),
{
    if s.len() > 0 && s[0] != '\n' {
        lemma_line_len_le(s.drop_first());
    }
}

/// `l` without one trailing carriage return.
pub open spec fn strip_cr(l: Seq<char>) -> Seq<char> {
    if l.len() > 0 && l.last() == '\r' {
        l.drop_last()
    } else {
        l
    }
}

/// The lines of `s` as `str::lines` yields them: split at `'\n'`, a `'\r'`
/// just before a `'\n'` dropped, and no empty line after a final `'\n'`.
pub open spec fn lines(s: Seq<char>) -> Seq<Seq<char>>
    decreases s.len(),
{
    if s.len() == 0 {
        seq![]
    } else {
        let k = line_len(s);
        proof {
            lemma_line_len_le(s);
        }
        if k == s.len() {
            seq![s]
        } else {
            seq![strip_cr(s.take(k as int))] + lines(s.skip(k + 1 as int))
        }
    }
}

proof fn lemma_line_len_prefix(cur: Seq<char>, r: Seq<char>)
    requires
        forall|k: int| 0 <= k < cur.len() ==> #[trigger] cur[k] != '\n',
        r.len() == 0 || r[0] == '\n',
    ensures
        line_len(cur + r) == cur.len(),
    decreases cur.len(),
{
    if cur.len() == 0 {
        assert(cur + r =~= r);
    } else {
        assert((cur + r).drop_first() =~= cur.drop_first() + r);
        assert(forall|k: int|
            0 <= k < cur.drop_first().len() ==> cur.drop_first()[k] == cur[k + 1]);
        lemma_line_len_prefix(cur.drop_first(), r);
    }
}

/// The lines of `v`, as `str::lines` yields them.
pub fn split_lines(v: &[char]) -> (r: Vec<Vec<char>>)
    ensures
        r.deep_view() == lines(v@),
{
    let mut acc: Vec<Vec<char>> = Vec::new();
    let mut cur: Vec<char> = Vec::new();
    let mut i: usize = 0;
    assert(v@.skip(0) =~= v@);
    assert(cur@ + v@.skip(0) =~= v@);
    while i < v.len()
        invariant
            i <= v@.len(),
            forall|k: int| 0 <= k < cur@.len() ==> #[trigger] cur@[k] != '\n',
            lines(v@) == acc.deep_view() + lines(cur@ + v@.skip(i as int)),
        decreases v@.len() - i,
    {
        let c = v[i];
        let ghost rest = v@.skip(i + 1);
        assert(v@.skip(i as int) =~= seq![c] + rest);
        if c == '\n' {
            let ghost whole = cur@ + (seq![c] + rest);
            assert(cur@ + v@.skip(i as int) =~= whole);
            proof {
                lemma_line_len_prefix(cur@, seq![c] + rest);
            }
            assert(whole.take(cur@.len() as int) =~= cur@);
            assert(whole.skip(cur@.len() + 1 as int) =~= rest);
            let n = cur.len();
            if n > 0 && cur[n - 1] == '\r' {
                cur.pop();
            }
            let ghost before = acc.deep_view();
            let ghost w = cur@;
            proof {
                lemma_chars_deep_view(cur);
            }
            acc.push(cur);
            cur = Vec::new();
            assert(acc.deep_view() =~= before.push(w));
            assert(before + (seq![w] + lines(rest)) =~= before.push(w) + lines(rest));
            assert(cur@ + rest =~= rest);
        } else {
            assert(cur@ + v@.skip(i as int) =~= cur@.push(c) + rest);
            cur.push(c);
        }
        i = i + 1;
    }
    assert(v@.skip(i as int) =~= Seq::<char>::empty());
    assert(cur@ + v@.skip(i as int) =~= cur@);
    if cur.len() > 0 {
        proof {
            lemma_line_len_prefix(cur@, Seq::empty());
            assert(cur@ + Seq::<char>::empty() =~= cur@);
            lemma_chars_deep_view(cur);
        }
        let ghost before = acc.deep_view();
        let ghost w = cur@;
        acc.push(cur);
        assert(acc.deep_view() =~= before.push(w));
    } else {
        assert(acc.deep_view() + lines(cur@) =~= acc.deep_view());
    }
    acc
}

// ---------------------------------------------------------------------------
// Joining
// ---------------------------------------------------------------------------

/// The parts separated by `sep`, as `[&str]::join` gives them.
pub open spec fn join(parts: Seq<Seq<char>>, sep: Seq<char>) -> Seq<char>
    decreases parts.len(),
{
    if parts.len() == 0 {
        seq![]
    } else if parts.len() == 1 {
        parts[0]
    } else {
        join(parts.drop_last(), sep) + sep + parts.last()
    }
}

/// `parts` joined by the single character `sep`.
pub fn join_chars(parts: &[Vec<char>], sep: char) -> (r: Vec<char>)
    ensures
        r@ == join(parts.deep_view(), seq![sep]),
{
    let mut r: Vec<char> = Vec::new();
    let mut i: usize = 0;
    while i < parts.len()
        invariant
            i <= parts@.len(),
            r@ == join(parts.deep_view().take(i as int), seq![sep]),
        decreases parts@.len() - i,
    {
        let ghost dv = parts.deep_view();
        proof {
            lemma_chars_deep_view(parts@[i as int]);
        }
        assert(dv.take(i + 1).drop_last() =~= dv.take(i as int));
        if i > 0 {
            r.push(sep);
        }
        let p = &parts[i];
        let mut j: usize = 0;
        let ghost start = r@;
        while j < p.len()
            invariant
                j <= p@.len(),
                r@ == start + p@.take(j as int),
            decreases p@.len() - j,
        {
            r.push(p[j]);
            assert(p@.take(j as int).push(p@[j as int]) =~= p@.take(j + 1));
            assert(start + p@.take(j + 1) =~= (start + p@.take(j as int)).push(p@[j as int]));
            j = j + 1;
        }
        assert(p@.take(p@.len() as int) =~= p@);
        if i == 0 {
            assert(seq![] + p@ =~= p@);
        }
        assert(dv.take(i + 1).last() == p@);
        i = i + 1;
    }
    assert(parts.deep_view().take(parts@.len() as int) =~= parts.deep_view());
    r
}

// ---------------------------------------------------------------------------
// Numbers
// ---------------------------------------------------------------------------

/// The ASCII digit for `d < 10`.
pub open spec fn digit_char(d: nat) -> char {
    ((d + 48) as u8) as char
}

/// Decimal rendering of `n`, as `Display` for unsigned integers gives it.
pub open spec fn decimal(n: nat) -> Seq<char>
    decreases n,
{
    if n < 10 {
        seq![digit_char(n)]
    } else {
        decimal(n / 10).push(digit_char(n % 10))
    }
}

/// Appends the decimal rendering of `n` to `s`.
pub fn push_decimal(s: &mut String, n: u64)
    ensures
        final(s)@ == old(s)@ + decimal(n as nat),
    decreases n,
{
    if n >= 10 {
        push_decimal(s, n / 10);
    }
    let d = (n % 10) as u8;
    s.push((d + 48) as char);
    assert(old(s)@ + decimal(n as nat) =~= if n < 10 {
        old(s)@.push(digit_char(n as nat))
    } else {
        (old(s)@ + decimal((n / 10) as nat)).push(digit_char((n % 10) as nat))
    });
}

/// Decimal digit.
pub open spec fn is_digit(c: char) -> bool {
    '0' <= c && c <= '9'
}

/// Whether `c` is a digit in base `radix` (10 or 16).
pub open spec fn is_radix_digit(c: char, radix: nat) -> bool {
    if radix == 16 {
        is_hex(c)
    } else {
        is_digit(c)
    }
}

/// Value of the digit string `s` in base `radix`.
pub open spec fn digits_value(s: Seq<char>, radix: nat) -> nat
    decreases s.len(),
{
    if s.len() == 0 {
        0
    } else {
        digits_value(s.drop_last(), radix) * radix + hex_val(s.last())
    }
}

/// `s` without one optional leading `'+'`.
pub open spec fn unsigned_digits(s: Seq<char>) -> Seq<char> {
    if s.len() > 0 && s[0] == '+' {
        s.drop_first()
    } else {
        s
    }
}

/// Every character of `d` is a digit of the base.
pub open spec fn all_radix_digits(d: Seq<char>, radix: nat) -> bool {
    forall|k: int| 0 <= k < d.len() ==> is_radix_digit(#[trigger] d[k], radix)
}

/// What `from_str_radix` (and `str::parse`) give for an unsigned type
/// whose largest value is `max`: one optional leading `'+'`, then at least
/// one digit of the base, and a value that fits.
pub open spec fn parse_unsigned(s: Seq<char>, radix: nat, max: nat) -> Option<nat> {
    let d = unsigned_digits(s);
    if d.len() > 0 && all_radix_digits(d, radix) && digits_value(d, radix) <= max {
        Some(digits_value(d, radix))
    } else {
        None
    }
}

proof fn lemma_saturating_step(v: nat, acc: nat, cap: nat, radix: nat, dv: nat)
    requires
        radix >= 1,
        cap >= 1,
        acc == if v < cap {
            v
        } else {
            cap
        },
    ensures
        ({
            let next = acc * radix + dv;
            let full = v * radix + dv;
            (if next < cap {
                next
            } else {
                cap
            }) == (if full < cap {
                full
            } else {
                cap
            })
        }),
{
    if v >= cap {
        assert(cap * radix >= cap) by (nonlinear_arith)
            requires
                radix >= 1,
        ;
        assert(v * radix >= cap * radix) by (nonlinear_arith)
            requires
                v >= cap,
                radix >= 1,
        ;
    }
}

/// Parses `s` as an unsigned number in base 10 or 16 no larger than `max`.
pub fn parse_unsigned_chars(s: &[char], radix: u8, max: u64) -> (r: Option<u64>)
    requires
        radix == 10 || radix == 16,
    ensures
        r matches Some(v) ==> parse_unsigned(s@, radix as nat, max as nat) == Some(v as nat),
        r is None ==> parse_unsigned(s@, radix as nat, max as nat) is None,
{
    let ghost d = unsigned_digits(s@);
    let start: usize = if s.len() > 0 && s[0] == '+' {
        1
    } else {
        0
    };
    assert(d =~= s@.skip(start as int));
    if start >= s.len() {
        return None;
    }
    let mut acc: u128 = 0;
    let cap: u128 = max as u128 + 1;
    let mut i = start;
    assert(d.take(0) =~= Seq::<char>::empty());
    while i < s.len()
        invariant
            start <= i <= s@.len(),
            d == s@.skip(start as int),
            d == unsigned_digits(s@),
            cap == max + 1,
            radix == 10 || radix == 16,
            all_radix_digits(d.take(i - start), radix as nat),
            acc as nat == if digits_value(d.take(i - start), radix as nat) < cap {
                digits_value(d.take(i - start), radix as nat)
            } else {
                cap as nat
            },
        decreases s@.len() - i,
    {
        let c = s[i];
        let ok = if radix == 16 {
            char_is_hex(c)
        } else {
            '0' <= c && c <= '9'
        };
        let ghost pre = d.take(i - start);
        if !ok {
            assert(d[i - start] == c);
            assert(!all_radix_digits(d, radix as nat));
            return None;
        }
        let dv = char_hex_val(c) as u128;
        assert(d.take(i - start + 1).drop_last() =~= pre);
        assert(d.take(i - start + 1).last() == c);
        assert(all_radix_digits(d.take(i - start + 1), radix as nat)) by {
            assert forall|k: int| 0 <= k < i - start + 1 implies is_radix_digit(
                #[trigger] d.take(i - start + 1)[k],
                radix as nat,
            ) by {
                if k < i - start {
                    assert(d.take(i - start + 1)[k] == pre[k]);
                }
            }
        }
        proof {
            lemma_saturating_step(
                digits_value(pre, radix as nat),
                acc as nat,
                cap as nat,
                radix as nat,
                dv as nat,
            );
        }
        assert(acc <= cap);
        assert(acc * (radix as u128) <= 0x1_0000_0000_0000_0000u128 * 16) by (nonlinear_arith)
            requires
                acc <= cap,
                cap <= 0x1_0000_0000_0000_0000u128,
                radix <= 16,
        ;
        let next = acc * (radix as u128) + dv;
        acc = if next < cap {
            next
        } else {
            cap
        };
        i = i + 1;
    }
    assert(d.take(i - start) =~= d);
    if acc < cap {
        Some(acc as u64)
    } else {
        None
    }
}


// ---------------------------------------------------------------------------
// Searching
// ---------------------------------------------------------------------------

/// Number of leading characters of `s` that differ from `c`; the position
/// of the first `c`, or the length of `s` when there is none.
pub open spec fn until_char(s: Seq<char>, c: char) -> nat
    decreases s.len(),
{
    if s.len() > 0 && s[0] != c {
        1 + until_char(s.drop_first(), c)
    } else {
        0
    }
}

/// Position of the first `c` in `v`, or its length.
pub fn find_char(v: &[char], c: char) -> (r: usize)
    ensures
        r as nat == until_char(v@, c),
        r <= v@.len(),
        r < v@.len() ==> v@[r as int] == c,
        forall|k: int| 0 <= k < r ==> v@[k] != c,
{
    let mut i: usize = 0;
    assert(v@.skip(0) =~= v@);
    while i < v.len() && v[i] != c
        invariant
            i <= v@.len(),
            until_char(v@, c) == i + until_char(v@.skip(i as int), c),
            forall|k: int| 0 <= k < i ==> v@[k] != c,
        decreases v@.len() - i,
    {
        assert(v@.skip(i as int).drop_first() =~= v@.skip(i + 1));
        i = i + 1;
    }
    i
}

/// Whether `pat` occurs in `v` starting at position `i`.
pub fn matches_at(v: &[char], i: usize, pat: &[char]) -> (r: bool)
    requires
        i <= v@.len(),
    ensures
        r == (i + pat@.len() <= v@.len() && v@.subrange(i as int, i + pat@.len()) == pat@),
{
    let n = v.len();
    if pat.len() > n - i {
        return false;
    }
    let mut j: usize = 0;
    while j < pat.len()
        invariant
            n == v@.len(),
            j <= pat@.len(),
            i <= v@.len(),
            i + pat@.len() <= v@.len(),
            forall|k: int| 0 <= k < j ==> v@[i + k] == pat@[k],
        decreases pat@.len() - j,
    {
        if v[i + j] != pat[j] {
            assert(v@.subrange(i as int, i + pat@.len())[j as int] != pat@[j as int]);
            return false;
        }
        j = j + 1;
    }
    assert(v@.subrange(i as int, i + pat@.len()) =~= pat@);
    true
}

/// Whether `pat` occurs anywhere in `s`.
pub open spec fn contains_seq(s: Seq<char>, pat: Seq<char>) -> bool {
    exists|i: int| 0 <= i && i + pat.len() <= s.len() && #[trigger] s.subrange(i, i + pat.len()) == pat
}

/// Whether `pat` occurs anywhere in `v`, as `str::contains` decides it.
pub fn contains_chars(v: &[char], pat: &[char]) -> (r: bool)
    ensures
        r == contains_seq(v@, pat@),
{
    let mut i: usize = 0;
    while i < v.len()
        invariant
            i <= v@.len(),
            forall|k: int|
                0 <= k < i ==> !(k + pat@.len() <= v@.len() && #[trigger] v@.subrange(
                    k,
                    k + pat@.len(),
                ) == pat@),
        decreases v@.len() - i,
    {
        if matches_at(v, i, pat) {
            return true;
        }
        i = i + 1;
    }
    if matches_at(v, i, pat) {
        return true;
    }
    assert(!contains_seq(v@, pat@)) by {
        assert forall|k: int|
            0 <= k && k + pat@.len() <= v@.len() implies #[trigger] v@.subrange(
            k,
            k + pat@.len(),
        ) != pat@ by {
            assert(k <= i);
        }
    }
    false
}

/// Whether `s` begins with `pat`.
pub open spec fn starts_with(s: Seq<char>, pat: Seq<char>) -> bool {
    pat.len() <= s.len() && s.take(pat.len() as int) == pat
}


// ---------------------------------------------------------------------------
// Removing a pattern
// ---------------------------------------------------------------------------

/// `s` with every occurrence of the non-empty `pat` removed, scanning left
/// to right as `str::replace(pat, "")` does.
pub open spec fn remove_all(s: Seq<char>, pat: Seq<char>) -> Seq<char>
    decreases s.len(),
{
    if s.len() == 0 {
        s
    } else if pat.len() > 0 && starts_with(s, pat) {
        remove_all(s.skip(pat.len() as int), pat)
    } else {
        seq![s[0]] + remove_all(s.drop_first(), pat)
    }
}

/// `v` with every occurrence of the non-empty `pat` removed.
pub fn remove_all_chars(v: &[char], pat: &[char]) -> (r: Vec<char>)
    requires
        pat@.len() > 0,
    ensures
        r@ == remove_all(v@, pat@),
{
    let mut out: Vec<char> = Vec::new();
    let mut i: usize = 0;
    assert(v@.skip(0) =~= v@);
    assert(out@ + remove_all(v@.skip(0), pat@) =~= remove_all(v@, pat@));
    while i < v.len()
        invariant
            i <= v@.len(),
            pat@.len() > 0,
            remove_all(v@, pat@) == out@ + remove_all(v@.skip(i as int), pat@),
        decreases v@.len() - i,
    {
        let ghost rest = v@.skip(i as int);
        if matches_at(v, i, pat) {
            assert(rest.take(pat@.len() as int) =~= v@.subrange(i as int, i + pat@.len()));
            assert(rest.skip(pat@.len() as int) =~= v@.skip(i + pat@.len()));
            i = i + pat.len();
        } else {
            assert(!starts_with(rest, pat@)) by {
                if pat@.len() <= rest.len() {
                    assert(rest.take(pat@.len() as int) =~= v@.subrange(
                        i as int,
                        i + pat@.len(),
                    ));
                }
            }
            assert(rest.drop_first() =~= v@.skip(i + 1));
            let ghost o = out@;
            out.push(v[i]);
            assert(o + (seq![v@[i as int]] + remove_all(v@.skip(i + 1), pat@)) =~= out@
                + remove_all(v@.skip(i + 1), pat@));
            i = i + 1;
        }
    }
    assert(v@.skip(i as int) =~= Seq::<char>::empty());
    assert(out@ + Seq::<char>::empty() =~= out@);
    out
}


/// Whether `w` is one of `list`.
pub fn contains_word(list: &[Vec<char>], w: &[char]) -> (r: bool)
    ensures
        r == list.deep_view().contains(w@),
{
    let mut i: usize = 0;
    while i < list.len()
        invariant
            i <= list@.len(),
            forall|k: int| 0 <= k < i ==> list.deep_view()[k] != w@,
        decreases list@.len() - i,
    {
        proof {
            lemma_chars_deep_view(list@[i as int]);
        }
        if chars_eq(&list[i], w) {
            assert(list.deep_view()[i as int] == w@);
            return true;
        }
        i = i + 1;
    }
    false
}


/// Whether two string slices hold the same characters.
pub fn same_text(a: &str, b: &str) -> (r: bool)
    ensures
        r == (a@ == b@),
{
    let x = chars_of(a);
    let y = chars_of(b);
    chars_eq(&x, &y)
}

/// `a` then `b`.
pub fn concat2(a: &str, b: &str) -> (r: String)
    ensures
        r@ == a@ + b@,
{
    let mut s = String::from_str(a);
    s.append(b);
    s
}

/// `a`, `b` and `c` one after another.
pub fn concat3(a: &str, b: &str, c: &str) -> (r: String)
    ensures
        r@ == a@ + b@ + c@,
{
    let mut s = String::from_str(a);
    s.append(b);
    s.append(c);
    s
}

} // verus!
