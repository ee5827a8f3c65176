//! Terminal-cell-aware padding.

use unicode_width::UnicodeWidthChar;
use vstd::prelude::*;

verus! {

/// The number of terminal cells `unicode-width` gives a character
/// (`None` for control characters).
pub uninterp spec fn unicode_cells(c: char) -> Option<usize>;

/// `UnicodeWidthChar::width` of `c`. The contract names the result and
/// states what the crate's table lookup does below U+00A0: printable ASCII
/// (U+0020 to U+007E) is one column, the C0 and C1 control codes have no
/// width.
#[verifier::external_body]
fn char_width(c: char) -> (r: Option<usize>)
    ensures
        r == unicode_cells(c),
        0x20 <= (c as u32) < 0x7f ==> r == Some(1usize),
        (c as u32) < 0x20 || (0x7f <= (c as u32) < 0xa0) ==> r is None,
{
    c.width()
}

/// Cells taken by `c` when it is drawn: one for printable ASCII, none for
/// control characters, else what `unicode-width` gives.
pub open spec fn cell_width(c: char) -> nat {
    if 0x20 <= (c as u32) < 0x7f {
        1
    } else if (c as u32) < 0xa0 {
        0
    } else {
        match unicode_cells(c) {
            Some(w) => w as nat,
            None => 0,
        }
    }
}

/// The longest prefix of `s` that fits in `width` cells, stopping at the
/// first character that would overflow.
pub open spec fn fitting_prefix(s: Seq<char>, width: nat) -> Seq<char>
    decreases s.len(),
{
    if s.len() == 0 || cell_width(s[0]) > width {
        seq![]
    } else {
        seq![s[0]] + fitting_prefix(s.drop_first(), (width - cell_width(s[0])) as nat)
    }
}

/// Cells taken by `s`.
pub open spec fn cells_of(s: Seq<char>) -> nat
    decreases s.len(),
{
    if s.len() == 0 {
        0
    } else {
        cell_width(s[0]) + cells_of(s.drop_first())
    }
}

/// `n` spaces.
pub open spec fn spaces(n: nat) -> Seq<char> {
    Seq::new(n, |i: int| ' ')
}

/// Cells add up over concatenation.
pub proof fn lemma_cells_concat(a: Seq<char>, b: Seq<char>)
    ensures
        cells_of(a + b) == cells_of(a) + cells_of(b),
    decreases a.len(),
{
    if a.len() == 0 {
        assert(a + b =~= b);
    } else {
        lemma_cells_concat(a.drop_first(), b);
        assert((a + b).drop_first() =~= a.drop_first() + b);
        assert((a + b)[0] == a[0]);
    }
}

/// `n` spaces take `n` cells.
pub proof fn lemma_cells_spaces(n: nat)
    ensures
        cells_of(spaces(n)) == n,
    decreases n,
{
    if n > 0 {
        lemma_cells_spaces((n - 1) as nat);
        assert(spaces(n).drop_first() =~= spaces((n - 1) as nat));
        assert(spaces(n)[0] == ' ');
    }
}

/// `s` cut or padded to exactly `width` cells.
pub open spec fn fixed(s: Seq<char>, width: nat) -> Seq<char> {
    let p = fitting_prefix(s, width);
    p + spaces((width - cells_of(p)) as nat)
}

pub proof fn lemma_fitting_prefix_fits(s: Seq<char>, width: nat)
    ensures
        cells_of(fitting_prefix(s, width)) <= width,
    decreases s.len(),
{
    if s.len() > 0 && cell_width(s[0]) <= width {
        let w2 = (width - cell_width(s[0])) as nat;
        lemma_fitting_prefix_fits(s.drop_first(), w2);
        let p = fitting_prefix(s, width);
        assert(p.drop_first() =~= fitting_prefix(s.drop_first(), w2));
    }
}

proof fn lemma_fitting_step(done: Seq<char>, rest: Seq<char>, width: nat)
    requires
        cells_of(done) <= width,
        rest.len() > 0,
        cell_width(rest[0]) <= width - cells_of(done),
    ensures
        done + fitting_prefix(rest, (width - cells_of(done)) as nat) == done.push(rest[0])
            + fitting_prefix(rest.drop_first(), (width - cells_of(done.push(rest[0]))) as nat),
        cells_of(done.push(rest[0])) == cells_of(done) + cell_width(rest[0]),
{
    lemma_cells_push(done, rest[0]);
    let w = (width - cells_of(done)) as nat;
    assert(fitting_prefix(rest, w) == seq![rest[0]] + fitting_prefix(
        rest.drop_first(),
        (w - cell_width(rest[0])) as nat,
    ));
    assert(done + (seq![rest[0]] + fitting_prefix(rest.drop_first(), (w - cell_width(rest[0])) as nat))
        =~= done.push(rest[0]) + fitting_prefix(rest.drop_first(), (w - cell_width(rest[0])) as nat));
}

proof fn lemma_cells_push(s: Seq<char>, c: char)
    ensures
        cells_of(s.push(c)) == cells_of(s) + cell_width(c),
    decreases s.len(),
{
    if s.len() == 0 {
        assert(s.push(c).drop_first() =~= Seq::<char>::empty());
        assert(s.push(c)[0] == c);
        assert(cells_of(s.push(c).drop_first()) == 0);
    } else {
        lemma_cells_push(s.drop_first(), c);
        assert(s.push(c).drop_first() =~= s.drop_first().push(c));
        assert(s.push(c)[0] == s[0]);
    }
}

/// Exactly `width` terminal cells of `s`: cut when wider, right-padded with
/// spaces when narrower. Counts display cells, so wide glyphs take their
/// columns and no character is split.
pub fn fixed_width(s: &str, width: usize) -> (r: String)
    ensures
        r@ == fixed(s@, width as nat),
{
    let chars = crate::text::chars_of(s);
    let mut out = String::new();
    let mut cells: usize = 0;
    let mut i: usize = 0;
    assert(chars@.skip(0) =~= chars@);
    assert(out@ + fitting_prefix(chars@.skip(0), width as nat) =~= fitting_prefix(s@, width as nat));
    while i < chars.len()
        invariant
            i <= chars@.len(),
            chars@ == s@,
            cells as nat == cells_of(out@),
            cells <= width,
            out@ + fitting_prefix(chars@.skip(i as int), (width - cells) as nat) == fitting_prefix(
                s@,
                width as nat,
            ),
        ensures
            cells as nat == cells_of(out@),
            cells <= width,
            out@ == fitting_prefix(s@, width as nat),
        decreases chars@.len() - i,
    {
        let c = chars[i];
        proof {
            if i + 1 == chars@.len() {
                assert(chars@.skip(i + 1) =~= Seq::<char>::empty());
            }
        }
        let w = match char_width(c) {
            Some(w) => w,
            None => 0,
        };
        assert(chars@.skip(i as int)[0] == c);
        if w > width - cells {
            assert(fitting_prefix(chars@.skip(i as int), (width - cells) as nat) =~= Seq::<
                char,
            >::empty());
            assert(out@ + Seq::<char>::empty() =~= out@);
            break;
        }
        proof {
            lemma_fitting_step(out@, chars@.skip(i as int), width as nat);
            assert(chars@.skip(i as int).drop_first() =~= chars@.skip(i + 1));
        }
        out.push(c);
        cells = cells + w;
        i = i + 1;
    }
    let ghost p = out@;
    let mut k = cells;
    while k < width
        invariant
            cells <= k <= width,
            out@ == p + spaces((k - cells) as nat),
        decreases width - k,
    {
        out.push(' ');
        assert(spaces((k - cells) as nat).push(' ') =~= spaces((k + 1 - cells) as nat));
        assert(p + spaces((k - cells) as nat).push(' ') =~= (p + spaces((k - cells) as nat)).push(' '));
        k = k + 1;
    }
    out
}

} // verus!
