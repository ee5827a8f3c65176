//! Bluetooth SIG company identifier lookup.

use std::collections::HashMap;
use vstd::prelude::*;

use crate::oui::opt_str;
use crate::text::{
    chars_of, copy_range, find_char, lemma_chars_deep_view, lines, parse_unsigned,
    parse_unsigned_chars, split_lines, string_of, trim, trim_chars, until_char,
};

verus! {

broadcast use vstd::std_specs::hash::group_hash_axioms;

/// A company line `HEXID Name`: the identifier before the first space, in
/// hexadecimal, and the trimmed rest as the name.
pub open spec fn ble_line(t: Seq<char>) -> Option<(u16, Seq<char>)> {
    let sp = until_char(t, ' ');
    if sp == t.len() {
        None
    } else {
        match parse_unsigned(t.take(sp as int), 16, 0xffff) {
            Some(v) => Some((v as u16, trim(t.skip(sp + 1 as int)))),
            None => None,
        }
    }
}

/// The entries of the company list text, one per line that is neither blank
/// nor a `#` comment once trimmed, and that parses.
pub open spec fn ble_entries(ls: Seq<Seq<char>>) -> Seq<(u16, Seq<char>)>
    decreases ls.len(),
{
    if ls.len() == 0 {
        seq![]
    } else {
        let before = ble_entries(ls.drop_last());
        let t = trim(ls.last());
        if t.len() > 0 && t[0] != '#' {
            match ble_line(t) {
                Some(e) => before.push(e),
                None => before,
            }
        } else {
            before
        }
    }
}

/// The table built from `es` when the last entry for an identifier wins.
pub open spec fn last_wins(es: Seq<(u16, Seq<char>)>) -> Map<u16, Seq<char>>
    decreases es.len(),
{
    if es.len() == 0 {
        Map::empty()
    } else {
        last_wins(es.drop_last()).insert(es.last().0, es.last().1)
    }
}

/// Company names by Bluetooth SIG company identifier.
pub struct BleCompanyDb {
    map: HashMap<u16, String>,
}

impl View for BleCompanyDb {
    type V = Map<u16, Seq<char>>;

    closed spec fn view(&self) -> Map<u16, Seq<char>> {
        self.map@.map_values(|s: String| s@)
    }
}

fn parse_company_line(t: &[char]) -> (r: Option<(u16, Vec<char>)>)
    ensures
        match r {
            Some((k, v)) => ble_line(t@) == Some((k, v@)),
            None => ble_line(t@) is None,
        },
{
    let sp = find_char(t, ' ');
    if sp == t.len() {
        return None;
    }
    let id = copy_range(t, 0, sp);
    assert(t@.subrange(0, sp as int) =~= t@.take(sp as int));
    let rest = copy_range(t, sp + 1, t.len());
    assert(t@.subrange(sp + 1, t@.len() as int) =~= t@.skip(sp + 1));
    match parse_unsigned_chars(&id, 16, 0xffff) {
        Some(v) => Some((v as u16, trim_chars(&rest))),
        None => None,
    }
}

impl BleCompanyDb {
    /// Builds the table from the company list text (one `HEXID Name` per
    /// line, `#` comments): a later line for an identifier replaces an
    /// earlier one. `None` when no line gives an entry.
    pub fn load(text: &str) -> (r: Option<Self>)
        ensures
            r is None <==> ble_entries(lines(text@)).len() == 0,
            r matches Some(db) ==> db@ == last_wins(ble_entries(lines(text@))),
    {
        let chars = chars_of(text);
        let ls = split_lines(&chars);
        let ghost lv = ls.deep_view();
        let mut map: HashMap<u16, String> = HashMap::new();
        let mut n: usize = 0;
        let mut i: usize = 0;
        while i < ls.len()
            invariant
                i <= ls@.len(),
                lv == ls.deep_view(),
                map@.map_values(|s: String| s@) == last_wins(ble_entries(lv.take(i as int))),
                (n == 0) == (ble_entries(lv.take(i as int)).len() == 0),
            decreases ls@.len() - i,
        {
            let ghost prev = lv.take(i as int);
            assert(lv.take(i + 1).drop_last() =~= prev);
            proof {
                lemma_chars_deep_view(ls@[i as int]);
            }
            assert(lv.take(i + 1).last() == ls@[i as int]@);
            let t = trim_chars(&ls[i]);
            if t.len() > 0 && t[0] != '#' {
                match parse_company_line(&t) {
                    Some((k, v)) => {
                        let ghost m0 = map@;
                        assert(ble_entries(lv.take(i + 1)) == ble_entries(prev).push((k, v@)));
                        assert(ble_entries(prev).push((k, v@)).drop_last() =~= ble_entries(prev));
                        map.insert(k, string_of(&v));
                        assert(map@.map_values(|s: String| s@) =~= m0.map_values(
                            |s: String| s@,
                        ).insert(k, v@));
                        n = 1;
                    },
                    None => {
                        assert(ble_entries(lv.take(i + 1)) == ble_entries(prev));
                    },
                }
            } else {
                assert(ble_entries(lv.take(i + 1)) == ble_entries(prev));
            }
            i = i + 1;
        }
        assert(lv.take(ls@.len() as int) =~= lv);
        if n == 0 {
            None
        } else {
            Some(BleCompanyDb { map })
        }
    }

    /// The company registered under `id`.
    pub fn lookup(&self, id: u16) -> (r: Option<&str>)
        ensures
            opt_str(r) == (if self@.contains_key(id) {
                Some(self@[id])
            } else {
                None
            }),
    {
        match self.map.get(&id) {
            Some(s) => Some(s.as_str()),
            None => None,
        }
    }
}

} // verus!
