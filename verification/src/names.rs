//! User-given device names, keyed by device id (MAC address, or frequency in
//! Hz for Sub-GHz signals), with their JSON form for persistence.

use std::collections::BTreeMap;
use vstd::prelude::*;

use crate::oui::opt_str;

verus! {

/// The name table a list of `(id, name)` entries describes.
pub open spec fn pair_map(es: Seq<(String, String)>) -> Map<Seq<char>, Seq<char>>
    decreases es.len(),
{
    if es.len() == 0 {
        Map::empty()
    } else {
        pair_map(es.drop_last()).insert(es.last().0@, es.last().1@)
    }
}

/// No id occurs twice.
pub open spec fn unique_ids(es: Seq<(String, String)>) -> bool {
    forall|i: int, j: int|
        0 <= i < j < es.len() ==> (#[trigger] es[i]).0@ != (#[trigger] es[j]).0@
}

/// What `serde_json::from_str` gives for a JSON object of strings: the
/// table it describes, or `None` when the text is not such an object.
pub uninterp spec fn json_string_map(text: Seq<char>) -> Option<Map<Seq<char>, Seq<char>>>;

/// What `serde_json::to_string_pretty` writes for a table of strings.
pub uninterp spec fn json_of_string_map(m: Map<Seq<char>, Seq<char>>) -> Seq<char>;

/// Reads a JSON object of strings with `serde_json::from_str` into a
/// `BTreeMap`, then lists its entries. The contract claims that the result
/// is present exactly when the parse succeeds, holds each id once, and
/// describes the parsed table.
#[verifier::external_body]
fn parse_json_names(text: &str) -> (r: Option<Vec<(String, String)>>)
    ensures
        r is Some <==> json_string_map(text@) is Some,
        r matches Some(v) ==> unique_ids(v@) && pair_map(v@) == json_string_map(text@)->0,
{
    match serde_json::from_str::<BTreeMap<String, String>>(text) {
        Ok(m) => Some(m.into_iter().collect()),
        Err(_) => None,
    }
}

/// Writes the table of `entries` (each id once) with
/// `serde_json::to_string_pretty`. The contract claims that serialising
/// succeeds and gives the JSON text of that table: serde_json fails only when
/// a `Serialize` impl fails or a map has keys that are not strings, and this
/// map has string keys and string values, written into memory. It also
/// claims that `serde_json::from_str` reads that text back as the same
/// table: the writer escapes each string so that the reader gives back its
/// characters, and the keys are distinct.
#[verifier::external_body]
fn write_json_names(entries: &Vec<(String, String)>) -> (r: Option<String>)
    requires
        unique_ids(entries@),
    ensures
        r is Some,
        r matches Some(s) ==> s@ == json_of_string_map(pair_map(entries@)),
        r matches Some(s) ==> json_string_map(s@) == Some(pair_map(entries@)),
{
    let m: BTreeMap<&String, &String> = entries.iter().map(|e| (&e.0, &e.1)).collect();
    serde_json::to_string_pretty(&m).ok()
}

/// The name the table `m` gives to `id`.
pub open spec fn name_of(m: Map<Seq<char>, Seq<char>>, id: Seq<char>) -> Option<Seq<char>> {
    if m.contains_key(id) {
        Some(m[id])
    } else {
        None
    }
}

/// Custom device names.
pub struct NameStore {
    names: Vec<(String, String)>,
}

impl View for NameStore {
    type V = Map<Seq<char>, Seq<char>>;

    closed spec fn view(&self) -> Map<Seq<char>, Seq<char>> {
        pair_map(self.names@)
    }
}

proof fn lemma_pair_map_dom(es: Seq<(String, String)>, k: Seq<char>)
    ensures
        pair_map(es).contains_key(k) <==> exists|i: int| 0 <= i < es.len() && (#[trigger] es[i]).0@ == k,
    decreases es.len(),
{
    if es.len() > 0 {
        lemma_pair_map_dom(es.drop_last(), k);
        if pair_map(es.drop_last()).contains_key(k) {
            let i = choose|i: int| 0 <= i < es.drop_last().len() && (#[trigger] es.drop_last()[i]).0@ == k;
            assert(es[i] == es.drop_last()[i]);
        }
        if exists|i: int| 0 <= i < es.len() && (#[trigger] es[i]).0@ == k {
            let i = choose|i: int| 0 <= i < es.len() && (#[trigger] es[i]).0@ == k;
            if i < es.len() - 1 {
                assert(es.drop_last()[i] == es[i]);
            }
        }
    }
}

proof fn lemma_pair_map_at(es: Seq<(String, String)>, i: int)
    requires
        unique_ids(es),
        0 <= i < es.len(),
    ensures
        pair_map(es).contains_key(es[i].0@),
        pair_map(es)[es[i].0@] == es[i].1@,
    decreases es.len(),
{
    let d = es.drop_last();
    if i < es.len() - 1 {
        assert(d[i] == es[i]);
        assert(unique_ids(d)) by {
            assert forall|a: int, b: int| 0 <= a < b < d.len() implies (#[trigger] d[a]).0@
                != (#[trigger] d[b]).0@ by {
                assert(d[a] == es[a] && d[b] == es[b]);
            }
        }
        lemma_pair_map_at(d, i);
        assert(es[i].0@ != es.last().0@);
    }
}

impl NameStore {
    #[verifier::type_invariant]
    spec fn ids_unique(self) -> bool {
        unique_ids(self.names@)
    }

    /// An empty table.
    pub fn new() -> (r: Self)
        ensures
            r@ == Map::<Seq<char>, Seq<char>>::empty(),
    {
        NameStore { names: Vec::new() }
    }

    /// The table stored in the JSON text `text`; an empty table when the
    /// text is not a JSON object of strings.
    pub fn from_json(text: &str) -> (r: Self)
        ensures
            r@ == match json_string_map(text@) {
                Some(m) => m,
                None => Map::empty(),
            },
    {
        match parse_json_names(text) {
            Some(v) => NameStore { names: v },
            None => NameStore { names: Vec::new() },
        }
    }

    /// The JSON text of the table, for the names file; reading it back with
    /// [`NameStore::from_json`] gives the same table.
    pub fn to_json(&self) -> (r: Option<String>)
        ensures
            r matches Some(s) && s@ == json_of_string_map(self@),
            r matches Some(s) && json_string_map(s@) == Some(self@),
    {
        proof {
            use_type_invariant(self);
        }
        write_json_names(&self.names)
    }

    fn position(&self, id: &str) -> (r: Option<usize>)
        ensures
            match r {
                Some(i) => i < self.names@.len() && self.names@[i as int].0@ == id@,
                None => forall|i: int| 0 <= i < self.names@.len() ==> (#[trigger] self.names@[i]).0@ != id@,
            },
    {
        let key = String::from_str(id);
        let mut i: usize = 0;
        while i < self.names.len()
            invariant
                i <= self.names@.len(),
                key@ == id@,
                forall|k: int| 0 <= k < i ==> (#[trigger] self.names@[k]).0@ != id@,
            decreases self.names@.len() - i,
        {
            if self.names[i].0 == key {
                return Some(i);
            }
            i = i + 1;
        }
        None
    }

    /// The name given to `id`.
    pub fn get(&self, id: &str) -> (r: Option<&str>)
        ensures
            opt_str(r) == name_of(self@, id@),
    {
        proof {
            use_type_invariant(self);
            lemma_pair_map_dom(self.names@, id@);
        }
        match self.position(id) {
            Some(i) => {
                proof {
                    lemma_pair_map_at(self.names@, i as int);
                }
                Some(self.names[i].1.as_str())
            },
            None => None,
        }
    }

    fn without(names: &Vec<(String, String)>, id: &str) -> (r: Vec<(String, String)>)
        requires
            unique_ids(names@),
        ensures
            unique_ids(r@),
            pair_map(r@) == pair_map(names@).remove(id@),
            forall|i: int| 0 <= i < r@.len() ==> (#[trigger] r@[i]).0@ != id@,
    {
        let key = String::from_str(id);
        let mut out: Vec<(String, String)> = Vec::new();
        let mut i: usize = 0;
        while i < names.len()
            invariant
                i <= names@.len(),
                key@ == id@,
                unique_ids(names@),
                unique_ids(out@),
                forall|k: int| 0 <= k < out@.len() ==> (#[trigger] out@[k]).0@ != id@,
                forall|k: int|
                    0 <= k < out@.len() ==> exists|j: int|
                        0 <= j < i && (#[trigger] out@[k]).0@ == (#[trigger] names@[j]).0@,
                pair_map(out@) == pair_map(names@.take(i as int)).remove(id@),
            decreases names@.len() - i,
        {
            let ghost prev = names@.take(i as int);
            assert(names@.take(i + 1).drop_last() =~= prev);
            let e = &names[i];
            if e.0 == key {
                assert(pair_map(names@.take(i + 1)).remove(id@) =~= pair_map(prev).remove(id@));
            } else {
                let ghost o = out@;
                let copy = (e.0.clone(), e.1.clone());
                out.push(copy);
                assert(out@.drop_last() =~= o);
                assert(pair_map(out@) =~= pair_map(names@.take(i + 1)).remove(id@));
                assert forall|a: int, b: int| 0 <= a < b < out@.len() implies (#[trigger] out@[a]).0@
                    != (#[trigger] out@[b]).0@ by {
                    if b == out@.len() - 1 {
                        assert(out@[b] == copy);
                        let j = choose|j: int| 0 <= j < i && (#[trigger] o[a]).0@ == (#[trigger] names@[j]).0@;
                        assert(o[a] == out@[a]);
                    } else {
                        assert(o[a] == out@[a] && o[b] == out@[b]);
                    }
                }
                assert forall|k: int| 0 <= k < out@.len() implies exists|j: int|
                    0 <= j < i + 1 && (#[trigger] out@[k]).0@ == (#[trigger] names@[j]).0@ by {
                    if k == out@.len() - 1 {
                        assert(out@[k].0@ == names@[i as int].0@);
                    } else {
                        assert(o[k] == out@[k]);
                        let j = choose|j: int| 0 <= j < i && (#[trigger] o[k]).0@ == (#[trigger] names@[j]).0@;
                        assert(out@[k].0@ == names@[j].0@);
                    }
                }
            }
            i = i + 1;
        }
        assert(names@.take(names@.len() as int) =~= names@);
        out
    }

    /// Gives `id` the name `name`, replacing any earlier one.
    pub fn set(&mut self, id: &str, name: &str)
        ensures
            final(self)@ == old(self)@.insert(id@, name@),
    {
        proof {
            use_type_invariant(&*self);
        }
        let mut rest = Self::without(&self.names, id);
        let ghost r0 = rest@;
        rest.push((String::from_str(id), String::from_str(name)));
        assert(rest@.drop_last() =~= r0);
        assert(pair_map(rest@) =~= pair_map(old(self).names@).insert(id@, name@));
        assert(unique_ids(rest@)) by {
            assert forall|a: int, b: int| 0 <= a < b < rest@.len() implies (#[trigger] rest@[a]).0@
                != (#[trigger] rest@[b]).0@ by {
                assert(rest@[a] == r0[a]);
                if b < rest@.len() - 1 {
                    assert(rest@[b] == r0[b]);
                }
            }
        }
        self.names = rest;
    }

    /// Forgets the name of `id`.
    pub fn remove(&mut self, id: &str)
        ensures
            final(self)@ == old(self)@.remove(id@),
    {
        proof {
            use_type_invariant(&*self);
        }
        let rest = Self::without(&self.names, id);
        self.names = rest;
    }
}

} // verus!
