//! A table of tracked devices, each under its own id.

use vstd::prelude::*;

verus! {

/// A tracked device: its id and when it was last heard.
pub trait Keyed {
    /// The id the device is tracked under.
    spec fn key(&self) -> Seq<char>;

    /// When the device was last heard, in milliseconds.
    spec fn seen_at(&self) -> u64;

    fn has_key(&self, k: &str) -> (r: bool)
        ensures
            r == (self.key() == k@),
    ;

    fn last_seen_ms(&self) -> (r: u64)
        ensures
            r == self.seen_at(),
    ;

    fn same_key(&self, other: &Self) -> (r: bool)
        ensures
            r == (self.key() == other.key()),
    ;
}

/// The table described by `s`: each entry under its id.
pub open spec fn table_map<D: Keyed>(s: Seq<D>) -> Map<Seq<char>, D>
    decreases s.len(),
{
    if s.len() == 0 {
        Map::empty()
    } else {
        table_map(s.drop_last()).insert(s.last().key(), s.last())
    }
}

/// No id occurs twice in `s`.
pub open spec fn unique_keys<D: Keyed>(s: Seq<D>) -> bool {
    forall|i: int, j: int| 0 <= i < j < s.len() ==> (#[trigger] s[i]).key() != (#[trigger] s[j]).key()
}

pub proof fn lemma_table_dom<D: Keyed>(s: Seq<D>, k: Seq<char>)
    ensures
        table_map(s).contains_key(k) <==> exists|i: int| 0 <= i < s.len() && (#[trigger] s[i]).key() == k,
    decreases s.len(),
{
    if s.len() > 0 {
        lemma_table_dom(s.drop_last(), k);
        if table_map(s.drop_last()).contains_key(k) {
            let i = choose|i: int| 0 <= i < s.drop_last().len() && (#[trigger] s.drop_last()[i]).key() == k;
            assert(s[i] == s.drop_last()[i]);
        }
        if exists|i: int| 0 <= i < s.len() && (#[trigger] s[i]).key() == k {
            let i = choose|i: int| 0 <= i < s.len() && (#[trigger] s[i]).key() == k;
            if i < s.len() - 1 {
                assert(s.drop_last()[i] == s[i]);
            }
        }
    }
}

pub proof fn lemma_table_at<D: Keyed>(s: Seq<D>, i: int)
    requires
        unique_keys(s),
        0 <= i < s.len(),
    ensures
        table_map(s).contains_key(s[i].key()),
        table_map(s)[s[i].key()] == s[i],
    decreases s.len(),
{
    let d = s.drop_last();
    if i < s.len() - 1 {
        assert(d[i] == s[i]);
        assert(unique_keys(d)) by {
            assert forall|a: int, b: int| 0 <= a < b < d.len() implies (#[trigger] d[a]).key()
                != (#[trigger] d[b]).key() by {
                assert(d[a] == s[a] && d[b] == s[b]);
            }
        }
        lemma_table_at(d, i);
    }
}

/// `table_map(s)` is `m` when `s` lists exactly the entries of `m`.
pub proof fn lemma_table_is<D: Keyed>(s: Seq<D>, m: Map<Seq<char>, D>)
    requires
        unique_keys(s),
        forall|i: int| 0 <= i < s.len() ==> m.contains_key((#[trigger] s[i]).key()) && m[s[i].key()] == s[i],
        forall|k: Seq<char>| #[trigger] m.contains_key(k) ==> exists|i: int| 0 <= i < s.len() && (#[trigger] s[i]).key() == k,
    ensures
        table_map(s) == m,
{
    assert forall|k: Seq<char>| #[trigger] table_map(s).contains_key(k) == m.contains_key(k) by {
        lemma_table_dom(s, k);
    }
    assert forall|k: Seq<char>| #[trigger] table_map(s).contains_key(k) implies table_map(s)[k] == m[k] by {
        lemma_table_dom(s, k);
        let i = choose|i: int| 0 <= i < s.len() && (#[trigger] s[i]).key() == k;
        lemma_table_at(s, i);
    }
    assert(table_map(s) =~= m);
}

/// Devices by id, each id at most once, in the order they were first heard.
pub struct Table<D: Keyed> {
    entries: Vec<D>,
}

impl<D: Keyed> Table<D> {
    #[verifier::type_invariant]
    spec fn ids_unique(self) -> bool {
        unique_keys(self.entries@)
    }

    /// The entries, in table order.
    pub closed spec fn items(&self) -> Seq<D> {
        self.entries@
    }

    /// The devices by id.
    pub open spec fn map(&self) -> Map<Seq<char>, D> {
        table_map(self.items())
    }

    /// An empty table.
    pub fn new() -> (r: Self)
        ensures
            r.map() == Map::<Seq<char>, D>::empty(),
            r.items().len() == 0,
    {
        Table { entries: Vec::new() }
    }

    /// The entries, in table order.
    pub fn values(&self) -> (r: &Vec<D>)
        ensures
            r@ == self.items(),
            unique_keys(self.items()),
            forall|i: int|
                0 <= i < self.items().len() ==> self.map().contains_key(
                    (#[trigger] self.items()[i]).key(),
                ) && self.map()[self.items()[i].key()] == self.items()[i],
            forall|k: Seq<char>|
                #[trigger] self.map().contains_key(k) ==> exists|i: int|
                    0 <= i < self.items().len() && (#[trigger] self.items()[i]).key() == k,
    {
        proof {
            use_type_invariant(self);
            assert forall|i: int| 0 <= i < self.items().len() implies self.map().contains_key(
                (#[trigger] self.items()[i]).key(),
            ) && self.map()[self.items()[i].key()] == self.items()[i] by {
                lemma_table_at(self.items(), i);
            }
            assert forall|k: Seq<char>| #[trigger] self.map().contains_key(k) implies exists|i: int|
                0 <= i < self.items().len() && (#[trigger] self.items()[i]).key() == k by {
                lemma_table_dom(self.items(), k);
            }
        }
        &self.entries
    }

    /// Number of devices.
    pub fn len(&self) -> (r: usize)
        ensures
            r == self.items().len(),
    {
        self.entries.len()
    }

    /// Where the device `k` stands.
    pub fn position(&self, k: &str) -> (r: Option<usize>)
        ensures
            match r {
                Some(i) => i < self.items().len() && self.items()[i as int].key() == k@,
                None => !self.map().contains_key(k@),
            },
    {
        proof {
            lemma_table_dom(self.items(), k@);
        }
        let mut i: usize = 0;
        while i < self.entries.len()
            invariant
                i <= self.entries@.len(),
                forall|j: int| 0 <= j < i ==> (#[trigger] self.entries@[j]).key() != k@,
            decreases self.entries@.len() - i,
        {
            if self.entries[i].has_key(k) {
                return Some(i);
            }
            i = i + 1;
        }
        None
    }

    /// The device `k`.
    pub fn get(&self, k: &str) -> (r: Option<&D>)
        ensures
            match r {
                Some(d) => self.map().contains_key(k@) && *d == self.map()[k@],
                None => !self.map().contains_key(k@),
            },
    {
        proof {
            use_type_invariant(self);
        }
        match self.position(k) {
            Some(i) => {
                proof {
                    lemma_table_at(self.items(), i as int);
                }
                Some(&self.entries[i])
            },
            None => None,
        }
    }

    /// Takes the device at position `i` out of the table.
    pub fn remove_at(&mut self, i: usize) -> (r: D)
        requires
            i < old(self).items().len(),
        ensures
            r == old(self).items()[i as int],
            old(self).map().contains_key(r.key()),
            old(self).map()[r.key()] == r,
            final(self).map() == old(self).map().remove(r.key()),
            final(self).items() == old(self).items().remove(i as int),
    {
        proof {
            use_type_invariant(&*self);
        }
        let ghost s = self.entries@;
        let ghost k = s[i as int].key();
        let ghost t = s.remove(i as int);
        proof {
            lemma_table_at(s, i as int);
            assert forall|a: int, b: int| 0 <= a < b < t.len() implies (#[trigger] t[a]).key()
                != (#[trigger] t[b]).key() by {
                let a2 = if a < i { a } else { a + 1 };
                let b2 = if b < i { b } else { b + 1 };
                assert(t[a] == s[a2] && t[b] == s[b2]);
            }
            let m = table_map(s).remove(k);
            assert forall|j: int| 0 <= j < t.len() implies m.contains_key((#[trigger] t[j]).key())
                && m[t[j].key()] == t[j] by {
                let j2 = if j < i { j } else { j + 1 };
                assert(t[j] == s[j2]);
                lemma_table_at(s, j2);
            }
            assert forall|kk: Seq<char>| #[trigger] m.contains_key(kk) implies exists|j: int|
                0 <= j < t.len() && (#[trigger] t[j]).key() == kk by {
                lemma_table_dom(s, kk);
                let j2 = choose|j: int| 0 <= j < s.len() && (#[trigger] s[j]).key() == kk;
                let j = if j2 < i { j2 } else { j2 - 1 };
                assert(t[j] == s[j2]);
            }
            lemma_table_is(t, m);
        }
        let mut v: Vec<D> = Vec::new();
        std::mem::swap(&mut v, &mut self.entries);
        let d = v.remove(i);
        self.entries = v;
        d
    }

    /// Puts `d` into the table under its id, after the devices already in it.
    pub fn put(&mut self, d: D)
        requires
            !old(self).map().contains_key(d.key()),
        ensures
            final(self).map() == old(self).map().insert(d.key(), d),
            final(self).items() == old(self).items().push(d),
    {
        proof {
            use_type_invariant(&*self);
            lemma_table_dom(self.entries@, d.key());
        }
        let ghost s = self.entries@;
        proof {
            let t = s.push(d);
            assert(t.drop_last() =~= s);
            assert forall|a: int, b: int| 0 <= a < b < t.len() implies (#[trigger] t[a]).key()
                != (#[trigger] t[b]).key() by {
                if b == t.len() - 1 {
                    assert(t[a] == s[a]);
                } else {
                    assert(t[a] == s[a] && t[b] == s[b]);
                }
            }
        }
        let mut v: Vec<D> = Vec::new();
        std::mem::swap(&mut v, &mut self.entries);
        v.push(d);
        self.entries = v;
    }

    /// Puts `d` at position `i`; its id must be new to the table.
    pub fn put_at(&mut self, i: usize, d: D)
        requires
            i <= old(self).items().len(),
            !old(self).map().contains_key(d.key()),
        ensures
            final(self).map() == old(self).map().insert(d.key(), d),
            final(self).items() == old(self).items().insert(i as int, d),
    {
        proof {
            use_type_invariant(&*self);
            lemma_table_dom(self.entries@, d.key());
        }
        let ghost s = self.entries@;
        let ghost t = s.insert(i as int, d);
        proof {
            assert forall|a: int, b: int| 0 <= a < b < t.len() implies (#[trigger] t[a]).key()
                != (#[trigger] t[b]).key() by {
                if a == i {
                    let b2 = b - 1;
                    assert(t[b] == s[b2]);
                } else if b == i {
                    assert(t[a] == s[a]);
                } else {
                    let a2 = if a < i { a } else { a - 1 };
                    let b2 = if b < i { b } else { b - 1 };
                    assert(t[a] == s[a2] && t[b] == s[b2]);
                }
            }
            let m = table_map(s).insert(d.key(), d);
            assert forall|j: int| 0 <= j < t.len() implies m.contains_key((#[trigger] t[j]).key())
                && m[t[j].key()] == t[j] by {
                if j != i {
                    let j2 = if j < i { j } else { j - 1 };
                    assert(t[j] == s[j2]);
                    lemma_table_at(s, j2);
                }
            }
            assert forall|kk: Seq<char>| #[trigger] m.contains_key(kk) implies exists|j: int|
                0 <= j < t.len() && (#[trigger] t[j]).key() == kk by {
                if kk == d.key() {
                    assert(t[i as int] == d);
                } else {
                    lemma_table_dom(s, kk);
                    let j2 = choose|j: int| 0 <= j < s.len() && (#[trigger] s[j]).key() == kk;
                    let j = if j2 < i { j2 } else { j2 + 1 };
                    assert(t[j] == s[j2]);
                }
            }
            lemma_table_is(t, m);
        }
        let mut v: Vec<D> = Vec::new();
        std::mem::swap(&mut v, &mut self.entries);
        v.insert(i, d);
        self.entries = v;
    }

    /// Replaces the device under `d`'s id by `d`, keeping its place, or adds
    /// `d` after the others when the id is new.
    pub fn upsert(&mut self, d: D)
        ensures
            final(self).map() == old(self).map().insert(d.key(), d),
    {
        proof {
            use_type_invariant(&*self);
        }
        let ghost m0 = self.map();
        let mut i: usize = 0;
        while i < self.entries.len() && !self.entries[i].same_key(&d)
            invariant
                i <= self.entries@.len(),
                self.map() == m0,
                forall|j: int| 0 <= j < i ==> (#[trigger] self.entries@[j]).key() != d.key(),
            decreases self.entries@.len() - i,
        {
            i = i + 1;
        }
        if i < self.entries.len() {
            let _old = self.remove_at(i);
            assert(self.map() == m0.remove(d.key()));
            self.put_at(i, d);
            assert(m0.remove(d.key()).insert(d.key(), d) =~= m0.insert(d.key(), d));
        } else {
            proof {
                lemma_table_dom(self.entries@, d.key());
            }
            assert(!self.map().contains_key(d.key()));
            self.put(d);
        }
    }

    /// Empties the table.
    pub fn clear(&mut self)
        ensures
            final(self).map() == Map::<Seq<char>, D>::empty(),
    {
        self.entries = Vec::new();
    }

    /// Drops the devices not heard for `drop_ms` milliseconds or more at
    /// time `now_ms`; a device heard after `now_ms` counts as just heard.
    pub fn retain_recent(&mut self, now_ms: u64, drop_ms: u64)
        ensures
            forall|k: Seq<char>|
                #[trigger] final(self).map().contains_key(k) <==> old(self).map().contains_key(k)
                    && recent(old(self).map()[k].seen_at(), now_ms, drop_ms),
            forall|k: Seq<char>|
                #[trigger] final(self).map().contains_key(k) ==> final(self).map()[k] == old(
                    self,
                ).map()[k],
    {
        proof {
            use_type_invariant(&*self);
        }
        let ghost m0 = self.map();
        let ghost s = self.entries@;
        let mut src: Vec<D> = Vec::new();
        std::mem::swap(&mut src, &mut self.entries);
        let mut kept: Vec<D> = Vec::new();
        let ghost mut idx: Seq<int> = Seq::empty();
        let ghost mut consumed: int = 0;
        while src.len() > 0
            invariant
                unique_keys(s),
                m0 == table_map(s),
                0 <= consumed <= s.len(),
                src@ == s.skip(consumed),
                idx.len() == kept@.len(),
                forall|a: int| 0 <= a < idx.len() ==> 0 <= #[trigger] idx[a] < consumed,
                forall|a: int, b: int| 0 <= a < b < idx.len() ==> #[trigger] idx[a] < #[trigger] idx[b],
                forall|a: int| 0 <= a < idx.len() ==> kept@[a] == s[#[trigger] idx[a]],
                forall|a: int| 0 <= a < idx.len() ==> recent(s[#[trigger] idx[a]].seen_at(), now_ms, drop_ms),
                forall|j: int|
                    0 <= j < consumed && recent((#[trigger] s[j]).seen_at(), now_ms, drop_ms) ==> exists|a: int|
                        0 <= a < idx.len() && #[trigger] idx[a] == j,
            decreases src@.len(),
        {
            let d = src.remove(0);
            assert(d == s[consumed]);
            assert(src@ =~= s.skip(consumed + 1));
            let seen = d.last_seen_ms();
            let age = if now_ms >= seen {
                now_ms - seen
            } else {
                0
            };
            let ghost idx0 = idx;
            if age < drop_ms {
                proof {
                    idx = idx.push(consumed);
                }
                kept.push(d);
            }
            proof {
                assert forall|j: int|
                    0 <= j < consumed + 1 && recent((#[trigger] s[j]).seen_at(), now_ms, drop_ms) implies exists|a: int|
                        0 <= a < idx.len() && #[trigger] idx[a] == j by {
                    if j == consumed {
                        assert(idx[idx.len() - 1] == j);
                    } else {
                        let a = choose|a: int| 0 <= a < idx0.len() && #[trigger] idx0[a] == j;
                        assert(idx[a] == idx0[a]);
                    }
                }
                consumed = consumed + 1;
            }
        }
        assert(consumed == s.len());
        let ghost t = kept@;
        let ghost m = Map::new(
            |k: Seq<char>| m0.contains_key(k) && recent(m0[k].seen_at(), now_ms, drop_ms),
            |k: Seq<char>| m0[k],
        );
        proof {
            assert forall|a: int, b: int| 0 <= a < b < t.len() implies (#[trigger] t[a]).key()
                != (#[trigger] t[b]).key() by {
                assert(idx[a] < idx[b]);
                assert(t[a] == s[idx[a]] && t[b] == s[idx[b]]);
            }
            assert forall|j: int| 0 <= j < t.len() implies m.contains_key((#[trigger] t[j]).key())
                && m[t[j].key()] == t[j] by {
                assert(t[j] == s[idx[j]]);
                lemma_table_at(s, idx[j]);
            }
            assert forall|kk: Seq<char>| #[trigger] m.contains_key(kk) implies exists|j: int|
                0 <= j < t.len() && (#[trigger] t[j]).key() == kk by {
                lemma_table_dom(s, kk);
                let j2 = choose|j: int| 0 <= j < s.len() && (#[trigger] s[j]).key() == kk;
                lemma_table_at(s, j2);
                let a = choose|a: int| 0 <= a < idx.len() && #[trigger] idx[a] == j2;
                assert(t[a] == s[j2]);
            }
            lemma_table_is(t, m);
        }
        self.entries = kept;
    }
}

/// Whether a device heard at `seen` counts as present at `now`.
pub open spec fn recent(seen: u64, now: u64, drop_ms: u64) -> bool {
    (if now >= seen {
        now - seen
    } else {
        0
    }) < drop_ms
}

} // verus!
