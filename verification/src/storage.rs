//! Keyed, table-scoped storage.
//!
//! The in-memory backend keeps every entry as a (table, key, value) triple
//! with no two entries sharing a table and key. Each table is the partial map
//! its entries describe; a table nobody has written to is simply the empty
//! map, so reads never fail on a missing table and a first write creates it.

use vstd::prelude::*;
use vstd::pervasive::VecAdditionalExecFns;
use crate::error::KvError;
use crate::value::{Kvpair, KvpairV, Value, ValueV};
use crate::wire::str_eq;

verus! {

/// No two entries share a table and key.
pub open spec fn distinct_entries(s: Seq<(String, String, Value)>) -> bool {
    forall|i: int, j: int|
        0 <= i < j < s.len() ==> !((#[trigger] s[i]).0@ == (#[trigger] s[j]).0@ && s[i].1@
            == s[j].1@)
}

/// The partial map described by a run of entries, keyed by table and key.
pub open spec fn entries_map(s: Seq<(String, String, Value)>) -> Map<
    (Seq<char>, Seq<char>),
    ValueV,
>
    decreases s.len(),
{
    if s.len() == 0 {
        Map::empty()
    } else {
        entries_map(s.drop_last()).insert((s.last().0@, s.last().1@), s.last().2@)
    }
}

/// What the entry map holds: a pair is present exactly when some entry
/// carries it, and — with distinct entries — it maps to that entry's value.
pub proof fn lemma_entries_map_props(s: Seq<(String, String, Value)>)
    ensures
        forall|p: (Seq<char>, Seq<char>)| #[trigger]
            entries_map(s).contains_key(p) ==> exists|i: int|
                0 <= i < s.len() && (#[trigger] s[i]).0@ == p.0 && s[i].1@ == p.1,
        forall|i: int|
            0 <= i < s.len() ==> entries_map(s).contains_key(((#[trigger] s[i]).0@, s[i].1@)),
        distinct_entries(s) ==> forall|i: int|
            0 <= i < s.len() ==> entries_map(s)[((#[trigger] s[i]).0@, s[i].1@)] == s[i].2@,
    decreases s.len(),
{
    if s.len() > 0 {
        lemma_entries_map_props(s.drop_last());
        assert forall|p: (Seq<char>, Seq<char>)| #[trigger]
            entries_map(s).contains_key(p) implies exists|i: int|
            0 <= i < s.len() && (#[trigger] s[i]).0@ == p.0 && s[i].1@ == p.1 by {
            if p == (s.last().0@, s.last().1@) {
                assert((#[trigger] s[s.len() - 1]).0@ == p.0 && s[s.len() - 1].1@ == p.1);
            } else {
                assert(entries_map(s.drop_last()).contains_key(p));
                let i = choose|i: int|
                    0 <= i < s.drop_last().len() && (#[trigger] s.drop_last()[i]).0@ == p.0
                        && s.drop_last()[i].1@ == p.1;
                assert(s.drop_last()[i] == s[i]);
                assert((#[trigger] s[i]).0@ == p.0 && s[i].1@ == p.1);
            }
        }
        assert forall|i: int| 0 <= i < s.len() implies entries_map(s).contains_key(
            ((#[trigger] s[i]).0@, s[i].1@),
        ) by {
            if i < s.len() - 1 {
                assert(s.drop_last()[i] == s[i]);
            }
        }
        if distinct_entries(s) {
            assert(distinct_entries(s.drop_last())) by {
                assert(forall|i: int|
                    0 <= i < s.len() - 1 ==> s.drop_last()[i] == (#[trigger] s[i]));
            }
            assert forall|i: int| 0 <= i < s.len() implies entries_map(s)[(
                (#[trigger] s[i]).0@,
                s[i].1@,
            )] == s[i].2@ by {
                if i < s.len() - 1 {
                    assert(s.drop_last()[i] == s[i]);
                    assert(!(s[i].0@ == s.last().0@ && s[i].1@ == s.last().1@));
                }
            }
        }
    }
}

/// The pairs of one table, in entry order.
pub open spec fn table_pairs(s: Seq<(String, String, Value)>, t: Seq<char>) -> Seq<KvpairV> {
    s.filter(|e: (String, String, Value)| e.0@ == t).map_values(
        |e: (String, String, Value)| KvpairV { key: e.1@, val: Some(e.2@) },
    )
}

/// A list of pairs presents a table map exactly: every pair is in the map,
/// no key repeats, and every key of the map appears.
pub open spec fn pairs_match(ps: Seq<KvpairV>, m: Map<Seq<char>, ValueV>) -> bool {
    &&& forall|i: int|
        0 <= i < ps.len() ==> m.contains_key((#[trigger] ps[i]).key) && ps[i].val == Some(
            m[ps[i].key],
        )
    &&& forall|i: int, j: int|
        0 <= i < j < ps.len() ==> (#[trigger] ps[i]).key != (#[trigger] ps[j]).key
    &&& forall|k: Seq<char>| #[trigger]
        m.contains_key(k) ==> exists|i: int| 0 <= i < ps.len() && (#[trigger] ps[i]).key == k
}

/// Keyed, table-scoped access. `tbl` is the mathematical content of one
/// table; reads and writes are exact against it. `pairs_of` is the order in
/// which a scan presents one table, and always presents `tbl` exactly.
pub trait Storage: Sized {
    /// The backend's internal well-formedness.
    spec fn inv(&self) -> bool;

    /// The contents of the named table; a table never written is empty.
    spec fn tbl(&self, name: Seq<char>) -> Map<Seq<char>, ValueV>;

    /// The order in which a scan presents the named table.
    spec fn pairs_of(&self, name: Seq<char>) -> Seq<KvpairV>;

    /// A scan presents the table's contents exactly.
    proof fn lemma_pairs_of_match(&self, name: Seq<char>)
        requires
            self.inv(),
        ensures
            pairs_match(self.pairs_of(name), self.tbl(name)),
    ;

    /// The value under `key` in `table`, if any.
    fn get(&self, table: &str, key: &str) -> (r: Result<Option<Value>, KvError>)
        requires
            self.inv(),
        ensures
            match r {
                Ok(Some(v)) => self.tbl(table@).contains_key(key@) && v@ == self.tbl(table@)[key@],
                Ok(None) => !self.tbl(table@).contains_key(key@),
                Err(_) => false,
            },
    ;

    /// Stores `value` under `key` in `table`, unconditionally, returning the
    /// value previously there, if any. All other tables and keys are
    /// untouched.
    fn set(&mut self, table: &str, key: String, value: Value) -> (r: Result<
        Option<Value>,
        KvError,
    >)
        requires
            old(self).inv(),
        ensures
            final(self).inv(),
            final(self).tbl(table@) == old(self).tbl(table@).insert(key@, value@),
            forall|t: Seq<char>| t != table@ ==> final(self).tbl(t) == old(self).tbl(t),
            match r {
                Ok(Some(v)) => old(self).tbl(table@).contains_key(key@) && v@ == old(self).tbl(
                    table@,
                )[key@],
                Ok(None) => !old(self).tbl(table@).contains_key(key@),
                Err(_) => false,
            },
    ;

    /// Whether `table` holds `key`.
    fn contains(&self, table: &str, key: &str) -> (r: Result<bool, KvError>)
        requires
            self.inv(),
        ensures
            match r {
                Ok(b) => b == self.tbl(table@).contains_key(key@),
                Err(_) => false,
            },
    ;

    /// Removes `key` from `table`, returning the removed value if it was
    /// there. All other tables and keys are untouched.
    fn del(&mut self, table: &str, key: &str) -> (r: Result<Option<Value>, KvError>)
        requires
            old(self).inv(),
        ensures
            final(self).inv(),
            final(self).tbl(table@) == old(self).tbl(table@).remove(key@),
            forall|t: Seq<char>| t != table@ ==> final(self).tbl(t) == old(self).tbl(t),
            match r {
                Ok(Some(v)) => old(self).tbl(table@).contains_key(key@) && v@ == old(self).tbl(
                    table@,
                )[key@],
                Ok(None) => !old(self).tbl(table@).contains_key(key@),
                Err(_) => false,
            },
    ;

    /// A snapshot of every pair of `table`.
    fn get_all(&self, table: &str) -> (r: Result<Vec<Kvpair>, KvError>)
        requires
            self.inv(),
        ensures
            match r {
                Ok(ps) => crate::msg::seq_pair_view(ps@) == self.pairs_of(table@),
                Err(_) => false,
            },
    ;

    /// A finite, non-restartable walk over every pair of `table`.
    fn get_iter(&self, table: &str) -> (r: Result<StorageIter<Vec<Kvpair>>, KvError>)
        requires
            self.inv(),
        ensures
            match r {
                Ok(it) => crate::msg::seq_pair_view(it.data@) == self.pairs_of(table@),
                Err(_) => false,
            },
    ;
}

/// A finite walk over already-collected items, handing them out in order.
pub struct StorageIter<T> {
    pub data: T,
}

impl<T> StorageIter<T> {
    /// Wraps collected items for iteration.
    pub fn new(data: T) -> (r: Self)
        ensures
            r.data == data,
    {
        StorageIter { data }
    }
}

impl StorageIter<Vec<Kvpair>> {
    /// The next pair, or nothing once every pair has been handed out.
    pub fn next(&mut self) -> (r: Option<Kvpair>)
        ensures
            match r {
                Some(p) => old(self).data@.len() > 0 && p == old(self).data@[0]
                    && final(self).data@ == old(self).data@.drop_first(),
                None => old(self).data@.len() == 0 && final(self).data@ == old(self).data@,
            },
    {
        if self.data.len() == 0 {
            return None;
        }
        let p = self.data.remove(0);
        proof {
            assert(self.data@ =~= old(self).data@.drop_first());
        }
        Some(p)
    }
}

/// The in-memory backend: a flat list of (table, key, value) entries with no
/// two entries sharing a table and key.
pub struct MemTable {
    pub entries: Vec<(String, String, Value)>,
}

impl MemTable {
    /// An empty store.
    pub fn new() -> (r: Self)
        ensures
            r.inv(),
            forall|t: Seq<char>| #![auto] r.tbl(t) =~= Map::<Seq<char>, ValueV>::empty(),
            r.entries@.len() == 0,
    {
        let r = MemTable { entries: Vec::new() };
        proof {
            assert forall|t: Seq<char>| #![auto] r.tbl(t) =~= Map::<Seq<char>, ValueV>::empty()
            by {
                lemma_entries_map_props(r.entries@);
            }
        }
        r
    }

    /// Finds the entry for `table` and `key`, if any.
    fn find(&self, table: &str, key: &str) -> (r: Option<usize>)
        ensures
            match r {
                Some(i) => i < self.entries@.len() && self.entries@[i as int].0@ == table@
                    && self.entries@[i as int].1@ == key@,
                None => forall|i: int|
                    0 <= i < self.entries@.len() ==> !((#[trigger] self.entries@[i]).0@ == table@
                        && self.entries@[i].1@ == key@),
            },
    {
        let mut i: usize = 0;
        while i < self.entries.len()
            invariant
                i <= self.entries@.len(),
                forall|j: int|
                    0 <= j < i ==> !((#[trigger] self.entries@[j]).0@ == table@
                        && self.entries@[j].1@ == key@),
            decreases self.entries@.len() - i,
        {
            let e = &self.entries[i];
            if str_eq(e.0.as_str(), table) && str_eq(e.1.as_str(), key) {
                return Some(i);
            }
            i = i + 1;
        }
        None
    }
}

impl Default for MemTable {
    /// The default store is empty.
    fn default() -> (r: Self)
        ensures
            r.inv(),
            forall|t: Seq<char>| #![auto] r.tbl(t) =~= Map::<Seq<char>, ValueV>::empty(),
            r.entries@.len() == 0,
    {
        MemTable::new()
    }
}

impl Storage for MemTable {
    open spec fn inv(&self) -> bool {
        distinct_entries(self.entries@)
    }

    open spec fn tbl(&self, name: Seq<char>) -> Map<Seq<char>, ValueV> {
        Map::new(
            |k: Seq<char>| entries_map(self.entries@).contains_key((name, k)),
            |k: Seq<char>| entries_map(self.entries@)[(name, k)],
        )
    }

    open spec fn pairs_of(&self, name: Seq<char>) -> Seq<KvpairV> {
        table_pairs(self.entries@, name)
    }

    proof fn lemma_pairs_of_match(&self, name: Seq<char>) {
        lemma_table_pairs_match(self.entries@, name);
    }

    fn get(&self, table: &str, key: &str) -> (r: Result<Option<Value>, KvError>) {
        proof {
            lemma_entries_map_props(self.entries@);
        }
        match self.find(table, key) {
            Some(i) => {
                let v = self.entries[i].2.clone();
                Ok(Some(v))
            },
            None => {
                proof {
                    if entries_map(self.entries@).contains_key((table@, key@)) {
                        assert(false);
                    }
                }
                Ok(None)
            },
        }
    }

    fn set(&mut self, table: &str, key: String, value: Value) -> (r: Result<
        Option<Value>,
        KvError,
    >) {
        proof {
            lemma_entries_map_props(self.entries@);
        }
        let prior = match self.find(table, key.as_str()) {
            Some(i) => {
                let e = self.entries.remove(i);
                proof {
                    lemma_entries_map_remove(old(self).entries@, i as int);
                }
                Some(e.2)
            },
            None => {
                proof {
                    if entries_map(self.entries@).contains_key((table@, key@)) {
                        assert(false);
                    }
                }
                None
            },
        };
        let ghost mid = self.entries@;
        self.entries.push((table.to_owned(), key, value));
        proof {
            assert(self.entries@.drop_last() =~= mid);
            lemma_entries_map_props(mid);
            assert(distinct_entries(self.entries@)) by {
                if !distinct_entries(self.entries@) {
                    assert(exists|i: int, j: int|
                        0 <= i < j < self.entries@.len() && (#[trigger] self.entries@[i]).0@ == (
                        #[trigger] self.entries@[j]).0@ && self.entries@[i].1@
                            == self.entries@[j].1@);
                }
            }
            lemma_tbl_after_insert(old(self), self, table@, key@, value@);
        }
        Ok(prior)
    }

    fn contains(&self, table: &str, key: &str) -> (r: Result<bool, KvError>) {
        proof {
            lemma_entries_map_props(self.entries@);
        }
        match self.find(table, key) {
            Some(_) => Ok(true),
            None => {
                proof {
                    if entries_map(self.entries@).contains_key((table@, key@)) {
                        assert(false);
                    }
                }
                Ok(false)
            },
        }
    }

    fn del(&mut self, table: &str, key: &str) -> (r: Result<Option<Value>, KvError>) {
        proof {
            lemma_entries_map_props(self.entries@);
        }
        match self.find(table, key) {
            Some(i) => {
                let e = self.entries.remove(i);
                proof {
                    lemma_entries_map_remove(old(self).entries@, i as int);
                    lemma_tbl_after_remove(old(self), self, table@, key@);
                }
                Ok(Some(e.2))
            },
            None => {
                proof {
                    if entries_map(self.entries@).contains_key((table@, key@)) {
                        assert(false);
                    }
                    assert(self.tbl(table@) =~= old(self).tbl(table@).remove(key@));
                }
                Ok(None)
            },
        }
    }

    fn get_all(&self, table: &str) -> (r: Result<Vec<Kvpair>, KvError>) {
        proof {
            reveal(Seq::filter);
            assert(table_pairs(self.entries@.take(0), table@) =~= Seq::<KvpairV>::empty());
        }
        let mut out: Vec<Kvpair> = Vec::new();
        let mut i: usize = 0;
        while i < self.entries.len()
            invariant
                i <= self.entries@.len(),
                crate::msg::seq_pair_view(out@) =~= table_pairs(
                    self.entries@.take(i as int),
                    table@,
                ),
            decreases self.entries@.len() - i,
        {
            let ghost prefix = self.entries@.take(i as int);
            let ghost prev_out = out@;
            let e = &self.entries[i];
            let matched = str_eq(e.0.as_str(), table);
            if matched {
                out.push(Kvpair::new(e.1.as_str(), e.2.clone()));
            }
            proof {
                reveal(Seq::filter);
                let longer = self.entries@.take(i + 1);
                let ev = self.entries@[i as int];
                assert(longer.drop_last() =~= prefix);
                assert(longer.last() == ev);
                if matched {
                    assert(table_pairs(longer, table@) =~= table_pairs(prefix, table@).push(
                        KvpairV { key: ev.1@, val: Some(ev.2@) },
                    ));
                    assert(out@ == prev_out.push(out@.last()));
                    assert(crate::msg::seq_pair_view(out@) =~= crate::msg::seq_pair_view(
                        prev_out,
                    ).push(out@.last()@));
                    assert(out@.last()@ == KvpairV { key: ev.1@, val: Some(ev.2@) });
                } else {
                    assert(table_pairs(longer, table@) =~= table_pairs(prefix, table@));
                }
                assert(crate::msg::seq_pair_view(out@) =~= table_pairs(longer, table@));
            }
            i = i + 1;
        }
        proof {
            assert(self.entries@.take(self.entries@.len() as int) =~= self.entries@);
            assert(crate::msg::seq_pair_view(out@) =~= table_pairs(self.entries@, table@));
        }
        Ok(out)
    }

    fn get_iter(&self, table: &str) -> (r: Result<StorageIter<Vec<Kvpair>>, KvError>) {
        match self.get_all(table) {
            Ok(ps) => Ok(StorageIter::new(ps)),
            Err(e) => Err(e),
        }
    }
}

/// Removing the entry at `i` removes exactly its pair from the map.
proof fn lemma_entries_map_remove(s: Seq<(String, String, Value)>, i: int)
    requires
        distinct_entries(s),
        0 <= i < s.len(),
    ensures
        distinct_entries(s.remove(i)),
        entries_map(s.remove(i)) == entries_map(s).remove((s[i].0@, s[i].1@)),
{
    let s2 = s.remove(i);
    assert(distinct_entries(s2)) by {
        assert(forall|j: int| 0 <= j < i ==> s2[j] == (#[trigger] s[j]));
        assert(forall|j: int| i <= j < s2.len() ==> s2[j] == (#[trigger] s[j + 1]));
    }
    lemma_entries_map_props(s);
    lemma_entries_map_props(s2);
    let p = (s[i].0@, s[i].1@);
    assert(entries_map(s2) =~= entries_map(s).remove(p)) by {
        assert(forall|j: int| 0 <= j < i ==> s2[j] == (#[trigger] s[j]));
        assert(forall|j: int| i <= j < s2.len() ==> s2[j] == (#[trigger] s[j + 1]));
        assert forall|q: (Seq<char>, Seq<char>)| #[trigger]
            entries_map(s2).contains_key(q) implies entries_map(s).remove(p).contains_key(q) by {
            let j = choose|j: int| 0 <= j < s2.len() && (#[trigger] s2[j]).0@ == q.0 && s2[j].1@
                == q.1;
            if j < i {
                assert(s[j] == s2[j]);
                assert(!(s[j].0@ == s[i].0@ && s[j].1@ == s[i].1@));
            } else {
                assert(s[j + 1] == s2[j]);
                assert(!(s[i].0@ == s[j + 1].0@ && s[i].1@ == s[j + 1].1@));
            }
        }
        assert forall|q: (Seq<char>, Seq<char>)| #[trigger]
            entries_map(s).remove(p).contains_key(q) implies entries_map(s2).contains_key(q)
            && entries_map(s2)[q] == entries_map(s).remove(p)[q] by {
            let j = choose|j: int| 0 <= j < s.len() && (#[trigger] s[j]).0@ == q.0 && s[j].1@
                == q.1;
            assert(j != i);
            if j < i {
                assert(s2[j] == s[j]);
                assert(entries_map(s2)[q] == s2[j].2@);
            } else {
                assert(s2[j - 1] == s[j]);
                assert(entries_map(s2)[q] == s2[j - 1].2@);
            }
            assert(entries_map(s)[q] == s[j].2@);
        }
    }
}

/// After removing a key's entry, the named table loses exactly that key and
/// every other table is untouched.
proof fn lemma_tbl_after_remove(pre: &MemTable, post: &MemTable, table: Seq<char>, key: Seq<char>)
    requires
        entries_map(post.entries@) == entries_map(pre.entries@).remove((table, key)),
    ensures
        post.tbl(table) == pre.tbl(table).remove(key),
        forall|t: Seq<char>| t != table ==> post.tbl(t) == pre.tbl(t),
{
    assert(post.tbl(table) =~= pre.tbl(table).remove(key));
    assert forall|t: Seq<char>| t != table implies post.tbl(t) == pre.tbl(t) by {
        assert(post.tbl(t) =~= pre.tbl(t));
    }
}

/// After appending an entry for a fresh table-and-key pair, the named table
/// gains exactly that key and every other table is untouched.
proof fn lemma_tbl_after_insert(
    pre: &MemTable,
    post: &MemTable,
    table: Seq<char>,
    key: Seq<char>,
    value: ValueV,
)
    requires
        entries_map(post.entries@) == entries_map(pre.entries@).remove((table, key)).insert(
            (table, key),
            value,
        ) || entries_map(post.entries@) == entries_map(pre.entries@).insert((table, key), value),
    ensures
        post.tbl(table) == pre.tbl(table).insert(key, value),
        forall|t: Seq<char>| t != table ==> post.tbl(t) == pre.tbl(t),
{
    assert(post.tbl(table) =~= pre.tbl(table).insert(key, value));
    assert forall|t: Seq<char>| t != table implies post.tbl(t) == pre.tbl(t) by {
        assert(post.tbl(t) =~= pre.tbl(t));
    }
}

/// A table scan presents the table's contents exactly.
proof fn lemma_table_pairs_match(s: Seq<(String, String, Value)>, t: Seq<char>)
    requires
        distinct_entries(s),
    ensures
        pairs_match(
            table_pairs(s, t),
            Map::new(
                |k: Seq<char>| entries_map(s).contains_key((t, k)),
                |k: Seq<char>| entries_map(s)[(t, k)],
            ),
        ),
    decreases s.len(),
{
    reveal(Seq::filter);
    let pred = |e: (String, String, Value)| e.0@ == t;
    let m = Map::new(
        |k: Seq<char>| entries_map(s).contains_key((t, k)),
        |k: Seq<char>| entries_map(s)[(t, k)],
    );
    let ps = table_pairs(s, t);
    lemma_entries_map_props(s);
    if s.len() == 0 {
        assert(ps =~= Seq::<KvpairV>::empty());
        assert forall|k: Seq<char>| #[trigger] m.contains_key(k) implies exists|i: int|
            0 <= i < ps.len() && (#[trigger] ps[i]).key == k by {
            assert(entries_map(s).contains_key((t, k)));
        }
    } else {
        let prev = s.drop_last();
        let last = s.last();
        assert(distinct_entries(prev)) by {
            assert(forall|a: int| 0 <= a < prev.len() ==> prev[a] == (#[trigger] s[a]));
        }
        lemma_table_pairs_match(prev, t);
        lemma_entries_map_props(prev);
        let mp = Map::new(
            |k: Seq<char>| entries_map(prev).contains_key((t, k)),
            |k: Seq<char>| entries_map(prev)[(t, k)],
        );
        let psp = table_pairs(prev, t);
        assert(forall|a: int| 0 <= a < prev.len() ==> prev[a] == (#[trigger] s[a]));
        // No earlier entry carries the last entry's table and key.
        assert(forall|a: int|
            0 <= a < prev.len() ==> !((#[trigger] prev[a]).0@ == last.0@ && prev[a].1@
                == last.1@));
        if last.0@ == t {
            assert(s.filter(pred) == prev.filter(pred).push(last));
            assert(ps =~= psp.push(KvpairV { key: last.1@, val: Some(last.2@) }));
            assert(m =~= mp.insert(last.1@, last.2@));
            // The new key is fresh for this table: an earlier pair with it
            // would name an earlier entry with the same table and key.
            assert forall|i: int| 0 <= i < psp.len() implies (#[trigger] psp[i]).key != last.1@
            by {
                if psp[i].key == last.1@ {
                    assert(mp.contains_key(psp[i].key));
                    assert(entries_map(prev).contains_key((t, last.1@)));
                }
            }
            assert forall|i: int| 0 <= i < ps.len() implies m.contains_key(
                (#[trigger] ps[i]).key,
            ) && ps[i].val == Some(m[ps[i].key]) by {
                if i < psp.len() {
                    assert(ps[i] == psp[i]);
                    assert(psp[i].key != last.1@);
                } else {
                    assert(ps[i] == KvpairV { key: last.1@, val: Some(last.2@) });
                }
            }
            assert forall|k: Seq<char>| #[trigger] m.contains_key(k) implies exists|i: int|
                0 <= i < ps.len() && (#[trigger] ps[i]).key == k by {
                if k == last.1@ {
                    assert(ps[ps.len() - 1].key == k);
                } else {
                    assert(mp.contains_key(k));
                    let i = choose|i: int| 0 <= i < psp.len() && (#[trigger] psp[i]).key == k;
                    assert(ps[i].key == k);
                }
            }
        } else {
            assert(s.filter(pred) == prev.filter(pred));
            assert(ps =~= psp);
            assert(m =~= mp);
        }
    }
}

} // verus!
