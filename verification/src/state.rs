//! The record of what was last mirrored: one entry (value hash and version)
//! per parameter name, kept sorted by name. Values themselves are never kept.
use vstd::prelude::*;

use crate::text::{chars_of, compare_chars, copy_string, lemma_text_lt_irreflexive,
    lemma_text_lt_total, lemma_text_lt_transitive, text_lt, TextOrder};

verus! {

/// What is recorded of one parameter: the hash of its value and its version.
#[derive(Clone, Debug)]
pub struct StateEntry {
    pub hash: String,
    pub version: i64,
}

impl View for StateEntry {
    type V = (Seq<char>, i64);

    open spec fn view(&self) -> (Seq<char>, i64) {
        (self.hash@, self.version)
    }
}

impl StateEntry {
    /// A new entry.
    pub fn new(hash: String, version: i64) -> (e: Self)
        ensures
            e.hash@ == hash@,
            e.version == version,
    {
        StateEntry { hash, version }
    }

    /// A copy of this entry.
    pub fn duplicate(&self) -> (e: Self)
        ensures
            e@ == self@,
    {
        StateEntry { hash: copy_string(&self.hash), version: self.version }
    }

    /// Whether two entries record the same hash and version.
    pub fn same_as(&self, other: &StateEntry) -> (r: bool)
        ensures
            r == (self@ == other@),
    {
        crate::text::same_text(self.hash.as_str(), other.hash.as_str())
            && self.version == other.version
    }
}

/// The view of an optional entry.
pub open spec fn entry_opt_view(e: Option<StateEntry>) -> Option<(Seq<char>, i64)> {
    match e {
        Some(x) => Some(x@),
        None => None,
    }
}

/// The view of one update: `Some` upserts the name, `None` removes it.
pub open spec fn update_view(u: (String, Option<StateEntry>)) -> (Seq<char>, Option<(Seq<char>, i64)>) {
    (u.0@, entry_opt_view(u.1))
}

/// The views of a sequence of updates.
pub open spec fn updates_view(us: Seq<(String, Option<StateEntry>)>) -> Seq<(Seq<char>, Option<(Seq<char>, i64)>)> {
    us.map_values(|u: (String, Option<StateEntry>)| update_view(u))
}

/// A map after a batch of updates, applied in order (a later update of the
/// same name wins).
pub open spec fn apply_updates(
    m: Map<Seq<char>, (Seq<char>, i64)>,
    us: Seq<(Seq<char>, Option<(Seq<char>, i64)>)>,
) -> Map<Seq<char>, (Seq<char>, i64)>
    decreases us.len(),
{
    if us.len() == 0 {
        m
    } else {
        let before = apply_updates(m, us.drop_last());
        match us.last().1 {
            Some(e) => before.insert(us.last().0, e),
            None => before.remove(us.last().0),
        }
    }
}

/// The last update of a name decides what is recorded for it. After a batch
/// of updates, a name that no update mentions keeps what it had; otherwise
/// the last update that mentions it decides: `Some(e)` leaves `e` recorded,
/// `None` leaves the name unrecorded.
pub proof fn law_last_update_wins(
    m: Map<Seq<char>, (Seq<char>, i64)>,
    us: Seq<(Seq<char>, Option<(Seq<char>, i64)>)>,
    k: Seq<char>,
)
    ensures
        (forall|i: int| 0 <= i < us.len() ==> (#[trigger] us[i]).0 != k) ==> {
            &&& apply_updates(m, us).contains_key(k) == m.contains_key(k)
            &&& m.contains_key(k) ==> apply_updates(m, us)[k] == m[k]
        },
        forall|i: int|
            0 <= i < us.len() && (#[trigger] us[i]).0 == k && (forall|j: int| i < j < us.len() ==> us[j].0 != k)
                ==> match us[i].1 {
                Some(e) => apply_updates(m, us).contains_key(k) && apply_updates(m, us)[k] == e,
                None => !apply_updates(m, us).contains_key(k),
            },
    decreases us.len(),
{
    if us.len() > 0 {
        let pre = us.drop_last();
        law_last_update_wins(m, pre, k);
        assert forall|i: int| 0 <= i < pre.len() implies #[trigger] pre[i] == us[i] by {}
        let last = us.len() - 1;
        assert forall|i: int|
            0 <= i < us.len() && (#[trigger] us[i]).0 == k && (forall|j: int| i < j < us.len() ==> us[j].0 != k)
            implies match us[i].1 {
                Some(e) => apply_updates(m, us).contains_key(k) && apply_updates(m, us)[k] == e,
                None => !apply_updates(m, us).contains_key(k),
            } by {
            if i < last {
                assert(us[last].0 != k);
                assert(pre[i].0 == k);
                assert forall|j: int| i < j < pre.len() implies pre[j].0 != k by {
                    assert(us[j].0 != k);
                }
            }
        }
        if forall|i: int| 0 <= i < us.len() ==> (#[trigger] us[i]).0 != k {
            assert(us[last].0 != k);
            assert forall|i: int| 0 <= i < pre.len() implies (#[trigger] pre[i]).0 != k by {
                assert(us[i].0 != k);
            }
        }
    }
}

/// The names of a sequence of records, in order.
pub open spec fn record_names(es: Seq<(String, StateEntry)>) -> Seq<Seq<char>> {
    es.map_values(|e: (String, StateEntry)| e.0@)
}

/// Every name comes strictly before the next one (so no name occurs twice).
pub open spec fn strictly_sorted(ns: Seq<Seq<char>>) -> bool {
    forall|i: int, j: int| 0 <= i < j < ns.len() ==> text_lt(#[trigger] ns[i], #[trigger] ns[j])
}

/// The map that a sequence of records denotes.
pub open spec fn records_map(es: Seq<(String, StateEntry)>) -> Map<Seq<char>, (Seq<char>, i64)> {
    Map::new(
        |k: Seq<char>| exists|i: int| 0 <= i < es.len() && #[trigger] es[i].0@ == k,
        |k: Seq<char>| es[record_index(es, k)].1@,
    )
}

/// A position where `k` is recorded, when there is one.
pub open spec fn record_index(es: Seq<(String, StateEntry)>, k: Seq<char>) -> int {
    choose|i: int| 0 <= i < es.len() && #[trigger] es[i].0@ == k
}

proof fn lemma_records_at(es: Seq<(String, StateEntry)>, i: int)
    requires
        strictly_sorted(record_names(es)),
        0 <= i < es.len(),
    ensures
        records_map(es).contains_key(es[i].0@),
        records_map(es)[es[i].0@] == es[i].1@,
{
    let k = es[i].0@;
    assert(records_map(es).contains_key(k));
    let c = record_index(es, k);
    assert(record_names(es)[c] == k);
    assert(record_names(es)[i] == k);
    if c != i {
        lemma_text_lt_irreflexive(k);
        if c < i {
            assert(text_lt(record_names(es)[c], record_names(es)[i]));
        } else {
            assert(text_lt(record_names(es)[i], record_names(es)[c]));
        }
    }
}

proof fn lemma_records_absent(es: Seq<(String, StateEntry)>, k: Seq<char>)
    requires
        forall|i: int| 0 <= i < es.len() ==> es[i].0@ != k,
    ensures
        !records_map(es).contains_key(k),
{
}

/// Tracks the last-known hash and version of every parameter, so a real
/// change can be told from a no-op and previously mirrored names recalled.
pub struct StateStore {
    path: String,
    entries: Vec<(String, StateEntry)>,
}

impl View for StateStore {
    type V = Map<Seq<char>, (Seq<char>, i64)>;

    closed spec fn view(&self) -> Map<Seq<char>, (Seq<char>, i64)> {
        records_map(self.entries@)
    }
}

impl StateStore {
    /// The store's invariant: records sorted strictly by name.
    pub closed spec fn wf(&self) -> bool {
        strictly_sorted(record_names(self.entries@))
    }

    /// The recorded names in increasing order.
    pub closed spec fn names(&self) -> Seq<Seq<char>> {
        record_names(self.entries@)
    }

    /// Where the store is persisted.
    pub closed spec fn location(&self) -> Seq<char> {
        self.path@
    }

    /// The names are strictly increasing and are exactly the recorded names.
    pub proof fn lemma_names(&self)
        requires
            self.wf(),
        ensures
            strictly_sorted(self.names()),
            forall|k: Seq<char>| self@.contains_key(k) <==> self.names().contains(k),
    {
        assert forall|k: Seq<char>| self@.contains_key(k) <==> self.names().contains(k) by {
            if self@.contains_key(k) {
                let i = choose|i: int| 0 <= i < self.entries@.len() && #[trigger] self.entries@[i].0@ == k;
                assert(self.names()[i] == k);
            }
            if self.names().contains(k) {
                let i = choose|i: int| 0 <= i < self.names().len() && self.names()[i] == k;
                assert(self.entries@[i].0@ == k);
            }
        }
    }

    /// An empty store persisted at `path`.
    pub fn new(path: String) -> (s: Self)
        ensures
            s.wf(),
            s@ == Map::<Seq<char>, (Seq<char>, i64)>::empty(),
            s.location() == path@,
    {
        let s = StateStore { path, entries: Vec::new() };
        assert(s@ =~= Map::<Seq<char>, (Seq<char>, i64)>::empty());
        s
    }

    /// Where the store is persisted.
    pub fn path(&self) -> (p: &String)
        ensures
            p@ == self.location(),
    {
        &self.path
    }

    /// Finds `name`: `Ok(i)` where it is recorded, else `Err(p)` where it would go.
    fn locate(&self, name: &Vec<char>) -> (r: Result<usize, usize>)
        requires
            self.wf(),
        ensures
            match r {
                Ok(i) => i < self.entries@.len() && self.entries@[i as int].0@ == name@,
                Err(p) => {
                    &&& p <= self.entries@.len()
                    &&& forall|j: int| 0 <= j < p ==> text_lt(#[trigger] self.entries@[j].0@, name@)
                    &&& forall|j: int| p <= j < self.entries@.len() ==> text_lt(name@, #[trigger] self.entries@[j].0@)
                },
            },
    {
        let mut i: usize = 0;
        while i < self.entries.len()
            invariant
                self.wf(),
                i <= self.entries@.len(),
                forall|j: int| 0 <= j < i ==> text_lt(#[trigger] self.entries@[j].0@, name@),
            decreases self.entries.len() - i,
        {
            let here = chars_of(self.entries[i].0.as_str());
            match compare_chars(&here, name) {
                TextOrder::Equal => {
                    return Ok(i);
                },
                TextOrder::Greater => {
                    proof {
                        assert forall|j: int| i <= j < self.entries@.len() implies text_lt(name@, #[trigger] self.entries@[j].0@) by {
                            if j > i {
                                assert(text_lt(record_names(self.entries@)[i as int], record_names(self.entries@)[j]));
                                lemma_text_lt_transitive(name@, self.entries@[i as int].0@, self.entries@[j].0@);
                            }
                        }
                    }
                    return Err(i);
                },
                TextOrder::Less => {},
            }
            i = i + 1;
        }
        Err(i)
    }

    /// The recorded entry for `name`, if any.
    pub fn get(&self, name: &str) -> (r: Option<StateEntry>)
        requires
            self.wf(),
        ensures
            match r {
                Some(e) => self@.contains_key(name@) && self@[name@] == e@,
                None => !self@.contains_key(name@),
            },
    {
        let key = chars_of(name);
        match self.locate(&key) {
            Ok(i) => {
                proof {
                    lemma_records_at(self.entries@, i as int);
                }
                Some(self.entries[i].1.duplicate())
            },
            Err(_) => {
                proof {
                    assert forall|j: int| 0 <= j < self.entries@.len() implies self.entries@[j].0@ != name@ by {
                        lemma_text_lt_irreflexive(name@);
                    }
                    lemma_records_absent(self.entries@, name@);
                }
                None
            },
        }
    }

    /// Whether `name` is recorded with exactly this value hash: when it is, the
    /// value has not changed since it was last mirrored.
    pub fn holds_hash(&self, name: &str, hash: &str) -> (r: bool)
        requires
            self.wf(),
        ensures
            r == (self@.contains_key(name@) && self@[name@].0 == hash@),
    {
        match self.get(name) {
            Some(e) => crate::text::same_text(e.hash.as_str(), hash),
            None => false,
        }
    }

    /// Every recorded name, in increasing order, each once.
    pub fn known_names(&self) -> (r: Vec<String>)
        requires
            self.wf(),
        ensures
            r@.len() == self.names().len(),
            forall|i: int| 0 <= i < r@.len() ==> #[trigger] r@[i]@ == self.names()[i],
    {
        let mut r: Vec<String> = Vec::new();
        let mut i: usize = 0;
        while i < self.entries.len()
            invariant
                i <= self.entries@.len(),
                r@.len() == i,
                forall|j: int| 0 <= j < i ==> #[trigger] r@[j]@ == record_names(self.entries@)[j],
            decreases self.entries.len() - i,
        {
            r.push(copy_string(&self.entries[i].0));
            i = i + 1;
        }
        r
    }

    /// The recorded (name, entry) pairs in increasing name order, as they are persisted.
    pub fn records(&self) -> (r: &Vec<(String, StateEntry)>)
        ensures
            record_names(r@) == self.names(),
            records_map(r@) == self@,
    {
        &self.entries
    }

    /// Applies one update: `Some` records the entry for `name`, `None` forgets `name`.
    pub fn apply_one(&mut self, name: String, update: Option<StateEntry>)
        requires
            old(self).wf(),
        ensures
            final(self).wf(),
            final(self).location() == old(self).location(),
            final(self)@ == match entry_opt_view(update) {
                Some(e) => old(self)@.insert(name@, e),
                None => old(self)@.remove(name@),
            },
    {
        let key = chars_of(name.as_str());
        let ghost old_es = self.entries@;
        let ghost k = name@;
        match self.locate(&key) {
            Ok(i) => {
                proof {
                    assert forall|j: int| 0 <= j < old_es.len() && j != i implies old_es[j].0@ != k by {
                        lemma_text_lt_irreflexive(k);
                        if j < i {
                            assert(text_lt(record_names(old_es)[j], record_names(old_es)[i as int]));
                        } else {
                            assert(text_lt(record_names(old_es)[i as int], record_names(old_es)[j]));
                        }
                    }
                }
                match update {
                    Some(e) => {
                        let ghost ev = e@;
                        self.entries.set(i, (name, e));
                        let ghost new_es = self.entries@;
                        proof {
                            assert(record_names(new_es) =~= record_names(old_es));
                            assert forall|j: int| 0 <= j < new_es.len() implies #[trigger] new_es[j].0@ == old_es[j].0@ by {}
                            assert forall|kk: Seq<char>| #[trigger] records_map(new_es).contains_key(kk) == records_map(old_es).insert(k, ev).contains_key(kk) by {
                                if records_map(old_es).contains_key(kk) {
                                    let c = choose|c: int| 0 <= c < old_es.len() && #[trigger] old_es[c].0@ == kk;
                                    assert(new_es[c].0@ == kk);
                                }
                                if records_map(new_es).contains_key(kk) {
                                    let c = choose|c: int| 0 <= c < new_es.len() && #[trigger] new_es[c].0@ == kk;
                                    assert(old_es[c].0@ == kk);
                                }
                            }
                            assert forall|kk: Seq<char>| records_map(new_es).contains_key(kk) implies records_map(new_es)[kk] == #[trigger] records_map(old_es).insert(k, ev)[kk] by {
                                let c = choose|c: int| 0 <= c < new_es.len() && #[trigger] new_es[c].0@ == kk;
                                lemma_records_at(new_es, c);
                                if kk != k {
                                    lemma_records_at(old_es, c);
                                }
                            }
                            assert(records_map(new_es) =~= records_map(old_es).insert(k, ev));
                        }
                    },
                    None => {
                        self.entries.remove(i);
                        let ghost new_es = self.entries@;
                        proof {
                            assert forall|a: int, b: int| 0 <= a < b < new_es.len() implies text_lt(#[trigger] record_names(new_es)[a], #[trigger] record_names(new_es)[b]) by {
                                let oa = if a < i { a } else { a + 1 };
                                let ob = if b < i { b } else { b + 1 };
                                assert(text_lt(record_names(old_es)[oa], record_names(old_es)[ob]));
                            }
                            assert forall|kk: Seq<char>| #[trigger] records_map(new_es).contains_key(kk) == records_map(old_es).remove(k).contains_key(kk) by {
                                if records_map(old_es).remove(k).contains_key(kk) {
                                    let c = choose|c: int| 0 <= c < old_es.len() && #[trigger] old_es[c].0@ == kk;
                                    let nc = if c < i { c } else { c - 1 };
                                    assert(new_es[nc].0@ == kk);
                                }
                                if records_map(new_es).contains_key(kk) {
                                    let c = choose|c: int| 0 <= c < new_es.len() && #[trigger] new_es[c].0@ == kk;
                                    let oc = if c < i { c } else { c + 1 };
                                    assert(old_es[oc].0@ == kk);
                                }
                            }
                            assert forall|kk: Seq<char>| records_map(new_es).contains_key(kk) implies records_map(new_es)[kk] == #[trigger] records_map(old_es).remove(k)[kk] by {
                                let c = choose|c: int| 0 <= c < new_es.len() && #[trigger] new_es[c].0@ == kk;
                                let oc = if c < i { c } else { c + 1 };
                                lemma_records_at(new_es, c);
                                lemma_records_at(old_es, oc);
                            }
                            assert(records_map(new_es) =~= records_map(old_es).remove(k));
                        }
                    },
                }
            },
            Err(p) => {
                proof {
                    assert forall|j: int| 0 <= j < old_es.len() implies old_es[j].0@ != k by {
                        lemma_text_lt_irreflexive(k);
                    }
                    lemma_records_absent(old_es, k);
                }
                match update {
                    Some(e) => {
                        let ghost ev = e@;
                        self.entries.insert(p, (name, e));
                        let ghost new_es = self.entries@;
                        proof {
                            assert forall|a: int, b: int| 0 <= a < b < new_es.len() implies text_lt(#[trigger] record_names(new_es)[a], #[trigger] record_names(new_es)[b]) by {
                                if a < p && b < p {
                                    assert(text_lt(record_names(old_es)[a], record_names(old_es)[b]));
                                } else if a < p && b == p {
                                } else if a < p {
                                    assert(text_lt(record_names(old_es)[a], record_names(old_es)[b - 1]));
                                } else if a == p {
                                } else {
                                    assert(text_lt(record_names(old_es)[a - 1], record_names(old_es)[b - 1]));
                                }
                            }
                            assert forall|kk: Seq<char>| #[trigger] records_map(new_es).contains_key(kk) == records_map(old_es).insert(k, ev).contains_key(kk) by {
                                if records_map(old_es).contains_key(kk) {
                                    let c = choose|c: int| 0 <= c < old_es.len() && #[trigger] old_es[c].0@ == kk;
                                    let nc = if c < p { c } else { c + 1 };
                                    assert(new_es[nc].0@ == kk);
                                }
                                if kk == k {
                                    assert(new_es[p as int].0@ == kk);
                                }
                                if records_map(new_es).contains_key(kk) && kk != k {
                                    let c = choose|c: int| 0 <= c < new_es.len() && #[trigger] new_es[c].0@ == kk;
                                    let oc = if c < p { c } else { c - 1 };
                                    assert(old_es[oc].0@ == kk);
                                }
                            }
                            assert forall|kk: Seq<char>| records_map(new_es).contains_key(kk) implies records_map(new_es)[kk] == #[trigger] records_map(old_es).insert(k, ev)[kk] by {
                                let c = choose|c: int| 0 <= c < new_es.len() && #[trigger] new_es[c].0@ == kk;
                                lemma_records_at(new_es, c);
                                if kk != k {
                                    let oc = if c < p { c } else { c - 1 };
                                    lemma_records_at(old_es, oc);
                                }
                            }
                            assert(records_map(new_es) =~= records_map(old_es).insert(k, ev));
                        }
                    },
                    None => {
                        proof {
                            assert(records_map(old_es) =~= records_map(old_es).remove(k));
                        }
                    },
                }
            },
        }
    }

    /// Applies a batch of updates in order: `Some(entry)` upserts, `None` removes the name.
    pub fn apply(&mut self, updates: Vec<(String, Option<StateEntry>)>)
        requires
            old(self).wf(),
        ensures
            final(self).wf(),
            final(self).location() == old(self).location(),
            final(self)@ == apply_updates(old(self)@, updates_view(updates@)),
    {
        let ghost start = self@;
        let ghost us = updates@;
        let mut i: usize = 0;
        while i < updates.len()
            invariant
                self.wf(),
                self.location() == old(self).location(),
                i <= us.len(),
                us == updates@,
                self@ == apply_updates(start, updates_view(us.take(i as int))),
            decreases updates.len() - i,
        {
            let name = copy_string(&updates[i].0);
            let entry = match &updates[i].1 {
                Some(e) => Some(e.duplicate()),
                None => None,
            };
            assert(entry_opt_view(entry) == entry_opt_view(us[i as int].1));
            self.apply_one(name, entry);
            proof {
                let t = updates_view(us.take(i + 1));
                assert(t.drop_last() =~= updates_view(us.take(i as int)));
                assert(t.last() == update_view(us[i as int]));
            }
            i = i + 1;
        }
        proof {
            assert(us.take(us.len() as int) =~= us);
        }
    }
}

} // verus!
