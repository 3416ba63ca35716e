//! A set of parameter names kept in increasing order, each once.
use vstd::prelude::*;

use crate::state::strictly_sorted;
use crate::text::{chars_of, compare_chars, copy_string, lemma_text_lt_irreflexive,
    lemma_text_lt_transitive, text_lt, TextOrder};

verus! {

/// Parameter names in increasing order, without repeats.
pub struct NameSet {
    names: Vec<String>,
}

/// The views of a sequence of strings.
pub open spec fn texts(v: Seq<String>) -> Seq<Seq<char>> {
    v.map_values(|s: String| s@)
}

impl View for NameSet {
    type V = Set<Seq<char>>;

    closed spec fn view(&self) -> Set<Seq<char>> {
        texts(self.names@).to_set()
    }
}

proof fn lemma_push_to_set(t: Seq<Seq<char>>, x: Seq<char>)
    ensures
        t.push(x).to_set() == t.to_set().insert(x),
{
    Seq::lemma_to_set_insert_commutes(t, x);
    assert(t + seq![x] =~= t.push(x));
}

impl NameSet {
    /// The set's invariant: its names strictly increase.
    pub closed spec fn wf(&self) -> bool {
        strictly_sorted(texts(self.names@))
    }

    /// The names in increasing order.
    pub closed spec fn listing(&self) -> Seq<Seq<char>> {
        texts(self.names@)
    }

    /// The listing increases strictly and holds exactly the set's names.
    pub proof fn lemma_listing(&self)
        requires
            self.wf(),
        ensures
            strictly_sorted(self.listing()),
            forall|k: Seq<char>| self@.contains(k) <==> self.listing().contains(k),
    {
    }

    /// The empty set.
    pub fn new() -> (s: Self)
        ensures
            s.wf(),
            s@ == Set::<Seq<char>>::empty(),
    {
        let s = NameSet { names: Vec::new() };
        assert(texts(s.names@) =~= Seq::empty());
        assert(s@ =~= Set::<Seq<char>>::empty());
        s
    }

    /// Whether the set is empty.
    pub fn is_empty(&self) -> (r: bool)
        requires
            self.wf(),
        ensures
            r == (self@ == Set::<Seq<char>>::empty()),
    {
        proof {
            if self.names@.len() > 0 {
                assert(self@.contains(texts(self.names@)[0]));
            } else {
                assert(texts(self.names@) =~= Seq::empty());
                assert(self@ =~= Set::<Seq<char>>::empty());
            }
        }
        self.names.len() == 0
    }

    /// Adds `name`.
    pub fn insert(&mut self, name: &String)
        requires
            old(self).wf(),
        ensures
            final(self).wf(),
            final(self)@ == old(self)@.insert(name@),
    {
        let key = chars_of(name.as_str());
        let ghost old_ns = texts(self.names@);
        let mut i: usize = 0;
        while i < self.names.len()
            invariant
                self.wf(),
                key@ == name@,
                old_ns == texts(old(self).names@),
                texts(self.names@) == old_ns,
                self.names@.len() == old_ns.len(),
                i <= self.names@.len(),
                forall|j: int| 0 <= j < i ==> text_lt(#[trigger] old_ns[j], key@),
            ensures
                self.wf(),
                texts(self.names@) == old_ns,
                self.names@.len() == old_ns.len(),
                i <= self.names@.len(),
                forall|j: int| 0 <= j < i ==> text_lt(#[trigger] old_ns[j], key@),
                i < self.names@.len() ==> text_lt(key@, old_ns[i as int]),
            decreases self.names.len() - i,
        {
            let here = chars_of(self.names[i].as_str());
            assert(here@ == old_ns[i as int]);
            match compare_chars(&here, &key) {
                TextOrder::Equal => {
                    proof {
                        assert(old_ns[i as int] == key@);
                        assert(old_ns.contains(key@));
                        assert(old_ns.to_set().contains(key@));
                        assert(old_ns.to_set().insert(key@) =~= old_ns.to_set());
                    }
                    return;
                },
                TextOrder::Greater => {
                    break;
                },
                TextOrder::Less => {},
            }
            i = i + 1;
        }
        let p = i;
        proof {
            assert forall|j: int| p <= j < old_ns.len() implies text_lt(key@, #[trigger] old_ns[j]) by {
                if j > p {
                    lemma_text_lt_transitive(key@, old_ns[p as int], old_ns[j]);
                }
            }
        }
        self.names.insert(p, copy_string(name));
        let ghost new_ns = texts(self.names@);
        proof {
            assert(new_ns =~= old_ns.insert(p as int, key@));
            assert forall|a: int, b: int| 0 <= a < b < new_ns.len() implies text_lt(#[trigger] new_ns[a], #[trigger] new_ns[b]) by {
                if a < p && b < p {
                    assert(text_lt(old_ns[a], old_ns[b]));
                } else if a < p && b == p {
                } else if a < p {
                    assert(text_lt(old_ns[a], old_ns[b - 1]));
                } else if a == p {
                } else {
                    assert(text_lt(old_ns[a - 1], old_ns[b - 1]));
                }
            }
            assert forall|k: Seq<char>| new_ns.contains(k) <==> old_ns.contains(k) || k == key@ by {
                if new_ns.contains(k) {
                    let j = choose|j: int| 0 <= j < new_ns.len() && new_ns[j] == k;
                    if j < p {
                        assert(old_ns[j] == k);
                    } else if j > p {
                        assert(old_ns[j - 1] == k);
                    }
                }
                if old_ns.contains(k) {
                    let j = choose|j: int| 0 <= j < old_ns.len() && old_ns[j] == k;
                    if j < p {
                        assert(new_ns[j] == k);
                    } else {
                        assert(new_ns[j + 1] == k);
                    }
                }
                if k == key@ {
                    assert(new_ns[p as int] == k);
                }
            }
            assert(new_ns.to_set() =~= old_ns.to_set().insert(key@));
        }
    }

    /// Adds every name of `names`.
    pub fn extend(&mut self, names: &Vec<String>)
        requires
            old(self).wf(),
        ensures
            final(self).wf(),
            final(self)@ == old(self)@.union(texts(names@).to_set()),
    {
        let ghost start = self@;
        let mut i: usize = 0;
        while i < names.len()
            invariant
                self.wf(),
                i <= names@.len(),
                self@ == start.union(texts(names@.take(i as int)).to_set()),
            decreases names.len() - i,
        {
            self.insert(&names[i]);
            proof {
                assert(texts(names@.take(i + 1)) =~= texts(names@.take(i as int)).push(names@[i as int]@));
                lemma_push_to_set(texts(names@.take(i as int)), names@[i as int]@);
            }
            i = i + 1;
        }
        assert(names@.take(names@.len() as int) =~= names@);
        assert(self@ =~= start.union(texts(names@).to_set()));
    }

    /// The names in increasing order.
    pub fn to_vec(&self) -> (r: Vec<String>)
        ensures
            texts(r@) == self.listing(),
    {
        let mut r: Vec<String> = Vec::new();
        let mut i: usize = 0;
        while i < self.names.len()
            invariant
                i <= self.names@.len(),
                texts(r@) == texts(self.names@).take(i as int),
            decreases self.names.len() - i,
        {
            let ghost before = r@;
            r.push(copy_string(&self.names[i]));
            assert(texts(r@) =~= texts(before).push(self.names@[i as int]@));
            assert(texts(self.names@).take(i + 1) =~= texts(self.names@).take(i as int).push(self.names@[i as int]@));
            i = i + 1;
        }
        assert(texts(self.names@).take(self.names@.len() as int) =~= texts(self.names@));
        r
    }
}

} // verus!
