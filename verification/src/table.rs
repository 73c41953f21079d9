//! A string-keyed map that keeps its keys in ascending order, so walking it
//! visits names in the same order every time.

use vstd::prelude::*;
use crate::text::{
    chars_of, compare_chars, lemma_seq_less_irreflexive, lemma_seq_less_total,
    lemma_seq_less_transitive, seq_less,
};

verus! {

/// A value that can be duplicated without changing what it means.
pub trait Dup: View + Sized {
    fn dup(&self) -> (r: Self)
        ensures
            r@ == self@,
    ;
}

pub open spec fn keys_sorted<V>(ps: Seq<(Seq<char>, V)>) -> bool {
    forall|i: int, j: int| 0 <= i < j < ps.len() ==> seq_less(#[trigger] ps[i].0, #[trigger] ps[j].0)
}

/// The map a sequence of (key, value) pairs describes.
pub open spec fn as_map<V>(ps: Seq<(Seq<char>, V)>) -> Map<Seq<char>, V>
    decreases ps.len(),
{
    if ps.len() == 0 {
        Map::empty()
    } else {
        as_map(ps.drop_last()).insert(ps.last().0, ps.last().1)
    }
}

pub proof fn lemma_as_map<V>(ps: Seq<(Seq<char>, V)>)
    requires
        keys_sorted(ps),
    ensures
        forall|k: Seq<char>|
            #[trigger] as_map(ps).contains_key(k) <==> exists|i: int| 0 <= i < ps.len() && ps[i].0 == k,
        forall|i: int| 0 <= i < ps.len() ==> #[trigger] as_map(ps)[ps[i].0] == ps[i].1,
        as_map(ps).dom().finite(),
        as_map(ps).dom().len() == ps.len(),
    decreases ps.len(),
{
    if ps.len() > 0 {
        let init = ps.drop_last();
        assert(keys_sorted(init));
        lemma_as_map(init);
        let last = ps.last();
        assert forall|i: int| 0 <= i < init.len() implies init[i].0 != last.0 by {
            assert(seq_less(ps[i].0, ps[ps.len() - 1].0));
            lemma_seq_less_irreflexive(last.0);
        }
        assert(!as_map(init).contains_key(last.0));
        assert forall|k: Seq<char>|
            #[trigger] as_map(ps).contains_key(k) <==> exists|i: int| 0 <= i < ps.len() && ps[i].0 == k by {
            if as_map(ps).contains_key(k) {
                if k == last.0 {
                    assert(ps[ps.len() - 1].0 == k);
                } else {
                    assert(as_map(init).contains_key(k));
                    let i = choose|i: int| 0 <= i < init.len() && init[i].0 == k;
                    assert(ps[i].0 == k);
                }
            }
            if exists|i: int| 0 <= i < ps.len() && ps[i].0 == k {
                let i = choose|i: int| 0 <= i < ps.len() && ps[i].0 == k;
                if i < ps.len() - 1 {
                    assert(init[i].0 == k);
                }
            }
        }
        assert forall|i: int| 0 <= i < ps.len() implies #[trigger] as_map(ps)[ps[i].0] == ps[i].1 by {
            if i < ps.len() - 1 {
                assert(init[i] == ps[i]);
            }
        }
    }
}

#[derive(Debug, PartialEq, Eq)]
pub struct Table<V: View> {
    entries: Vec<(String, V)>,
}

pub open spec fn entry_views<V: View>(es: Seq<(String, V)>) -> Seq<(Seq<char>, V::V)> {
    es.map_values(|e: (String, V)| (e.0@, e.1@))
}

impl<V: View> Table<V> {
    /// The entries as (key, value) views, in ascending key order.
    pub closed spec fn pairs(&self) -> Seq<(Seq<char>, V::V)> {
        entry_views(self.entries@)
    }

    #[verifier::type_invariant]
    closed spec fn sorted(&self) -> bool {
        keys_sorted(self.pairs())
    }
}

impl<V: View> View for Table<V> {
    type V = Map<Seq<char>, V::V>;

    open spec fn view(&self) -> Map<Seq<char>, V::V> {
        as_map(self.pairs())
    }
}

impl<V: View> Table<V> {
    pub fn new() -> (r: Self)
        ensures
            r@ == Map::<Seq<char>, V::V>::empty(),
            r.pairs().len() == 0,
    {
        let r = Table { entries: Vec::new() };
        proof {
            assert(r.pairs() =~= Seq::<(Seq<char>, V::V)>::empty());
        }
        r
    }

    /// Where `key` is, or where it would go.
    fn locate(&self, key: &Vec<char>) -> (r: (bool, usize))
        ensures
            r.1 <= self.pairs().len(),
            forall|j: int| 0 <= j < r.1 ==> seq_less(#[trigger] self.pairs()[j].0, key@),
            r.1 < self.pairs().len() ==> !seq_less(self.pairs()[r.1 as int].0, key@),
            r.0 <==> (r.1 < self.pairs().len() && self.pairs()[r.1 as int].0 == key@),
    {
        let mut i: usize = 0;
        while i < self.entries.len()
            invariant
                i <= self.entries.len(),
                self.pairs().len() == self.entries@.len(),
                forall|j: int| 0 <= j < i ==> seq_less(#[trigger] self.pairs()[j].0, key@),
            decreases self.entries.len() - i,
        {
            let k = chars_of(self.entries[i].0.as_str());
            proof {
                assert(self.pairs()[i as int].0 == k@);
            }
            let c = compare_chars(&k, key);
            if c >= 0 {
                return (c == 0, i);
            }
            i = i + 1;
        }
        (false, i)
    }

    proof fn lemma_absent(&self, key: Seq<char>, pos: int)
        requires
            keys_sorted(self.pairs()),
            0 <= pos <= self.pairs().len(),
            forall|j: int| 0 <= j < pos ==> seq_less(#[trigger] self.pairs()[j].0, key),
            pos < self.pairs().len() ==> seq_less(key, self.pairs()[pos].0),
        ensures
            forall|j: int| 0 <= j < self.pairs().len() ==> #[trigger] self.pairs()[j].0 != key,
    {
        assert forall|j: int| 0 <= j < self.pairs().len() implies #[trigger] self.pairs()[j].0 != key by {
            if j < pos {
                lemma_seq_less_irreflexive(key);
            } else if j == pos {
                lemma_seq_less_irreflexive(key);
            } else {
                assert(seq_less(self.pairs()[pos].0, self.pairs()[j].0));
                lemma_seq_less_transitive(key, self.pairs()[pos].0, self.pairs()[j].0);
                lemma_seq_less_irreflexive(key);
            }
        }
    }

    /// The number of entries, and the facts that let a caller walk them.
    pub fn len(&self) -> (r: usize)
        ensures
            r == self.pairs().len(),
            keys_sorted(self.pairs()),
            self@.dom().len() == r,
    {
        proof {
            use_type_invariant(self);
            lemma_as_map(self.pairs());
        }
        self.entries.len()
    }

    pub fn is_empty(&self) -> (r: bool)
        ensures
            r == (self.pairs().len() == 0),
            r == (self@.dom().len() == 0),
    {
        proof {
            use_type_invariant(self);
            lemma_as_map(self.pairs());
        }
        self.entries.len() == 0
    }

    /// The `i`th entry in key order.
    pub fn entry_at(&self, i: usize) -> (r: (&String, &V))
        requires
            i < self.pairs().len(),
        ensures
            (r.0@, r.1@) == self.pairs()[i as int],
            self@.contains_key(r.0@),
            self@[r.0@] == r.1@,
    {
        proof {
            use_type_invariant(self);
            lemma_as_map(self.pairs());
        }
        let e = &self.entries[i];
        (&e.0, &e.1)
    }

    pub fn get(&self, key: &str) -> (r: Option<&V>)
        ensures
            match r {
                Some(v) => self@.contains_key(key@) && self@[key@] == v@,
                None => !self@.contains_key(key@),
            },
    {
        proof {
            use_type_invariant(self);
            lemma_as_map(self.pairs());
        }
        let k = chars_of(key);
        let (found, pos) = self.locate(&k);
        if found {
            Some(&self.entries[pos].1)
        } else {
            proof {
                if pos < self.pairs().len() {
                    lemma_seq_less_total(k@, self.pairs()[pos as int].0);
                }
                self.lemma_absent(k@, pos as int);
            }
            None
        }
    }

    pub fn contains_key(&self, key: &str) -> (r: bool)
        ensures
            r == self@.contains_key(key@),
    {
        self.get(key).is_some()
    }

    /// Set `key` to `value`, replacing any value it had.
    pub fn insert(&mut self, key: String, value: V)
        ensures
            final(self)@ == old(self)@.insert(key@, value@),
    {
        proof {
            use_type_invariant(&*self);
            lemma_as_map(self.pairs());
        }
        let k = chars_of(key.as_str());
        let (found, pos) = self.locate(&k);
        let ghost old_pairs = self.pairs();
        let ghost kv = (key@, value@);
        if found {
            let mut es: Vec<(String, V)> = Vec::new();
            std::mem::swap(&mut es, &mut self.entries);
            es.set(pos, (key, value));
            proof {
                assert(entry_views(es@) =~= old_pairs.update(pos as int, kv));
                assert(keys_sorted(entry_views(es@)));
            }
            self.entries = es;
            proof {
                lemma_as_map(self.pairs());
                assert forall|q: Seq<char>| #[trigger] self@.contains_key(q) <==> old(self)@.insert(kv.0, kv.1).contains_key(q) by {
                    if old(self)@.contains_key(q) && q != kv.0 {
                        let i = choose|i: int| 0 <= i < old_pairs.len() && old_pairs[i].0 == q;
                        assert(self.pairs()[i].0 == q);
                    }
                    if q == kv.0 {
                        assert(self.pairs()[pos as int].0 == q);
                    }
                    if self@.contains_key(q) && q != kv.0 {
                        let i = choose|i: int| 0 <= i < self.pairs().len() && self.pairs()[i].0 == q;
                        assert(i != pos);
                        assert(old_pairs[i].0 == q);
                    }
                }
                assert forall|q: Seq<char>| #[trigger] self@.contains_key(q) implies self@[q] == old(self)@.insert(kv.0, kv.1)[q] by {
                    let i = choose|i: int| 0 <= i < self.pairs().len() && self.pairs()[i].0 == q;
                    if i != pos {
                        assert(old_pairs[i] == self.pairs()[i]);
                    }
                }
                assert(self@ =~= old(self)@.insert(kv.0, kv.1));
            }
        } else {
            proof {
                if pos < old_pairs.len() {
                    lemma_seq_less_total(k@, old_pairs[pos as int].0);
                }
                self.lemma_absent(k@, pos as int);
            }
            let mut es: Vec<(String, V)> = Vec::new();
            std::mem::swap(&mut es, &mut self.entries);
            es.insert(pos, (key, value));
            proof {
                assert forall|j: int| pos <= j < old_pairs.len() implies seq_less(kv.0, #[trigger] old_pairs[j].0) by {
                    assert(seq_less(k@, old_pairs[pos as int].0));
                    if j > pos {
                        assert(seq_less(old_pairs[pos as int].0, old_pairs[j].0));
                        lemma_seq_less_transitive(kv.0, old_pairs[pos as int].0, old_pairs[j].0);
                    }
                }
                let np = entry_views(es@);
                assert(np =~= old_pairs.insert(pos as int, kv));
                assert forall|i: int, j: int| 0 <= i < j < np.len() implies seq_less(#[trigger] np[i].0, #[trigger] np[j].0) by {
                    if j < pos {
                    } else if j == pos {
                    } else if i < pos {
                        assert(np[j] == old_pairs[j - 1]);
                        assert(seq_less(kv.0, old_pairs[j - 1].0));
                        assert(np[i] == old_pairs[i]);
                        lemma_seq_less_transitive(np[i].0, kv.0, np[j].0);
                    } else if i == pos {
                        assert(np[j] == old_pairs[j - 1]);
                        assert(seq_less(kv.0, old_pairs[j - 1].0));
                    } else {
                        assert(np[i] == old_pairs[i - 1]);
                        assert(np[j] == old_pairs[j - 1]);
                    }
                }
            }
            self.entries = es;
            proof {
                lemma_as_map(self.pairs());
                assert forall|q: Seq<char>| #[trigger] self@.contains_key(q) <==> old(self)@.insert(kv.0, kv.1).contains_key(q) by {
                    if self@.contains_key(q) {
                        let i = choose|i: int| 0 <= i < self.pairs().len() && self.pairs()[i].0 == q;
                        if i < pos {
                            assert(old_pairs[i].0 == q);
                        } else if i > pos {
                            assert(old_pairs[i - 1].0 == q);
                        }
                    }
                    if old(self)@.contains_key(q) && q != kv.0 {
                        let i = choose|i: int| 0 <= i < old_pairs.len() && old_pairs[i].0 == q;
                        if i < pos {
                            assert(self.pairs()[i].0 == q);
                        } else {
                            assert(self.pairs()[i + 1].0 == q);
                        }
                    }
                    if q == kv.0 {
                        assert(self.pairs()[pos as int].0 == q);
                    }
                }
                assert forall|q: Seq<char>| #[trigger] self@.contains_key(q) implies self@[q] == old(self)@.insert(kv.0, kv.1)[q] by {
                    let i = choose|i: int| 0 <= i < self.pairs().len() && self.pairs()[i].0 == q;
                    if i < pos {
                        assert(old_pairs[i] == self.pairs()[i]);
                    } else if i > pos {
                        assert(old_pairs[i - 1] == self.pairs()[i]);
                    }
                }
                assert(self@ =~= old(self)@.insert(kv.0, kv.1));
            }
        }
    }

    /// Take `key` out, returning its value if it had one.
    pub fn remove(&mut self, key: &str) -> (r: Option<V>)
        ensures
            final(self)@ == old(self)@.remove(key@),
            match r {
                Some(v) => old(self)@.contains_key(key@) && old(self)@[key@] == v@,
                None => !old(self)@.contains_key(key@),
            },
    {
        proof {
            use_type_invariant(&*self);
            lemma_as_map(self.pairs());
        }
        let k = chars_of(key);
        let (found, pos) = self.locate(&k);
        let ghost old_pairs = self.pairs();
        if found {
            let mut es: Vec<(String, V)> = Vec::new();
            std::mem::swap(&mut es, &mut self.entries);
            let (_, v) = es.remove(pos);
            proof {
                let np = entry_views(es@);
                assert(np =~= old_pairs.remove(pos as int));
                assert forall|i: int, j: int| 0 <= i < j < np.len() implies seq_less(#[trigger] np[i].0, #[trigger] np[j].0) by {
                    if i < pos && j >= pos {
                        assert(np[j] == old_pairs[j + 1]);
                    } else if i >= pos {
                        assert(np[i] == old_pairs[i + 1]);
                        assert(np[j] == old_pairs[j + 1]);
                    }
                }
            }
            self.entries = es;
            proof {
                lemma_as_map(self.pairs());
                assert forall|q: Seq<char>| #[trigger] self@.contains_key(q) <==> old(self)@.remove(key@).contains_key(q) by {
                    if self@.contains_key(q) {
                        let i = choose|i: int| 0 <= i < self.pairs().len() && self.pairs()[i].0 == q;
                        if i < pos {
                            assert(old_pairs[i].0 == q);
                            assert(seq_less(q, key@));
                            lemma_seq_less_irreflexive(q);
                        } else {
                            assert(old_pairs[i + 1].0 == q);
                            assert(seq_less(old_pairs[pos as int].0, old_pairs[i + 1].0));
                            lemma_seq_less_irreflexive(q);
                        }
                    }
                    if old(self)@.contains_key(q) && q != key@ {
                        let i = choose|i: int| 0 <= i < old_pairs.len() && old_pairs[i].0 == q;
                        if i < pos {
                            assert(self.pairs()[i].0 == q);
                        } else {
                            assert(i != pos);
                            assert(self.pairs()[i - 1].0 == q);
                        }
                    }
                }
                assert forall|q: Seq<char>| #[trigger] self@.contains_key(q) implies self@[q] == old(self)@.remove(key@)[q] by {
                    let i = choose|i: int| 0 <= i < self.pairs().len() && self.pairs()[i].0 == q;
                    if i < pos {
                        assert(old_pairs[i] == self.pairs()[i]);
                    } else {
                        assert(old_pairs[i + 1] == self.pairs()[i]);
                    }
                }
                assert(self@ =~= old(self)@.remove(key@));
            }
            Some(v)
        } else {
            proof {
                if pos < old_pairs.len() {
                    lemma_seq_less_total(k@, old_pairs[pos as int].0);
                }
                self.lemma_absent(k@, pos as int);
                assert(self@ =~= old(self)@.remove(key@));
            }
            None
        }
    }

    /// The keys in ascending order.
    pub fn keys(&self) -> (r: Vec<String>)
        ensures
            r@.len() == self.pairs().len(),
            forall|j: int| 0 <= j < r@.len() ==> #[trigger] r@[j]@ == self.pairs()[j].0,
            forall|j: int| 0 <= j < r@.len() ==> self@.contains_key(#[trigger] r@[j]@),
            forall|k: Seq<char>| #[trigger] self@.contains_key(k) ==> exists|j: int| 0 <= j < r@.len() && r@[j]@ == k,
            forall|i: int, j: int| 0 <= i < j < r@.len() ==> seq_less(#[trigger] r@[i]@, #[trigger] r@[j]@),
    {
        proof {
            use_type_invariant(self);
            lemma_as_map(self.pairs());
        }
        let mut r: Vec<String> = Vec::new();
        let mut i: usize = 0;
        while i < self.entries.len()
            invariant
                i <= self.entries.len(),
                self.pairs().len() == self.entries@.len(),
                r@.len() == i,
                forall|j: int| 0 <= j < i ==> #[trigger] r@[j]@ == self.pairs()[j].0,
            decreases self.entries.len() - i,
        {
            r.push(self.entries[i].0.clone());
            i = i + 1;
        }
        proof {
            assert forall|j: int| 0 <= j < r@.len() implies self@.contains_key(#[trigger] r@[j]@) by {
                assert(self.pairs()[j].0 == r@[j]@);
            }
            assert forall|k: Seq<char>| #[trigger] self@.contains_key(k) implies exists|j: int| 0 <= j < r@.len() && r@[j]@ == k by {
                let j = choose|j: int| 0 <= j < self.pairs().len() && self.pairs()[j].0 == k;
                assert(r@[j]@ == k);
            }
            assert forall|i: int, j: int| 0 <= i < j < r@.len() implies seq_less(#[trigger] r@[i]@, #[trigger] r@[j]@) by {
                assert(r@[i]@ == self.pairs()[i].0);
                assert(r@[j]@ == self.pairs()[j].0);
            }
        }
        r
    }
}

impl<V: Dup> Table<V> {
    pub fn dup_table(&self) -> (r: Self)
        ensures
            r@ == self@,
            r.pairs() == self.pairs(),
    {
        proof {
            use_type_invariant(self);
        }
        let mut out: Vec<(String, V)> = Vec::new();
        let mut i: usize = 0;
        while i < self.entries.len()
            invariant
                i <= self.entries.len(),
                out@.len() == i,
                forall|j: int| 0 <= j < i ==> (#[trigger] out@[j]).0@ == self.entries@[j].0@ && out@[j].1@ == self.entries@[j].1@,
            decreases self.entries.len() - i,
        {
            let e = &self.entries[i];
            out.push((e.0.clone(), e.1.dup()));
            i = i + 1;
        }
        proof {
            assert(entry_views(out@) =~= self.pairs());
        }
        let r = Table { entries: out };
        r
    }
}

impl<V: Dup> Dup for Table<V> {
    fn dup(&self) -> (r: Self) {
        self.dup_table()
    }
}

} // verus!
