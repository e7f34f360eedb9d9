//! Environment overrides: string keys in strictly increasing order, each with one value.
use crate::text::{lemma_lex_irreflexive, lemma_lex_total, lemma_lex_transitive, lex_less, lex_lt};
use vstd::prelude::*;

verus! {

/// Keys strictly increase, so each key occurs once and iteration follows key order.
pub open spec fn sorted_entries(entries: Seq<(Seq<char>, Seq<char>)>) -> bool {
    forall|i: int, j: int| 0 <= i < j < entries.len() ==> lex_lt(entries[i].0, entries[j].0)
}

/// The characters of each key and value.
pub open spec fn entries_view(v: Seq<(String, String)>) -> Seq<(Seq<char>, Seq<char>)> {
    v.map_values(|e: (String, String)| (e.0@, e.1@))
}

/// The entries after setting `key` to `value`: the value of an existing key is replaced,
/// otherwise the entry is placed before the first larger key.
pub open spec fn spec_insert(
    entries: Seq<(Seq<char>, Seq<char>)>,
    key: Seq<char>,
    value: Seq<char>,
) -> Seq<(Seq<char>, Seq<char>)> {
    let p = position_for(entries, key);
    if p < entries.len() && entries[p].0 == key {
        entries.update(p, (key, value))
    } else {
        entries.insert(p, (key, value))
    }
}

/// The number of keys that sort before `key`.
pub open spec fn position_for(entries: Seq<(Seq<char>, Seq<char>)>, key: Seq<char>) -> int
    decreases entries.len(),
{
    if entries.len() == 0 {
        0
    } else if lex_lt(entries[0].0, key) {
        1 + position_for(entries.drop_first(), key)
    } else {
        0
    }
}

/// The entries whose flag in `keep` is set, in order.
pub open spec fn select<T>(entries: Seq<T>, keep: Seq<bool>) -> Seq<T>
    decreases entries.len(),
{
    if entries.len() == 0 || keep.len() == 0 {
        Seq::empty()
    } else if keep.last() {
        select(entries.drop_last(), keep.drop_last()).push(entries.last())
    } else {
        select(entries.drop_last(), keep.drop_last())
    }
}

/// The map from each key to its value.
pub open spec fn entries_map(entries: Seq<(Seq<char>, Seq<char>)>) -> Map<Seq<char>, Seq<char>>
    decreases entries.len(),
{
    if entries.len() == 0 {
        Map::empty()
    } else {
        entries_map(entries.drop_last()).insert(entries.last().0, entries.last().1)
    }
}

/// Ordered environment overrides, as a `BTreeMap<String, String>` holds them.
#[derive(Debug)]
pub struct Environment {
    entries: Vec<(String, String)>,
}

impl Environment {
    #[verifier::type_invariant]
    spec fn inv(self) -> bool {
        sorted_entries(entries_view(self.entries@))
    }

    /// The entries in key order.
    pub closed spec fn view(&self) -> Seq<(Seq<char>, Seq<char>)> {
        entries_view(self.entries@)
    }

    /// An environment with no entries.
    pub fn new() -> (e: Self)
        ensures
            e@ == Seq::<(Seq<char>, Seq<char>)>::empty(),
    {
        let e = Environment { entries: Vec::new() };
        assert(e@ =~= Seq::<(Seq<char>, Seq<char>)>::empty());
        e
    }

    /// The number of entries.
    pub fn len(&self) -> (n: usize)
        ensures
            n == self@.len(),
    {
        self.entries.len()
    }

    /// The key of entry `i`.
    pub fn key(&self, i: usize) -> (k: &str)
        requires
            i < self@.len(),
        ensures
            k@ == self@[i as int].0,
    {
        self.entries[i].0.as_str()
    }

    /// The value of entry `i`.
    pub fn value(&self, i: usize) -> (v: &str)
        requires
            i < self@.len(),
        ensures
            v@ == self@[i as int].1,
    {
        self.entries[i].1.as_str()
    }

    /// Remove every entry.
    pub fn clear(&mut self)
        ensures
            final(self)@ == Seq::<(Seq<char>, Seq<char>)>::empty(),
    {
        self.entries = Vec::new();
        assert(self@ =~= Seq::<(Seq<char>, Seq<char>)>::empty());
    }

    /// Set `key` to `value`, replacing the value of an existing key.
    pub fn insert(&mut self, key: String, value: String)
        ensures
            final(self)@ == spec_insert(old(self)@, key@, value@),
    {
        proof {
            use_type_invariant(&*self);
        }
        let ghost old_entries = self@;
        let mut p: usize = 0;
        assert(old_entries.skip(0) =~= old_entries);
        while p < self.entries.len() && lex_less(self.entries[p].0.as_str(), key.as_str())
            invariant
                p <= self@.len(),
                self@ == old_entries,
                sorted_entries(old_entries),
                forall|j: int| 0 <= j < p ==> lex_lt(old_entries[j].0, key@),
                position_for(old_entries, key@) == p + position_for(old_entries.skip(p as int), key@),
            decreases self@.len() - p,
        {
            assert(old_entries.skip(p as int).drop_first() =~= old_entries.skip(p + 1));
            p = p + 1;
        }
        proof {
            if p < old_entries.len() {
                assert(old_entries.skip(p as int)[0] == old_entries[p as int]);
            }
            assert(position_for(old_entries, key@) == p);
        }
        let ghost k = key@;
        let ghost v = value@;
        if p < self.entries.len() && self.entries[p].0 == key {
            let entry = (key, value);
            let mut entries: Vec<(String, String)> = Vec::new();
            std::mem::swap(&mut entries, &mut self.entries);
            entries.set(p, entry);
            proof {
                assert(entries_view(entries@) =~= old_entries.update(p as int, (k, v)));
            }
            self.entries = entries;
        } else {
            proof {
                // Every later key sorts after the new one.
                assert forall|j: int| p <= j < old_entries.len() implies lex_lt(k, old_entries[j].0) by {
                    if p < old_entries.len() {
                        lemma_lex_total(old_entries[p as int].0, k);
                        if j > p {
                            lemma_lex_transitive(k, old_entries[p as int].0, old_entries[j].0);
                        }
                    }
                }
            }
            let mut entries: Vec<(String, String)> = Vec::new();
            std::mem::swap(&mut entries, &mut self.entries);
            entries.insert(p, (key, value));
            proof {
                assert(entries_view(entries@) =~= old_entries.insert(p as int, (k, v)));
                let e = old_entries.insert(p as int, (k, v));
                assert forall|i: int, j: int| 0 <= i < j < e.len() implies lex_lt(e[i].0, e[j].0) by {
                    if j < p {
                        assert(e[i] == old_entries[i] && e[j] == old_entries[j]);
                    } else if i < p && j == p {
                    } else if i < p && j > p {
                        assert(e[j] == old_entries[j - 1]);
                    } else if i == p {
                        assert(e[j] == old_entries[j - 1]);
                    } else {
                        assert(e[i] == old_entries[i - 1] && e[j] == old_entries[j - 1]);
                    }
                }
            }
            self.entries = entries;
        }
    }

    /// Keep only the entries whose flag in `keep` is set.
    pub fn retain_flagged(&mut self, keep: &[bool])
        requires
            keep@.len() == old(self)@.len(),
        ensures
            final(self)@ == select(old(self)@, keep@),
    {
        proof {
            use_type_invariant(&*self);
        }
        let ghost old_entries = self@;
        let mut source: Vec<(String, String)> = Vec::new();
        std::mem::swap(&mut source, &mut self.entries);
        assert(entries_view(source@) == old_entries);
        let mut kept: Vec<(String, String)> = Vec::new();
        let ghost mut kept_index: Seq<int> = Seq::empty();
        let mut i: usize = 0;
        while i < source.len()
            invariant
                i <= source@.len(),
                keep@.len() == source@.len(),
                entries_view(source@) == old_entries,
                sorted_entries(old_entries),
                entries_view(kept@) == select(old_entries.take(i as int), keep@.take(i as int)),
                kept_index.len() == kept@.len(),
                forall|a: int| 0 <= a < kept_index.len() ==> 0 <= #[trigger] kept_index[a] < i,
                forall|a: int, b: int| 0 <= a < b < kept_index.len() ==> kept_index[a] < kept_index[b],
                forall|a: int| 0 <= a < kept_index.len() ==> entries_view(kept@)[a] == old_entries[#[trigger] kept_index[a]],
            decreases source@.len() - i,
        {
            assert(old_entries.take(i + 1).drop_last() =~= old_entries.take(i as int));
            assert(keep@.take(i + 1).drop_last() =~= keep@.take(i as int));
            if keep[i] {
                let key = source[i].0.clone();
                let value = source[i].1.clone();
                kept.push((key, value));
                proof {
                    kept_index = kept_index.push(i as int);
                }
                assert(entries_view(kept@) =~= select(old_entries.take(i as int), keep@.take(i as int)).push(old_entries[i as int]));
            } else {
                assert(entries_view(kept@) =~= select(old_entries.take(i as int), keep@.take(i as int)));
            }
            i = i + 1;
        }
        assert(old_entries.take(source@.len() as int) =~= old_entries);
        assert(keep@.take(source@.len() as int) =~= keep@);
        assert(sorted_entries(entries_view(kept@))) by {
            assert forall|a: int, b: int| 0 <= a < b < entries_view(kept@).len() implies lex_lt(
                entries_view(kept@)[a].0,
                entries_view(kept@)[b].0,
            ) by {
                assert(kept_index[a] < kept_index[b]);
                assert(entries_view(kept@)[a] == old_entries[kept_index[a]]);
                assert(entries_view(kept@)[b] == old_entries[kept_index[b]]);
            }
        }
        self.entries = kept;
    }

    /// Whether both environments hold the same entries.
    pub fn same_as(&self, other: &Environment) -> (r: bool)
        ensures
            r == (self@ == other@),
    {
        if self.entries.len() != other.entries.len() {
            return false;
        }
        let mut i: usize = 0;
        while i < self.entries.len()
            invariant
                self@.len() == other@.len(),
                i <= self@.len(),
                forall|j: int| 0 <= j < i ==> self@[j] == other@[j],
            decreases self@.len() - i,
        {
            if self.entries[i].0 != other.entries[i].0 || self.entries[i].1 != other.entries[i].1 {
                assert(self@[i as int] != other@[i as int]);
                return false;
            }
            i = i + 1;
        }
        assert(self@ =~= other@);
        true
    }

    /// A copy holding the same entries.
    pub fn duplicate(&self) -> (r: Self)
        ensures
            r@ == self@,
    {
        proof {
            use_type_invariant(self);
        }
        let mut entries: Vec<(String, String)> = Vec::new();
        let mut i: usize = 0;
        while i < self.entries.len()
            invariant
                i <= self@.len(),
                entries@.len() == i,
                forall|j: int| 0 <= j < i ==> entries_view(entries@)[j] == #[trigger] self@[j],
            decreases self@.len() - i,
        {
            let key = self.entries[i].0.clone();
            let value = self.entries[i].1.clone();
            entries.push((key, value));
            i = i + 1;
        }
        assert(entries_view(entries@) =~= self@);
        Environment { entries }
    }
}

impl Clone for Environment {
    fn clone(&self) -> (r: Self)
        ensures
            r@ == self@,
    {
        self.duplicate()
    }
}

} // verus!
