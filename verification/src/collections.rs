//! Sets and ordered maps of strings.

use vstd::prelude::*;

use crate::text::{
    comes_before, lemma_precedes_irreflexive, lemma_precedes_total, lemma_precedes_transitive,
    precedes, same_text, texts,
};

verus! {

/// A set of strings.
#[derive(Debug)]
pub struct StringSet {
    items: Vec<String>,
}

impl View for StringSet {
    type V = Set<Seq<char>>;

    closed spec fn view(&self) -> Set<Seq<char>> {
        texts(self.items@).to_set()
    }
}

impl StringSet {
    /// No string occurs twice.
    #[verifier::type_invariant]
    spec fn well_formed(self) -> bool {
        texts(self.items@).no_duplicates()
    }

    /// The empty set.
    pub fn new() -> (r: Self)
        ensures
            r@ == Set::<Seq<char>>::empty(),
    {
        let items: Vec<String> = Vec::new();
        assert(texts(items@).to_set() =~= Set::<Seq<char>>::empty());
        StringSet { items }
    }

    /// The number of strings in the set.
    pub fn len(&self) -> (r: usize)
        ensures
            r == self@.len(),
            self@.finite(),
    {
        proof {
            use_type_invariant(self);
            texts(self.items@).unique_seq_to_set();
            vstd::seq_lib::seq_to_set_is_finite(texts(self.items@));
        }
        self.items.len()
    }

    /// Whether the set is empty.
    pub fn is_empty(&self) -> (r: bool)
        ensures
            r == (self@ == Set::<Seq<char>>::empty()),
    {
        proof {
            if self.items@.len() > 0 {
                assert(texts(self.items@).contains(texts(self.items@)[0]));
                assert(self@.contains(texts(self.items@)[0]));
            } else {
                assert(self@ =~= Set::<Seq<char>>::empty());
            }
        }
        self.items.len() == 0
    }

    /// Whether the set holds the string.
    pub fn contains(&self, item: &str) -> (r: bool)
        ensures
            r == self@.contains(item@),
    {
        crate::text::list_contains(&self.items, item)
    }

    /// Adds the string.
    pub fn insert(&mut self, item: String)
        ensures
            final(self)@ == old(self)@.insert(item@),
    {
        proof {
            use_type_invariant(&*self);
        }
        if self.contains(item.as_str()) {
            assert(self@.insert(item@) =~= self@);
            return;
        }
        let mut items: Vec<String> = Vec::new();
        std::mem::swap(&mut self.items, &mut items);
        let ghost before = texts(items@);
        let ghost added = item@;
        items.push(item);
        proof {
            assert(texts(items@) =~= before.push(added));
            before.lemma_push_to_set_commute(added);
            assert(texts(items@).no_duplicates());
        }
        self.items = items;
    }

    /// Removes the string; tells whether it was there.
    pub fn remove(&mut self, item: &str) -> (r: bool)
        ensures
            r == old(self)@.contains(item@),
            final(self)@ == old(self)@.remove(item@),
    {
        proof {
            use_type_invariant(&*self);
        }
        let mut i: usize = 0;
        while i < self.items.len()
            invariant
                i <= self.items@.len(),
                *self == *old(self),
                texts(self.items@).no_duplicates(),
                forall|k: int| 0 <= k < i ==> texts(self.items@)[k] != item@,
            decreases self.items@.len() - i,
        {
            if same_text(self.items[i].as_str(), item) {
                let mut items: Vec<String> = Vec::new();
                std::mem::swap(&mut self.items, &mut items);
                let ghost before = texts(items@);
                items.remove(i);
                proof {
                    let after = texts(items@);
                    assert(after =~= before.remove(i as int));
                    assert(before[i as int] == item@);
                    assert(after.no_duplicates());
                    assert forall|s: Seq<char>| after.to_set().contains(s) <==> before.to_set().remove(
                        item@,
                    ).contains(s) by {
                        if before.contains(s) && s != item@ {
                            let k = choose|k: int| 0 <= k < before.len() && before[k] == s;
                            if k < i {
                                assert(after[k] == s);
                            } else {
                                assert(after[k - 1] == s);
                            }
                        }
                        if after.contains(s) {
                            let k = choose|k: int| 0 <= k < after.len() && after[k] == s;
                            if k < i {
                                assert(before[k] == s);
                            } else {
                                assert(before[k + 1] == s);
                            }
                        }
                    }
                    assert(after.to_set() =~= before.to_set().remove(item@));
                    assert(before.to_set().contains(item@));
                }
                self.items = items;
                return true;
            }
            i = i + 1;
        }
        assert(self@.remove(item@) =~= self@);
        false
    }

    /// Adds every string of the list.
    pub fn insert_all(&mut self, list: &Vec<String>)
        ensures
            final(self)@ == old(self)@.union(texts(list@).to_set()),
    {
        let mut i: usize = 0;
        assert(self@.union(texts(list@).take(0).to_set()) =~= self@);
        while i < list.len()
            invariant
                i <= list@.len(),
                self@ == old(self)@.union(texts(list@).take(i as int).to_set()),
            decreases list@.len() - i,
        {
            self.insert(list[i].clone());
            proof {
                let all = texts(list@);
                assert(all.take(i + 1) =~= all.take(i as int).push(all[i as int]));
                all.take(i as int).lemma_push_to_set_commute(all[i as int]);
                assert(self@ =~= old(self)@.union(all.take(i + 1).to_set()));
            }
            i = i + 1;
        }
        assert(texts(list@).take(i as int) =~= texts(list@));
    }

    /// Removes every string of the list.
    pub fn remove_all(&mut self, list: &Vec<String>)
        ensures
            final(self)@ == old(self)@.difference(texts(list@).to_set()),
    {
        let mut i: usize = 0;
        assert(self@.difference(texts(list@).take(0).to_set()) =~= self@);
        while i < list.len()
            invariant
                i <= list@.len(),
                self@ == old(self)@.difference(texts(list@).take(i as int).to_set()),
            decreases list@.len() - i,
        {
            self.remove(list[i].as_str());
            proof {
                let all = texts(list@);
                assert(all.take(i + 1) =~= all.take(i as int).push(all[i as int]));
                all.take(i as int).lemma_push_to_set_commute(all[i as int]);
                assert(self@ =~= old(self)@.difference(all.take(i + 1).to_set()));
            }
            i = i + 1;
        }
        assert(texts(list@).take(i as int) =~= texts(list@));
    }

    /// Whether the set holds every string of the list.
    pub fn contains_all(&self, list: &Vec<String>) -> (r: bool)
        ensures
            r == texts(list@).to_set().subset_of(self@),
    {
        let mut i: usize = 0;
        while i < list.len()
            invariant
                i <= list@.len(),
                forall|k: int| 0 <= k < i ==> self@.contains(#[trigger] texts(list@)[k]),
            decreases list@.len() - i,
        {
            if !self.contains(list[i].as_str()) {
                assert(texts(list@).contains(texts(list@)[i as int]));
                assert(texts(list@).to_set().contains(texts(list@)[i as int]));
                return false;
            }
            i = i + 1;
        }
        true
    }
}

/// The keys of the entries are in strictly increasing order.
pub open spec fn in_key_order(entries: Seq<(Seq<char>, Seq<char>)>) -> bool {
    forall|i: int, j: int|
        0 <= i < j < entries.len() ==> precedes(#[trigger] entries[i].0, #[trigger] entries[j].0)
}

/// The entries with the key's value set.
pub open spec fn with_entry(
    entries: Seq<(Seq<char>, Seq<char>)>,
    key: Seq<char>,
    value: Seq<char>,
) -> Seq<(Seq<char>, Seq<char>)>
    decreases entries.len(),
{
    if entries.len() == 0 || precedes(key, entries[0].0) {
        seq![(key, value)] + entries
    } else if entries[0].0 == key {
        seq![(key, value)] + entries.drop_first()
    } else {
        seq![entries[0]] + with_entry(entries.drop_first(), key, value)
    }
}

/// The value of the key.
pub open spec fn entry_of(entries: Seq<(Seq<char>, Seq<char>)>, key: Seq<char>) -> Option<Seq<char>>
    decreases entries.len(),
{
    if entries.len() == 0 {
        None
    } else if entries[0].0 == key {
        Some(entries[0].1)
    } else {
        entry_of(entries.drop_first(), key)
    }
}

/// Setting a key gives that key the value and leaves the others alone.
pub proof fn setting_an_entry(
    entries: Seq<(Seq<char>, Seq<char>)>,
    key: Seq<char>,
    value: Seq<char>,
    other: Seq<char>,
)
    requires
        in_key_order(entries),
    ensures
        in_key_order(with_entry(entries, key, value)),
        entry_of(with_entry(entries, key, value), other) == if other == key {
            Some(value)
        } else {
            entry_of(entries, other)
        },
    decreases entries.len(),
{
    let result = with_entry(entries, key, value);
    if entries.len() == 0 || precedes(key, entries[0].0) {
        assert(result.drop_first() =~= entries);
        assert forall|i: int, j: int| 0 <= i < j < result.len() implies precedes(
            #[trigger] result[i].0,
            #[trigger] result[j].0,
        ) by {
            if i == 0 && j > 1 {
                assert(precedes(entries[0].0, entries[j - 1].0));
                lemma_precedes_transitive(key, entries[0].0, entries[j - 1].0);
            } else if i > 0 {
                assert(precedes(entries[i - 1].0, entries[j - 1].0));
            }
        }
    } else {
        let tail = entries.drop_first();
        assert(in_key_order(tail)) by {
            assert forall|i: int, j: int| 0 <= i < j < tail.len() implies precedes(
                #[trigger] tail[i].0,
                #[trigger] tail[j].0,
            ) by {
                assert(precedes(entries[i + 1].0, entries[j + 1].0));
            }
        }
        if entries[0].0 == key {
            assert(result.drop_first() =~= tail);
            assert forall|i: int, j: int| 0 <= i < j < result.len() implies precedes(
                #[trigger] result[i].0,
                #[trigger] result[j].0,
            ) by {
                assert(precedes(entries[i].0, entries[j].0));
            }
        } else {
            setting_an_entry(tail, key, value, other);
            let rest = with_entry(tail, key, value);
            assert(result.drop_first() =~= rest);
            lemma_keys_after(tail, key, value, entries[0].0);
            assert forall|i: int, j: int| 0 <= i < j < result.len() implies precedes(
                #[trigger] result[i].0,
                #[trigger] result[j].0,
            ) by {
                if i == 0 {
                    assert(precedes(entries[0].0, rest[j - 1].0));
                } else {
                    assert(precedes(rest[i - 1].0, rest[j - 1].0));
                }
            }
        }
    }
}

proof fn lemma_keys_after(
    entries: Seq<(Seq<char>, Seq<char>)>,
    key: Seq<char>,
    value: Seq<char>,
    low: Seq<char>,
)
    requires
        forall|i: int| 0 <= i < entries.len() ==> precedes(low, #[trigger] entries[i].0),
        precedes(low, key) || (!precedes(key, low) && key != low),
    ensures
        forall|i: int|
            0 <= i < with_entry(entries, key, value).len() ==> precedes(
                low,
                #[trigger] with_entry(entries, key, value)[i].0,
            ),
    decreases entries.len(),
{
    lemma_precedes_total(low, key);
    let result = with_entry(entries, key, value);
    if entries.len() == 0 || precedes(key, entries[0].0) {
        assert forall|i: int| 0 <= i < result.len() implies precedes(low, #[trigger] result[i].0) by {
            if i > 0 {
                assert(result[i] == entries[i - 1]);
            }
        }
    } else if entries[0].0 == key {
        assert forall|i: int| 0 <= i < result.len() implies precedes(low, #[trigger] result[i].0) by {
            if i > 0 {
                assert(result[i] == entries[i]);
            }
        }
    } else {
        let tail = entries.drop_first();
        assert forall|i: int| 0 <= i < tail.len() implies precedes(low, #[trigger] tail[i].0) by {
            assert(tail[i] == entries[i + 1]);
        }
        lemma_keys_after(tail, key, value, low);
        let rest = with_entry(tail, key, value);
        assert forall|i: int| 0 <= i < result.len() implies precedes(low, #[trigger] result[i].0) by {
            if i == 0 {
                assert(result[0] == entries[0]);
            } else {
                assert(result[i] == rest[i - 1]);
            }
        }
    }
}

/// The contents of a list of pairs of strings.
pub open spec fn pair_texts(list: Seq<(String, String)>) -> Seq<(Seq<char>, Seq<char>)> {
    list.map_values(|p: (String, String)| (p.0@, p.1@))
}

/// A map from strings to strings, in the order of its keys.
#[derive(Debug)]
pub struct StringMap {
    entries: Vec<(String, String)>,
}

impl View for StringMap {
    type V = Seq<(Seq<char>, Seq<char>)>;

    /// The entries in the order of their keys.
    closed spec fn view(&self) -> Seq<(Seq<char>, Seq<char>)> {
        pair_texts(self.entries@)
    }
}

impl StringMap {
    #[verifier::type_invariant]
    spec fn well_formed(self) -> bool {
        in_key_order(pair_texts(self.entries@))
    }

    /// The map without entries.
    pub fn new() -> (r: Self)
        ensures
            r@ == Seq::<(Seq<char>, Seq<char>)>::empty(),
    {
        let entries: Vec<(String, String)> = Vec::new();
        assert(pair_texts(entries@) =~= Seq::<(Seq<char>, Seq<char>)>::empty());
        StringMap { entries }
    }

    /// The number of entries.
    pub fn len(&self) -> (r: usize)
        ensures
            r == self@.len(),
    {
        self.entries.len()
    }

    /// The entry at the position in the order of the keys.
    pub fn entry(&self, i: usize) -> (r: (&str, &str))
        requires
            i < self@.len(),
        ensures
            (r.0@, r.1@) == self@[i as int],
            in_key_order(self@),
    {
        proof {
            use_type_invariant(self);
        }
        (self.entries[i].0.as_str(), self.entries[i].1.as_str())
    }

    /// The value of the key.
    pub fn get(&self, key: &str) -> (r: Option<&str>)
        ensures
            match r {
                Some(value) => entry_of(self@, key@) == Some(value@),
                None => entry_of(self@, key@) is None,
            },
    {
        let mut i: usize = 0;
        assert(self@.skip(0) =~= self@);
        while i < self.entries.len()
            invariant
                i <= self.entries@.len(),
                entry_of(self@, key@) == entry_of(self@.skip(i as int), key@),
            decreases self.entries@.len() - i,
        {
            assert(self@.skip(i as int)[0] == self@[i as int]);
            if same_text(self.entries[i].0.as_str(), key) {
                return Some(self.entries[i].1.as_str());
            }
            assert(self@.skip(i as int).drop_first() =~= self@.skip(i + 1));
            i = i + 1;
        }
        None
    }

    /// Sets the value of the key.
    pub fn insert(&mut self, key: String, value: String)
        ensures
            final(self)@ == with_entry(old(self)@, key@, value@),
            in_key_order(final(self)@),
    {
        proof {
            use_type_invariant(&*self);
            setting_an_entry(self@, key@, value@, key@);
        }
        let ghost before = self@;
        let ghost result = with_entry(before, key@, value@);
        let mut entries: Vec<(String, String)> = Vec::new();
        std::mem::swap(&mut self.entries, &mut entries);
        let mut i: usize = 0;
        assert(before.skip(0) =~= before);
        assert(before.take(0) + result =~= result);
        while i < entries.len() && !comes_before(key.as_str(), entries[i].0.as_str()) && !same_text(
            entries[i].0.as_str(),
            key.as_str(),
        )
            invariant
                i <= entries@.len(),
                pair_texts(entries@) == before,
                result == before.take(i as int) + with_entry(before.skip(i as int), key@, value@),
            decreases entries@.len() - i,
        {
            proof {
                let tail = before.skip(i as int);
                assert(tail[0] == before[i as int]);
                assert(tail.drop_first() =~= before.skip(i + 1));
                assert(before.take(i as int) + (seq![tail[0]] + with_entry(
                    before.skip(i + 1),
                    key@,
                    value@,
                )) =~= before.take(i + 1) + with_entry(before.skip(i + 1), key@, value@));
            }
            i = i + 1;
        }
        if i < entries.len() {
            assert(before.skip(i as int)[0] == before[i as int]);
            if same_text(entries[i].0.as_str(), key.as_str()) {
                proof {
                    lemma_precedes_irreflexive(key@);
                }
                entries.remove(i);
                entries.insert(i, (key, value));
                assert(pair_texts(entries@) =~= result);
            } else {
                entries.insert(i, (key, value));
                assert(pair_texts(entries@) =~= result);
            }
        } else {
            entries.push((key, value));
            assert(pair_texts(entries@) =~= result);
        }
        self.entries = entries;
    }

    /// A map with the same entries.
    pub fn duplicate(&self) -> (r: Self)
        ensures
            r@ == self@,
    {
        proof {
            use_type_invariant(self);
        }
        let mut entries: Vec<(String, String)> = Vec::new();
        let mut i: usize = 0;
        while i < self.entries.len()
            invariant
                i <= self.entries@.len(),
                pair_texts(entries@) == self@.take(i as int),
            decreases self.entries@.len() - i,
        {
            let ghost before = entries@;
            entries.push((self.entries[i].0.clone(), self.entries[i].1.clone()));
            assert(pair_texts(entries@) =~= pair_texts(before).push(self@[i as int]));
            assert(self@.take(i + 1) =~= self@.take(i as int).push(self@[i as int]));
            i = i + 1;
        }
        assert(self@.take(i as int) =~= self@);
        StringMap { entries }
    }
}

/// The position of the first item for which the condition holds.
pub open spec fn first_where<T>(list: Seq<T>, cond: spec_fn(T) -> bool) -> Option<int>
    decreases list.len(),
{
    if list.len() == 0 {
        None
    } else {
        match first_where(list.drop_last(), cond) {
            Some(i) => Some(i),
            None => if cond(list.last()) {
                Some(list.len() - 1)
            } else {
                None
            },
        }
    }
}

/// No item before the first one meets the condition; it does itself.
pub proof fn lemma_first_where<T>(list: Seq<T>, cond: spec_fn(T) -> bool)
    ensures
        match first_where(list, cond) {
            Some(i) => 0 <= i < list.len() && cond(list[i]) && forall|k: int|
                0 <= k < i ==> !cond(#[trigger] list[k]),
            None => forall|k: int| 0 <= k < list.len() ==> !cond(#[trigger] list[k]),
        },
    decreases list.len(),
{
    if list.len() > 0 {
        let head = list.drop_last();
        lemma_first_where(head, cond);
        match first_where(head, cond) {
            Some(i) => {
                assert(head[i] == list[i]);
                assert forall|k: int| 0 <= k < i implies !cond(#[trigger] list[k]) by {
                    assert(head[k] == list[k]);
                }
            },
            None => {
                assert forall|k: int| 0 <= k < list.len() - 1 implies !cond(#[trigger] list[k]) by {
                    assert(head[k] == list[k]);
                }
            },
        }
    }
}

/// An item that meets the condition, with none before it, is the first one.
pub proof fn lemma_is_first<T>(list: Seq<T>, cond: spec_fn(T) -> bool, i: int)
    requires
        0 <= i < list.len(),
        cond(list[i]),
        forall|k: int| 0 <= k < i ==> !cond(#[trigger] list[k]),
    ensures
        first_where(list, cond) == Some(i),
{
    lemma_first_where(list, cond);
}

/// Where no item meets the condition there is no first one.
pub proof fn lemma_is_absent<T>(list: Seq<T>, cond: spec_fn(T) -> bool)
    requires
        forall|k: int| 0 <= k < list.len() ==> !cond(#[trigger] list[k]),
    ensures
        first_where(list, cond) == None::<int>,
{
    lemma_first_where(list, cond);
}

} // verus!
