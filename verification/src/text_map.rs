//! A map from texts to texts that is walked in the order in which its keys
//! first came.

use vstd::prelude::*;

use crate::text::same_text;

verus! {

/// Keys and values, each key once, in the order in which the map is walked.
#[derive(Debug)]
pub struct TextMap {
    entries: Vec<(String, String)>,
}

/// The map that a list of pairs stands for.
pub open spec fn map_of(pairs: Seq<(Seq<char>, Seq<char>)>) -> Map<Seq<char>, Seq<char>>
    decreases pairs.len(),
{
    if pairs.len() == 0 {
        Map::empty()
    } else {
        map_of(pairs.drop_last()).insert(pairs.last().0, pairs.last().1)
    }
}

/// Whether no key comes twice.
pub open spec fn distinct_keys(pairs: Seq<(Seq<char>, Seq<char>)>) -> bool {
    forall|i: int, j: int|
        0 <= i < j < pairs.len() ==> (#[trigger] pairs[i]).0 != (#[trigger] pairs[j]).0
}

/// Whether a key stands somewhere in the list.
pub open spec fn has_key(pairs: Seq<(Seq<char>, Seq<char>)>, key: Seq<char>) -> bool {
    exists|i: int| 0 <= i < pairs.len() && (#[trigger] pairs[i]).0 == key
}

/// The place of a key in the list.
pub open spec fn key_place(pairs: Seq<(Seq<char>, Seq<char>)>, key: Seq<char>) -> int {
    choose|i: int| 0 <= i < pairs.len() && (#[trigger] pairs[i]).0 == key
}

/// The list after a key is given a value: in the key's place where it has one,
/// else at the end.
pub open spec fn put(
    pairs: Seq<(Seq<char>, Seq<char>)>,
    key: Seq<char>,
    value: Seq<char>,
) -> Seq<(Seq<char>, Seq<char>)> {
    if has_key(pairs, key) {
        pairs.update(key_place(pairs, key), (key, value))
    } else {
        pairs.push((key, value))
    }
}

/// Where a list of pairs with distinct keys holds a key, the map has the value
/// that stands beside it.
pub proof fn lemma_map_of(pairs: Seq<(Seq<char>, Seq<char>)>, key: Seq<char>)
    requires
        distinct_keys(pairs),
    ensures
        map_of(pairs).contains_key(key) <==> has_key(pairs, key),
        forall|i: int|
            0 <= i < pairs.len() && (#[trigger] pairs[i]).0 == key ==> map_of(pairs)[key]
                == pairs[i].1,
    decreases pairs.len(),
{
    if pairs.len() > 0 {
        let short = pairs.drop_last();
        lemma_map_of(short, key);
        assert forall|i: int| 0 <= i < short.len() implies #[trigger] short[i] == pairs[i] by {}
        if has_key(short, key) {
            let i = choose|i: int| 0 <= i < short.len() && (#[trigger] short[i]).0 == key;
            assert(pairs[i].0 == key);
        }
        if has_key(pairs, key) {
            let i = choose|i: int| 0 <= i < pairs.len() && (#[trigger] pairs[i]).0 == key;
            if i < short.len() {
                assert(short[i].0 == key);
            } else {
                assert(pairs.last().0 == key);
            }
        }
        if pairs.last().0 == key {
            assert(pairs[pairs.len() - 1].0 == key);
        }
    }
}

proof fn lemma_map_of_update(
    pairs: Seq<(Seq<char>, Seq<char>)>,
    at: int,
    key: Seq<char>,
    value: Seq<char>,
)
    requires
        distinct_keys(pairs),
        0 <= at < pairs.len(),
        pairs[at].0 == key,
    ensures
        distinct_keys(pairs.update(at, (key, value))),
        map_of(pairs.update(at, (key, value))) == map_of(pairs).insert(key, value),
{
    let new = pairs.update(at, (key, value));
    assert forall|i: int, j: int| 0 <= i < j < new.len() implies (#[trigger] new[i]).0 != (
    #[trigger] new[j]).0 by {
        assert(pairs[i].0 != pairs[j].0);
    }
    assert forall|k: Seq<char>|
        map_of(new).contains_key(k) == #[trigger] map_of(pairs).insert(key, value).contains_key(k)
            && (map_of(new).contains_key(k) ==> map_of(new)[k] == map_of(pairs).insert(
            key,
            value,
        )[k]) by {
        lemma_map_of(new, k);
        lemma_map_of(pairs, k);
        if has_key(pairs, k) {
            let i = choose|i: int| 0 <= i < pairs.len() && (#[trigger] pairs[i]).0 == k;
            assert(new[i].0 == k);
        }
        if has_key(new, k) {
            let i = choose|i: int| 0 <= i < new.len() && (#[trigger] new[i]).0 == k;
            assert(pairs[i].0 == k);
        }
        if k == key {
            assert(new[at].0 == key);
        }
    }
    assert(map_of(new) =~= map_of(pairs).insert(key, value));
}

/// Giving a key a value in the list gives it that value in the map, and no key
/// comes twice afterwards.
pub proof fn lemma_put(pairs: Seq<(Seq<char>, Seq<char>)>, key: Seq<char>, value: Seq<char>)
    requires
        distinct_keys(pairs),
    ensures
        distinct_keys(put(pairs, key, value)),
        map_of(put(pairs, key, value)) == map_of(pairs).insert(key, value),
{
    if has_key(pairs, key) {
        lemma_map_of_update(pairs, key_place(pairs, key), key, value);
    } else {
        let new = pairs.push((key, value));
        assert(new.drop_last() =~= pairs);
        assert forall|i: int, j: int| 0 <= i < j < new.len() implies (#[trigger] new[i]).0 != (
        #[trigger] new[j]).0 by {
            assert(pairs[i].0 != key);
        }
    }
}

/// A key that is there gets its value where it stands, and a new one comes last;
/// every other pair keeps its place.
pub proof fn lemma_put_keeps_the_order(
    pairs: Seq<(Seq<char>, Seq<char>)>,
    at: int,
    key: Seq<char>,
    value: Seq<char>,
)
    requires
        distinct_keys(pairs),
    ensures
        0 <= at < pairs.len() ==> put(pairs, pairs[at].0, value) == pairs.update(
            at,
            (pairs[at].0, value),
        ),
        (forall|i: int| 0 <= i < pairs.len() ==> (#[trigger] pairs[i]).0 != key) ==> put(
            pairs,
            key,
            value,
        ) == pairs.push((key, value)),
{
    if 0 <= at < pairs.len() {
        let found = key_place(pairs, pairs[at].0);
        assert(pairs[at].0 == pairs[at].0);
        assert(has_key(pairs, pairs[at].0));
        assert(found == at) by {
            if found < at {
                assert(pairs[found].0 != pairs[at].0);
            } else if at < found {
                assert(pairs[at].0 != pairs[found].0);
            }
        }
    }
}

impl TextMap {
    #[verifier::type_invariant]
    spec fn valid(self) -> bool {
        distinct_keys(self@)
    }

    /// The map that the pairs stand for.
    pub open spec fn map(self) -> Map<Seq<char>, Seq<char>> {
        map_of(self@)
    }

    /// A map without keys.
    pub fn new() -> (map: TextMap)
        ensures
            map@ == Seq::<(Seq<char>, Seq<char>)>::empty(),
            map.map() == Map::<Seq<char>, Seq<char>>::empty(),
    {
        let map = TextMap { entries: Vec::new() };
        assert(map@ =~= Seq::<(Seq<char>, Seq<char>)>::empty());
        map
    }

    /// The number of keys.
    pub fn len(&self) -> (len: usize)
        ensures
            len == self@.len(),
            distinct_keys(self@),
    {
        proof {
            use_type_invariant(self);
        }
        self.entries.len()
    }

    /// The key at a place of the walk.
    pub fn key(&self, i: usize) -> (key: &String)
        requires
            i < self@.len(),
        ensures
            key@ == self@[i as int].0,
    {
        &self.entries[i].0
    }

    /// The value at a place of the walk.
    pub fn value(&self, i: usize) -> (value: &String)
        requires
            i < self@.len(),
        ensures
            value@ == self@[i as int].1,
    {
        &self.entries[i].1
    }

    fn place(&self, key: &str) -> (at: Option<usize>)
        ensures
            at matches Some(i) ==> i < self@.len() && self@[i as int].0 == key@,
            at is None ==> !has_key(self@, key@),
    {
        let mut i: usize = 0;
        while i < self.entries.len()
            invariant
                i <= self@.len(),
                forall|j: int| 0 <= j < i ==> (#[trigger] self@[j]).0 != key@,
            decreases self@.len() - i,
        {
            if same_text(self.entries[i].0.as_str(), key) {
                return Some(i);
            }
            i = i + 1;
        }
        None
    }

    /// The value of a key.
    pub fn get(&self, key: &str) -> (value: Option<&String>)
        ensures
            value is Some <==> self.map().contains_key(key@),
            value matches Some(found) ==> found@ == self.map()[key@],
    {
        proof {
            use_type_invariant(self);
            lemma_map_of(self@, key@);
        }
        match self.place(key) {
            Some(i) => {
                assert(has_key(self@, key@));
                Some(&self.entries[i].1)
            },
            None => None,
        }
    }

    /// Gives a key a value: in the key's place where it has one, else at the
    /// end.
    pub fn insert(&mut self, key: String, value: String)
        ensures
            final(self)@ == put(old(self)@, key@, value@),
            final(self).map() == old(self).map().insert(key@, value@),
            distinct_keys(final(self)@),
    {
        proof {
            use_type_invariant(&*self);
        }
        let ghost before = self@;
        let at = self.place(key.as_str());
        let mut entries: Vec<(String, String)> = Vec::new();
        std::mem::swap(&mut entries, &mut self.entries);
        let ghost shown = |e: (String, String)| (e.0@, e.1@);
        assert(entries@.map_values(shown) =~= before);
        match at {
            Some(i) => {
                proof {
                    lemma_map_of_update(before, i as int, key@, value@);
                }
                let ghost pair = (key@, value@);
                entries.set(i, (key, value));
                assert(entries@.map_values(shown) =~= before.update(i as int, pair));
                assert(before[i as int].0 == pair.0);
                assert(key_place(before, pair.0) == i);
            },
            None => {
                let ghost pair = (key@, value@);
                entries.push((key, value));
                assert(entries@.map_values(shown) =~= before.push(pair));
                assert(before.push(pair).drop_last() =~= before);
                assert forall|i: int| 0 <= i < before.len() implies (#[trigger] before[i]).0
                    != pair.0 by {}
            },
        }
        let ghost after = entries@.map_values(shown);
        assert(distinct_keys(after));
        *self = TextMap { entries };
        assert(self@ =~= after);
    }
}

impl View for TextMap {
    type V = Seq<(Seq<char>, Seq<char>)>;

    closed spec fn view(&self) -> Seq<(Seq<char>, Seq<char>)> {
        self.entries@.map_values(|e: (String, String)| (e.0@, e.1@))
    }
}

} // verus!
