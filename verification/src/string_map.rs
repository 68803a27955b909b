//! A map from text to text that keeps its entries in the order in which
//! their keys first came.

use crate::text::str_eq;
use vstd::prelude::*;

verus! {

/// The entries of a map as pairs of character sequences.
pub type Pairs = Seq<(Seq<char>, Seq<char>)>;

/// The views of a list of string pairs, in order.
pub open spec fn pairs_view(v: Seq<(String, String)>) -> Pairs {
    v.map_values(|p: (String, String)| (p.0@, p.1@))
}

/// No key stands in two entries.
pub open spec fn distinct_keys(pairs: Pairs) -> bool {
    forall|i: int, j: int| 0 <= i < j < pairs.len() ==> pairs[i].0 != pairs[j].0
}

/// Whether an entry with this key exists.
pub open spec fn has_key(pairs: Pairs, key: Seq<char>) -> bool {
    exists|i: int| 0 <= i < pairs.len() && #[trigger] pairs[i].0 == key
}

/// The value of the first entry with this key.
pub open spec fn lookup(pairs: Pairs, key: Seq<char>) -> Option<Seq<char>>
    decreases pairs.len(),
{
    if pairs.len() == 0 {
        None
    } else if pairs[0].0 == key {
        Some(pairs[0].1)
    } else {
        lookup(pairs.drop_first(), key)
    }
}

/// The value under a key, or the empty text where the key is absent.
pub open spec fn lookup_or_empty(pairs: Pairs, key: Seq<char>) -> Seq<char> {
    match lookup(pairs, key) {
        Some(v) => v,
        None => Seq::empty(),
    }
}

/// The entries after `key` was set to `value`: the entry with that key is
/// replaced where it stands, a new key goes to the end.
pub open spec fn insert_pair(pairs: Pairs, key: Seq<char>, value: Seq<char>) -> Pairs
    decreases pairs.len(),
{
    if pairs.len() == 0 {
        seq![(key, value)]
    } else if pairs[0].0 == key {
        pairs.update(0, (key, value))
    } else {
        seq![pairs[0]] + insert_pair(pairs.drop_first(), key, value)
    }
}

/// The entries after every pair of `more` was set in turn.
pub open spec fn insert_all(pairs: Pairs, more: Pairs) -> Pairs
    decreases more.len(),
{
    if more.len() == 0 {
        pairs
    } else {
        insert_pair(insert_all(pairs, more.drop_last()), more.last().0, more.last().1)
    }
}

pub proof fn lemma_lookup_at(pairs: Pairs, key: Seq<char>, i: int)
    requires
        0 <= i < pairs.len(),
        pairs[i].0 == key,
        forall|j: int| 0 <= j < i ==> pairs[j].0 != key,
    ensures
        lookup(pairs, key) == Some(pairs[i].1),
        has_key(pairs, key),
        insert_pair(pairs, key, pairs[i].1) == pairs,
    decreases i,
{
    if i > 0 {
        lemma_lookup_at(pairs.drop_first(), key, i - 1);
        assert(seq![pairs[0]] + pairs.drop_first() =~= pairs);
    } else {
        assert(pairs.update(0, (key, pairs[0].1)) =~= pairs);
    }
}

pub proof fn lemma_lookup_absent(pairs: Pairs, key: Seq<char>, value: Seq<char>)
    requires
        forall|j: int| 0 <= j < pairs.len() ==> pairs[j].0 != key,
    ensures
        lookup(pairs, key) is None,
        !has_key(pairs, key),
        insert_pair(pairs, key, value) == pairs.push((key, value)),
    decreases pairs.len(),
{
    if pairs.len() > 0 {
        lemma_lookup_absent(pairs.drop_first(), key, value);
        assert(seq![pairs[0]] + pairs.drop_first().push((key, value)) =~= pairs.push(
            (key, value),
        ));
    } else {
        assert(seq![(key, value)] =~= pairs.push((key, value)));
    }
}

pub proof fn lemma_insert_at(pairs: Pairs, key: Seq<char>, value: Seq<char>, i: int)
    requires
        0 <= i < pairs.len(),
        pairs[i].0 == key,
        forall|j: int| 0 <= j < i ==> pairs[j].0 != key,
    ensures
        insert_pair(pairs, key, value) == pairs.update(i, (key, value)),
    decreases i,
{
    if i > 0 {
        lemma_insert_at(pairs.drop_first(), key, value, i - 1);
        assert(seq![pairs[0]] + pairs.drop_first().update(i - 1, (key, value)) =~= pairs.update(
            i,
            (key, value),
        ));
    }
}

/// A key has a value exactly where an entry holds it.
pub proof fn lemma_lookup_has_key(pairs: Pairs, key: Seq<char>)
    ensures
        lookup(pairs, key) is Some <==> has_key(pairs, key),
    decreases pairs.len(),
{
    if pairs.len() > 0 {
        if pairs[0].0 == key {
        } else {
            lemma_lookup_has_key(pairs.drop_first(), key);
            if has_key(pairs, key) {
                let i = choose|i: int| 0 <= i < pairs.len() && #[trigger] pairs[i].0 == key;
                assert(pairs.drop_first()[i - 1].0 == key);
            }
            if has_key(pairs.drop_first(), key) {
                let i = choose|i: int|
                    0 <= i < pairs.drop_first().len() && #[trigger] pairs.drop_first()[i].0 == key;
                assert(pairs[i + 1].0 == key);
            }
        }
    }
}

/// Setting a key changes the value under that key and under no other.
pub proof fn lemma_insert_lookup(pairs: Pairs, key: Seq<char>, value: Seq<char>, other: Seq<char>)
    ensures
        lookup(insert_pair(pairs, key, value), other) == if other == key {
            Some(value)
        } else {
            lookup(pairs, other)
        },
    decreases pairs.len(),
{
    if pairs.len() > 0 && pairs[0].0 != key {
        lemma_insert_lookup(pairs.drop_first(), key, value, other);
        let tail = insert_pair(pairs.drop_first(), key, value);
        assert((seq![pairs[0]] + tail).drop_first() =~= tail);
    } else if pairs.len() > 0 {
        assert(pairs.update(0, (key, value)).drop_first() =~= pairs.drop_first());
    } else {
        let one = seq![(key, value)];
        assert(one.drop_first() =~= Seq::<(Seq<char>, Seq<char>)>::empty());
        assert(lookup(one.drop_first(), other) is None);
    }
}

/// Setting a key keeps the keys distinct.
pub proof fn lemma_insert_distinct(pairs: Pairs, key: Seq<char>, value: Seq<char>)
    requires
        distinct_keys(pairs),
    ensures
        distinct_keys(insert_pair(pairs, key, value)),
{
    if has_key(pairs, key) {
        let k = choose|k: int| 0 <= k < pairs.len() && #[trigger] pairs[k].0 == key;
        assert forall|j: int| 0 <= j < k implies pairs[j].0 != key by {}
        lemma_insert_at(pairs, key, value, k);
    } else {
        lemma_lookup_absent(pairs, key, value);
    }
}

/// An ordered map from text to text. No key occurs twice; a key that is set
/// again keeps its place.
#[derive(Debug)]
pub struct StringMap {
    entries: Vec<(String, String)>,
}

impl View for StringMap {
    type V = Pairs;

    closed spec fn view(&self) -> Pairs {
        pairs_view(self.entries@)
    }
}

impl StringMap {
    #[verifier::type_invariant]
    spec fn keys_are_distinct(&self) -> bool {
        distinct_keys(pairs_view(self.entries@))
    }

    /// The empty map.
    pub fn new() -> (r: Self)
        ensures
            r@ == Seq::<(Seq<char>, Seq<char>)>::empty(),
    {
        let r = StringMap { entries: Vec::new() };
        assert(r@ =~= Seq::<(Seq<char>, Seq<char>)>::empty());
        r
    }

    /// The number of entries.
    pub fn len(&self) -> (n: usize)
        ensures
            n == self@.len(),
            distinct_keys(self@),
    {
        proof {
            use_type_invariant(self);
        }
        self.entries.len()
    }

    /// The key of the entry at a position.
    pub fn key_at(&self, i: usize) -> (k: &String)
        requires
            i < self@.len(),
        ensures
            k@ == self@[i as int].0,
    {
        &self.entries[i].0
    }

    /// The value of the entry at a position.
    pub fn value_at(&self, i: usize) -> (v: &String)
        requires
            i < self@.len(),
        ensures
            v@ == self@[i as int].1,
    {
        &self.entries[i].1
    }

    fn position(&self, key: &str) -> (r: Option<usize>)
        ensures
            match r {
                Some(i) => i < self@.len() && self@[i as int].0 == key@ && forall|j: int|
                    0 <= j < i ==> self@[j].0 != key@,
                None => forall|j: int| 0 <= j < self@.len() ==> self@[j].0 != key@,
            },
    {
        let mut i: usize = 0;
        while i < self.entries.len()
            invariant
                i <= self.entries.len(),
                forall|j: int| 0 <= j < i ==> self@[j].0 != key@,
            decreases self.entries.len() - i,
        {
            if str_eq(self.entries[i].0.as_str(), key) {
                return Some(i);
            }
            i = i + 1;
        }
        None
    }

    /// The value under a key.
    pub fn get(&self, key: &str) -> (r: Option<&String>)
        ensures
            match r {
                Some(v) => lookup(self@, key@) == Some(v@),
                None => lookup(self@, key@) is None,
            },
    {
        match self.position(key) {
            Some(i) => {
                proof {
                    lemma_lookup_at(self@, key@, i as int);
                }
                Some(&self.entries[i].1)
            },
            None => {
                proof {
                    lemma_lookup_absent(self@, key@, Seq::empty());
                }
                None
            },
        }
    }

    /// Whether a key has a value.
    pub fn contains_key(&self, key: &str) -> (r: bool)
        ensures
            r == (lookup(self@, key@) is Some),
            r == has_key(self@, key@),
    {
        proof {
            lemma_lookup_has_key(self@, key@);
        }
        self.get(key).is_some()
    }

    /// A copy of the value under a key, or the empty text.
    pub fn get_or_empty(&self, key: &str) -> (r: String)
        ensures
            r@ == lookup_or_empty(self@, key@),
    {
        match self.get(key) {
            Some(v) => v.clone(),
            None => String::new(),
        }
    }

    /// Sets the value under a key.
    pub fn insert(&mut self, key: String, value: String)
        ensures
            final(self)@ == insert_pair(old(self)@, key@, value@),
    {
        proof {
            use_type_invariant(&*self);
            lemma_insert_distinct(self@, key@, value@);
        }
        let ghost before = self@;
        match self.position(key.as_str()) {
            Some(i) => {
                proof {
                    lemma_insert_at(before, key@, value@, i as int);
                }
                let mut entries: Vec<(String, String)> = Vec::new();
                std::mem::swap(&mut entries, &mut self.entries);
                entries.set(i, (key, value));
                assert(pairs_view(entries@) =~= before.update(i as int, (key@, value@)));
                self.entries = entries;
            },
            None => {
                proof {
                    lemma_lookup_absent(before, key@, value@);
                }
                let mut entries: Vec<(String, String)> = Vec::new();
                std::mem::swap(&mut entries, &mut self.entries);
                entries.push((key, value));
                assert(pairs_view(entries@) =~= before.push((key@, value@)));
                self.entries = entries;
            },
        }
    }

    /// A map with each pair set in turn.
    pub fn from_pairs(pairs: &Vec<(String, String)>) -> (r: Self)
        ensures
            r@ == insert_all(Seq::empty(), pairs_view(pairs@)),
    {
        let mut map = StringMap::new();
        let mut i: usize = 0;
        while i < pairs.len()
            invariant
                i <= pairs.len(),
                map@ == insert_all(Seq::empty(), pairs_view(pairs@).subrange(0, i as int)),
            decreases pairs.len() - i,
        {
            proof {
                let p = pairs_view(pairs@).subrange(0, i + 1);
                assert(p.drop_last() =~= pairs_view(pairs@).subrange(0, i as int));
            }
            map.insert(pairs[i].0.clone(), pairs[i].1.clone());
            i = i + 1;
        }
        proof {
            assert(pairs_view(pairs@).subrange(0, pairs.len() as int) =~= pairs_view(pairs@));
        }
        map
    }
}

impl Clone for StringMap {
    fn clone(&self) -> (r: Self)
        ensures
            r@ == self@,
    {
        proof {
            use_type_invariant(self);
        }
        let mut entries: Vec<(String, String)> = Vec::new();
        let mut i: usize = 0;
        while i < self.entries.len()
            invariant
                i <= self.entries.len(),
                entries@.len() == i,
                forall|j: int|
                    0 <= j < i ==> entries@[j].0@ == self.entries@[j].0@ && entries@[j].1@
                        == self.entries@[j].1@,
            decreases self.entries.len() - i,
        {
            entries.push((self.entries[i].0.clone(), self.entries[i].1.clone()));
            i = i + 1;
        }
        assert(pairs_view(entries@) =~= pairs_view(self.entries@));
        StringMap { entries }
    }
}

} // verus!
