//! Maps from text to text: registries, aliases, headers and query parameters.

use crate::text::{opt_text, same_text};
use vstd::prelude::*;

verus! {

/// A map from names to texts. An entry overrides the earlier entries of the same name.
#[derive(Debug)]
pub struct TextMap {
    entries: Vec<(String, String)>,
}

/// The map that a sequence of entries stands for.
pub open spec fn text_entries(entries: Seq<(String, String)>) -> Map<Seq<char>, Seq<char>>
    decreases entries.len(),
{
    if entries.len() == 0 {
        Map::empty()
    } else {
        text_entries(entries.drop_last()).insert(entries.last().0@, entries.last().1@)
    }
}

/// The value of a name in a map.
pub open spec fn lookup(m: Map<Seq<char>, Seq<char>>, key: Seq<char>) -> Option<Seq<char>> {
    if m.contains_key(key) {
        Some(m[key])
    } else {
        None
    }
}

impl View for TextMap {
    type V = Map<Seq<char>, Seq<char>>;

    closed spec fn view(&self) -> Map<Seq<char>, Seq<char>> {
        text_entries(self.entries@)
    }
}

proof fn lemma_text_entries_push(entries: Seq<(String, String)>, e: (String, String))
    ensures
        text_entries(entries.push(e)) == text_entries(entries).insert(e.0@, e.1@),
{
    assert(entries.push(e).drop_last() =~= entries);
}

proof fn lemma_text_entries_nonempty(entries: Seq<(String, String)>)
    requires
        entries.len() > 0,
    ensures
        text_entries(entries).contains_key(entries.last().0@),
        text_entries(entries) != Map::<Seq<char>, Seq<char>>::empty(),
{
    assert(text_entries(entries).dom().contains(entries.last().0@));
    assert(!Map::<Seq<char>, Seq<char>>::empty().dom().contains(entries.last().0@));
}

impl TextMap {
    /// The map without entries.
    pub fn new() -> (r: TextMap)
        ensures
            r@ == Map::<Seq<char>, Seq<char>>::empty(),
    {
        TextMap { entries: Vec::new() }
    }

    /// Sets the value of a name.
    pub fn insert(&mut self, key: String, value: String)
        ensures
            final(self)@ == old(self)@.insert(key@, value@),
    {
        proof {
            lemma_text_entries_push(self.entries@, (key, value));
        }
        self.entries.push((key, value));
    }

    /// The value of a name.
    pub fn get(&self, key: &str) -> (r: Option<&str>)
        ensures
            opt_text(r) == lookup(self@, key@),
    {
        let mut n: usize = self.entries.len();
        proof {
            assert(self.entries@.take(n as int) =~= self.entries@);
        }
        while n > 0
            invariant
                n <= self.entries@.len(),
                lookup(self@, key@) == lookup(text_entries(self.entries@.take(n as int)), key@),
            decreases n,
        {
            proof {
                lemma_text_entries_push(self.entries@.take(n as int - 1), self.entries@[n - 1]);
                assert(self.entries@.take(n as int) =~= self.entries@.take(n as int - 1).push(
                    self.entries@[n - 1],
                ));
            }
            if same_text(self.entries[n - 1].0.as_str(), key) {
                return Some(self.entries[n - 1].1.as_str());
            }
            n -= 1;
        }
        None
    }

    /// Whether a name has a value.
    pub fn contains_key(&self, key: &str) -> (r: bool)
        ensures
            r == self@.contains_key(key@),
    {
        self.get(key).is_some()
    }

    /// Whether no name has a value.
    pub fn is_empty(&self) -> (r: bool)
        ensures
            r == (self@ == Map::<Seq<char>, Seq<char>>::empty()),
    {
        proof {
            if self.entries@.len() > 0 {
                lemma_text_entries_nonempty(self.entries@);
            }
        }
        self.entries.len() == 0
    }
}

} // verus!
