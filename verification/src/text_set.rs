//! Sets of texts: the accounts that are passed over.

use crate::text::same_text;
use vstd::prelude::*;

verus! {

/// A set of texts, in the order in which they came. Nothing is in it twice.
#[derive(Debug)]
pub struct TextSet {
    items: Vec<String>,
}

/// The texts of strings, as a set.
pub open spec fn text_items(items: Seq<String>) -> Set<Seq<char>> {
    items.map_values(|s: String| s@).to_set()
}

/// No two of the strings have the same text.
pub open spec fn all_distinct(items: Seq<String>) -> bool {
    items.map_values(|s: String| s@).no_duplicates()
}

impl View for TextSet {
    type V = Set<Seq<char>>;

    closed spec fn view(&self) -> Set<Seq<char>> {
        text_items(self.items@)
    }
}

impl TextSet {
    #[verifier::type_invariant]
    closed spec fn inv(self) -> bool {
        all_distinct(self.items@)
    }

    /// The texts in the order in which they came.
    pub closed spec fn texts(self) -> Seq<Seq<char>> {
        self.items@.map_values(|s: String| s@)
    }

    /// The set without texts.
    pub fn new() -> (r: TextSet)
        ensures
            r@ == Set::<Seq<char>>::empty(),
            r.texts() == Seq::<Seq<char>>::empty(),
    {
        let r = TextSet { items: Vec::new() };
        proof {
            assert(text_items(r.items@) =~= Set::<Seq<char>>::empty());
            assert(r.texts() =~= Seq::<Seq<char>>::empty());
        }
        r
    }

    /// How many texts are in the set.
    pub fn len(&self) -> (r: usize)
        ensures
            r == self@.len(),
            self@.finite(),
    {
        proof {
            use_type_invariant(self);
            let texts = self.items@.map_values(|s: String| s@);
            texts.unique_seq_to_set();
        }
        self.items.len()
    }

    /// Whether a text is in the set.
    pub fn contains(&self, text: &str) -> (r: bool)
        ensures
            r == self@.contains(text@),
    {
        let n: usize = self.items.len();
        let ghost texts = self.items@.map_values(|s: String| s@);
        let mut i: usize = 0;
        while i < n
            invariant
                n == self.items@.len(),
                texts == self.items@.map_values(|s: String| s@),
                i <= n,
                forall|k: int| 0 <= k < i ==> #[trigger] texts[k] != text@,
            decreases n - i,
        {
            proof {
                assert(texts[i as int] == self.items@[i as int]@);
            }
            if same_text(self.items[i].as_str(), text) {
                proof {
                    assert(texts.contains(text@));
                }
                return true;
            }
            i += 1;
        }
        proof {
            assert(!texts.contains(text@));
        }
        false
    }

    /// Puts a text into the set.
    pub fn insert(&mut self, text: &str)
        ensures
            final(self)@ == old(self)@.insert(text@),
            final(self).texts() == (if old(self)@.contains(text@) {
                old(self).texts()
            } else {
                old(self).texts().push(text@)
            }),
    {
        let mut set = TextSet::new();
        std::mem::swap(self, &mut set);
        *self = set.with(text);
    }

    /// The set with a text put into it.
    pub fn with(self, text: &str) -> (r: TextSet)
        ensures
            r@ == self@.insert(text@),
            r.texts() == (if self@.contains(text@) {
                self.texts()
            } else {
                self.texts().push(text@)
            }),
    {
        if self.contains(text) {
            proof {
                assert(self@ =~= self@.insert(text@));
            }
            return self;
        }
        let added = text.to_string();
        proof {
            use_type_invariant(&self);
            let before = self.items@.map_values(|s: String| s@);
            let after = self.items@.push(added).map_values(|s: String| s@);
            assert(after =~= before.push(text@));
            assert(!before.contains(text@));
            assert(after.no_duplicates()) by {
                assert forall|i: int, j: int|
                    0 <= i < after.len() && 0 <= j < after.len() && i != j implies after[i]
                    != after[j] by {
                    if i == before.len() {
                        assert(before.contains(before[j]));
                    } else if j == before.len() {
                        assert(before.contains(before[i]));
                    }
                }
            }
            assert(after.to_set() =~= before.to_set().insert(text@)) by {
                assert forall|t: Seq<char>| after.contains(t) <==> before.contains(t) || t
                    == text@ by {
                    if after.contains(t) {
                        let i = choose|i: int| 0 <= i < after.len() && after[i] == t;
                        if i < before.len() {
                            assert(before[i] == t);
                        }
                    }
                    if before.contains(t) {
                        let i = choose|i: int| 0 <= i < before.len() && before[i] == t;
                        assert(after[i] == t);
                    }
                    if t == text@ {
                        assert(after[before.len() as int] == t);
                    }
                }
            }
        }
        let mut items = self.items;
        items.push(added);
        TextSet { items }
    }

    /// The `i`th text of the set, in the order in which they came.
    pub fn get(&self, i: usize) -> (r: Option<&str>)
        ensures
            match r {
                Some(s) => i < self.texts().len() && s@ == self.texts()[i as int],
                None => i >= self.texts().len(),
            },
            self.texts().len() == self@.len(),
            self.texts().to_set() == self@,
    {
        proof {
            use_type_invariant(self);
            let texts = self.items@.map_values(|s: String| s@);
            texts.unique_seq_to_set();
        }
        if i < self.items.len() {
            proof {
                let texts = self.items@.map_values(|s: String| s@);
                assert(texts.contains(texts[i as int]));
                assert(texts[i as int] == self.items@[i as int]@);
            }
            Some(self.items[i].as_str())
        } else {
            None
        }
    }

    /// Another set of the same texts.
    pub fn copy(&self) -> (r: TextSet)
        ensures
            r@ == self@,
            r.texts() == self.texts(),
    {
        proof {
            use_type_invariant(self);
        }
        let mut items: Vec<String> = Vec::new();
        let n: usize = self.items.len();
        let mut i: usize = 0;
        while i < n
            invariant
                n == self.items@.len(),
                i <= n,
                items@.len() == i,
                forall|k: int| 0 <= k < i ==> (#[trigger] items@[k])@ == self.items@[k]@,
            decreases n - i,
        {
            items.push(self.items[i].as_str().to_string());
            i += 1;
        }
        proof {
            assert(items@.map_values(|s: String| s@) =~= self.items@.map_values(|s: String| s@));
        }
        TextSet { items }
    }
}

} // verus!
