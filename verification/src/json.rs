//! JSON values.
//!
//! `Json` holds a value, `JsonView` is what it means: numbers are integers where they are
//! integers, an object is a map from names to values. The text form of a value is read and
//! written by `serde_json`.

use crate::text::{opt_text, same_text};
use vstd::prelude::*;

verus! {

/// `serde_json::Number`, carried through for the numbers that are no integers.
#[verifier::external_type_specification]
#[verifier::external_body]
pub struct ExNumber(serde_json::Number);

/// `serde_json::Value`, the form in which `serde_json` reads and writes a value.
#[verifier::external_type_specification]
#[verifier::external_body]
pub struct ExValue(serde_json::Value);

/// `serde_json::Error`, why a text is no JSON value.
#[verifier::external_type_specification]
#[verifier::external_body]
pub struct ExError(serde_json::Error);

/// What `serde_json::Number::is_f64` says: the number is held as a floating-point number.
pub uninterp spec fn is_fraction(n: serde_json::Number) -> bool;

/// `serde_json::Number::clone` gives back the same number.
pub assume_specification[ <serde_json::Number as Clone>::clone ](n: &serde_json::Number) -> (r:
    serde_json::Number)
    ensures
        r == *n,
;

/// A number that is no integer.
#[derive(Debug)]
pub struct Fraction {
    number: serde_json::Number,
}

impl Fraction {
    #[verifier::type_invariant]
    spec fn inv(self) -> bool {
        is_fraction(self.number)
    }

    /// The number itself.
    pub closed spec fn spec_number(self) -> serde_json::Number {
        self.number
    }

    /// Holds a number that is no integer.
    pub(crate) fn new(number: serde_json::Number) -> (r: Fraction)
        requires
            is_fraction(number),
        ensures
            r.spec_number() == number,
    {
        Fraction { number }
    }

    /// The number itself.
    pub(crate) fn number(&self) -> (r: serde_json::Number)
        ensures
            r == self.spec_number(),
            is_fraction(r),
    {
        proof {
            use_type_invariant(&*self);
        }
        self.number.clone()
    }

    /// The same number once more.
    pub fn copy(&self) -> (r: Fraction)
        ensures
            r.spec_number() == self.spec_number(),
    {
        Fraction::new(self.number())
    }
}

/// A JSON value. An entry of an object overrides the earlier entries of the same name.
#[derive(Debug)]
pub enum Json {
    Null,
    Bool(bool),
    PosInt(u64),
    NegInt(i64),
    Float(Fraction),
    Str(String),
    Array(Vec<Json>),
    Object(Vec<(String, Json)>),
}

/// What a JSON value means.
#[verifier::ext_equal]
pub enum JsonView {
    Null,
    Bool(bool),
    Int(int),
    Float(serde_json::Number),
    Str(Seq<char>),
    Array(Seq<JsonView>),
    Object(Map<Seq<char>, JsonView>),
}

/// The views of the items of an array.
pub open spec fn items_view(items: Seq<Json>) -> Seq<JsonView>
    decreases items,
{
    if items.len() == 0 {
        Seq::empty()
    } else {
        items_view(items.drop_last()).push(items.last()@)
    }
}

/// The map that the entries of an object stand for.
pub open spec fn entries_view(entries: Seq<(String, Json)>) -> Map<Seq<char>, JsonView>
    decreases entries,
{
    if entries.len() == 0 {
        Map::empty()
    } else {
        entries_view(entries.drop_last()).insert(entries.last().0@, entries.last().1@)
    }
}

impl View for Json {
    type V = JsonView;

    open spec fn view(&self) -> JsonView
        decreases self,
    {
        match self {
            Json::Null => JsonView::Null,
            Json::Bool(b) => JsonView::Bool(*b),
            Json::PosInt(n) => JsonView::Int(*n as int),
            Json::NegInt(n) => JsonView::Int(*n as int),
            Json::Float(n) => JsonView::Float(n.spec_number()),
            Json::Str(s) => JsonView::Str(s@),
            Json::Array(items) => JsonView::Array(items_view(items@)),
            Json::Object(entries) => JsonView::Object(entries_view(entries@)),
        }
    }
}

/// The view of an optional value.
pub open spec fn opt_json(j: Option<&Json>) -> Option<JsonView> {
    match j {
        Some(v) => Some(v@),
        None => None,
    }
}

impl JsonView {
    /// The value of the field `key` of an object.
    pub open spec fn get(self, key: Seq<char>) -> Option<JsonView> {
        match self {
            JsonView::Object(m) => if m.contains_key(key) {
                Some(m[key])
            } else {
                None
            },
            _ => None,
        }
    }

    /// The text of a string.
    pub open spec fn as_str(self) -> Option<Seq<char>> {
        match self {
            JsonView::Str(s) => Some(s),
            _ => None,
        }
    }

    /// The items of an array.
    pub open spec fn as_array(self) -> Option<Seq<JsonView>> {
        match self {
            JsonView::Array(a) => Some(a),
            _ => None,
        }
    }

    /// The integer that a number is, where it lies in the range of `i64`.
    pub open spec fn as_i64(self) -> Option<int> {
        match self {
            JsonView::Int(n) => if i64::MIN <= n <= i64::MAX {
                Some(n)
            } else {
                None
            },
            _ => None,
        }
    }

    /// The integer that a number is, where it lies in the range of `u64`.
    pub open spec fn as_u64(self) -> Option<int> {
        match self {
            JsonView::Int(n) => if 0 <= n <= u64::MAX {
                Some(n)
            } else {
                None
            },
            _ => None,
        }
    }

    /// The text of the string field `key`.
    pub open spec fn get_str(self, key: Seq<char>) -> Option<Seq<char>> {
        match self.get(key) {
            Some(v) => v.as_str(),
            None => None,
        }
    }

    /// The items of the array field `key`.
    pub open spec fn get_array(self, key: Seq<char>) -> Option<Seq<JsonView>> {
        match self.get(key) {
            Some(v) => v.as_array(),
            None => None,
        }
    }

    /// An object with the field `key` set to `value`.
    pub open spec fn with(self, key: Seq<char>, value: JsonView) -> JsonView {
        match self {
            JsonView::Object(m) => JsonView::Object(m.insert(key, value)),
            _ => self,
        }
    }

    /// An array with one more item at its end.
    pub open spec fn item(self, value: JsonView) -> JsonView {
        match self {
            JsonView::Array(a) => JsonView::Array(a.push(value)),
            _ => self,
        }
    }
}

/// The object without fields.
pub open spec fn object() -> JsonView {
    JsonView::Object(Map::empty())
}

/// The array without items.
pub open spec fn array() -> JsonView {
    JsonView::Array(Seq::empty())
}

/// A string or, where there is none, null.
pub open spec fn str_or_null(s: Option<Seq<char>>) -> JsonView {
    match s {
        Some(t) => JsonView::Str(t),
        None => JsonView::Null,
    }
}

/// An integer or, where there is none, null.
pub open spec fn int_or_null(n: Option<i64>) -> JsonView {
    match n {
        Some(v) => JsonView::Int(v as int),
        None => JsonView::Null,
    }
}

// ---------------------------------------------------------------------------
// Lemmas
// ---------------------------------------------------------------------------

/// The items of an array are viewed one by one.
pub proof fn lemma_items_view(items: Seq<Json>)
    ensures
        items_view(items).len() == items.len(),
        forall|i: int| 0 <= i < items.len() ==> #[trigger] items_view(items)[i] == items[i]@,
    decreases items.len(),
{
    if items.len() > 0 {
        lemma_items_view(items.drop_last());
        assert(items_view(items) == items_view(items.drop_last()).push(items.last()@));
        assert forall|i: int| 0 <= i < items.len() implies #[trigger] items_view(items)[i]
            == items[i]@ by {
            if i < items.len() - 1 {
                assert(items.drop_last()[i] == items[i]);
            }
        }
    }
}

/// One more item of an array is one more item of its view.
pub proof fn lemma_items_push(items: Seq<Json>, v: Json)
    ensures
        items_view(items.push(v)) == items_view(items).push(v@),
{
    assert(items.push(v).drop_last() =~= items);
}

/// One more entry of an object is one more field, or a field with a new value.
pub proof fn lemma_entries_push(entries: Seq<(String, Json)>, e: (String, Json))
    ensures
        entries_view(entries.push(e)) == entries_view(entries).insert(e.0@, e.1@),
{
    assert(entries.push(e).drop_last() =~= entries);
}

// ---------------------------------------------------------------------------
// Reading
// ---------------------------------------------------------------------------

/// The value of the last entry of the given name among the first `n`.
fn find_entry<'a>(entries: &'a Vec<(String, Json)>, key: &str) -> (r: Option<&'a Json>)
    ensures
        opt_json(r) == JsonView::Object(entries_view(entries@)).get(key@),
{
    let mut n: usize = entries.len();
    proof {
        assert(entries@.take(n as int) =~= entries@);
    }
    while n > 0
        invariant
            n <= entries@.len(),
            JsonView::Object(entries_view(entries@)).get(key@) == JsonView::Object(
                entries_view(entries@.take(n as int)),
            ).get(key@),
        decreases n,
    {
        proof {
            assert(entries@.take(n as int).drop_last() =~= entries@.take(n as int - 1));
            lemma_entries_push(entries@.take(n as int - 1), entries@[n - 1]);
            assert(entries@.take(n as int) =~= entries@.take(n as int - 1).push(entries@[n - 1]));
        }
        if same_text(entries[n - 1].0.as_str(), key) {
            return Some(&entries[n - 1].1);
        }
        n -= 1;
    }
    None
}

impl Json {
    /// The value of the field `key` of an object.
    pub fn get(&self, key: &str) -> (r: Option<&Json>)
        ensures
            opt_json(r) == self@.get(key@),
    {
        match self {
            Json::Object(entries) => find_entry(entries, key),
            _ => None,
        }
    }

    /// The text of a string.
    pub fn as_str(&self) -> (r: Option<&str>)
        ensures
            opt_text(r) == self@.as_str(),
    {
        match self {
            Json::Str(s) => Some(s.as_str()),
            _ => None,
        }
    }

    /// The items of an array.
    pub fn as_array(&self) -> (r: Option<&Vec<Json>>)
        ensures
            match r {
                Some(a) => self@.as_array() == Some(items_view(a@)),
                None => self@.as_array() is None,
            },
    {
        match self {
            Json::Array(a) => Some(a),
            _ => None,
        }
    }

    /// The text of the string field `key`.
    pub fn get_str(&self, key: &str) -> (r: Option<&str>)
        ensures
            opt_text(r) == self@.get_str(key@),
    {
        match self.get(key) {
            Some(v) => v.as_str(),
            None => None,
        }
    }

    /// The items of the array field `key`.
    pub fn get_array(&self, key: &str) -> (r: Option<&Vec<Json>>)
        ensures
            match r {
                Some(a) => self@.get_array(key@) == Some(items_view(a@)),
                None => self@.get_array(key@) is None,
            },
    {
        match self.get(key) {
            Some(v) => v.as_array(),
            None => None,
        }
    }

    /// The integer that a number is, where it lies in the range of `i64`.
    pub fn as_i64(&self) -> (r: Option<i64>)
        ensures
            match r {
                Some(n) => self@.as_i64() == Some(n as int),
                None => self@.as_i64() is None,
            },
    {
        match self {
            Json::PosInt(n) => if *n <= i64::MAX as u64 {
                Some(*n as i64)
            } else {
                None
            },
            Json::NegInt(n) => Some(*n),
            _ => None,
        }
    }

    /// The integer that a number is, where it lies in the range of `u64`.
    pub fn as_u64(&self) -> (r: Option<u64>)
        ensures
            match r {
                Some(n) => self@.as_u64() == Some(n as int),
                None => self@.as_u64() is None,
            },
    {
        match self {
            Json::PosInt(n) => Some(*n),
            Json::NegInt(n) => if *n >= 0 {
                Some(*n as u64)
            } else {
                None
            },
            _ => None,
        }
    }

    /// Whether the value is an object.
    pub fn is_object(&self) -> (r: bool)
        ensures
            r == (self@ is Object),
    {
        match self {
            Json::Object(_) => true,
            _ => false,
        }
    }

    /// Whether the value is a string.
    pub fn is_string(&self) -> (r: bool)
        ensures
            r == (self@ is Str),
    {
        match self {
            Json::Str(_) => true,
            _ => false,
        }
    }

    /// Whether the value is an array.
    pub fn is_array(&self) -> (r: bool)
        ensures
            r == (self@ is Array),
    {
        match self {
            Json::Array(_) => true,
            _ => false,
        }
    }

    // -----------------------------------------------------------------------
    // Building
    // -----------------------------------------------------------------------

    /// The object without fields.
    pub fn object() -> (r: Json)
        ensures
            r@ == object(),
    {
        Json::Object(Vec::new())
    }

    /// The array without items.
    pub fn array() -> (r: Json)
        ensures
            r@ == array(),
    {
        Json::Array(Vec::new())
    }

    /// A string.
    pub fn str(s: &str) -> (r: Json)
        ensures
            r@ == JsonView::Str(s@),
    {
        Json::Str(s.to_string())
    }

    /// An integer.
    pub fn integer(n: i64) -> (r: Json)
        ensures
            r@ == JsonView::Int(n as int),
    {
        if n >= 0 {
            Json::PosInt(n as u64)
        } else {
            Json::NegInt(n)
        }
    }

    /// An integer that is not negative.
    pub fn uint(n: u64) -> (r: Json)
        ensures
            r@ == JsonView::Int(n as int),
    {
        Json::PosInt(n)
    }

    /// A string or, where there is none, null.
    pub fn opt_str(s: Option<&str>) -> (r: Json)
        ensures
            r@ == str_or_null(opt_text(s)),
    {
        match s {
            Some(t) => Json::str(t),
            None => Json::Null,
        }
    }

    /// An integer or, where there is none, null.
    pub fn opt_int(n: Option<i64>) -> (r: Json)
        ensures
            r@ == int_or_null(n),
    {
        match n {
            Some(v) => Json::integer(v),
            None => Json::Null,
        }
    }

    /// An object with the field `key` set to `value`.
    pub fn with(self, key: &str, value: Json) -> (r: Json)
        ensures
            r@ == self@.with(key@, value@),
    {
        match self {
            Json::Object(entries) => {
                let mut entries = entries;
                let ghost before = entries@;
                let entry = (key.to_string(), value);
                proof {
                    lemma_entries_push(before, entry);
                }
                entries.push(entry);
                Json::Object(entries)
            },
            other => other,
        }
    }

    /// An array with one more item at its end.
    pub fn item(self, value: Json) -> (r: Json)
        ensures
            r@ == self@.item(value@),
    {
        match self {
            Json::Array(items) => {
                let mut items = items;
                proof {
                    lemma_items_push(items@, value);
                }
                items.push(value);
                Json::Array(items)
            },
            other => other,
        }
    }

    /// Another value with the same meaning.
    pub fn copy(&self) -> (r: Json)
        ensures
            r@ == self@,
        decreases self,
    {
        match self {
            Json::Null => Json::Null,
            Json::Bool(b) => Json::Bool(*b),
            Json::PosInt(n) => Json::PosInt(*n),
            Json::NegInt(n) => Json::NegInt(*n),
            Json::Float(n) => Json::Float(n.copy()),
            Json::Str(s) => Json::Str(s.clone()),
            Json::Array(items) => Json::Array(copy_items(items)),
            Json::Object(entries) => Json::Object(copy_entries(entries)),
        }
    }
}

/// Other entries with the same meaning as the given ones.
fn copy_entries(entries: &Vec<(String, Json)>) -> (r: Vec<(String, Json)>)
    ensures
        entries_view(r@) == entries_view(entries@),
    decreases entries,
{
    let mut out: Vec<(String, Json)> = Vec::new();
    let n: usize = entries.len();
    let mut i: usize = 0;
    while i < n
        invariant
            n == entries@.len(),
            i <= n,
            entries_view(out@) == entries_view(entries@.take(i as int)),
        decreases n - i,
    {
        let entry = &entries[i];
        proof {
            assert(decreases_to!(entries => entries[i as int]));
            assert(decreases_to!(entry => entry.1));
        }
        let value = entry.1.copy();
        let twin = (entry.0.clone(), value);
        proof {
            lemma_entries_push(out@, twin);
            lemma_entries_push(entries@.take(i as int), entries@[i as int]);
            assert(entries@.take(i as int + 1) =~= entries@.take(i as int).push(
                entries@[i as int],
            ));
        }
        out.push(twin);
        i += 1;
    }
    proof {
        assert(entries@.take(n as int) =~= entries@);
    }
    out
}

/// Other values with the same meaning as the given ones.
pub fn copy_items(items: &Vec<Json>) -> (r: Vec<Json>)
    ensures
        items_view(r@) == items_view(items@),
        r@.len() == items@.len(),
    decreases items,
{
    let mut out: Vec<Json> = Vec::new();
    let n: usize = items.len();
    let mut i: usize = 0;
    while i < n
        invariant
            n == items@.len(),
            i <= n,
            out@.len() == i,
            items_view(out@) == items_view(items@.take(i as int)),
        decreases n - i,
    {
        let value = items[i].copy();
        proof {
            lemma_items_push(out@, value);
            lemma_items_push(items@.take(i as int), items@[i as int]);
            assert(items@.take(i as int + 1) =~= items@.take(i as int).push(items@[i as int]));
        }
        out.push(value);
        i += 1;
    }
    proof {
        assert(items@.take(n as int) =~= items@);
    }
    out
}

/// A field that is set is read back, and no other is changed by it; an item that is added comes
/// last, behind all that were there.
pub proof fn fields_are_read_back(j: JsonView, key: Seq<char>, other: Seq<char>, v: JsonView)
    ensures
        j is Object ==> j.with(key, v).get(key) == Some(v),
        j is Object && other != key ==> j.with(key, v).get(other) == j.get(other),
        object().get(key) is None,
        j matches JsonView::Array(a) ==> (j.item(v) matches JsonView::Array(b) && b.len() == a.len()
            + 1 && b.last() == v && b.drop_last() == a),
        array() matches JsonView::Array(a) && a.len() == 0,
{
    if let JsonView::Array(a) = j {
        assert(a.push(v).drop_last() =~= a);
    }
}

/// A number is read as it is where it fits, and nothing else is read as a number, a text or a
/// list.
pub proof fn values_are_read_as_they_are(n: int, s: Seq<char>, a: Seq<JsonView>)
    ensures
        i64::MIN <= n <= i64::MAX ==> JsonView::Int(n).as_i64() == Some(n),
        n < i64::MIN || n > i64::MAX ==> JsonView::Int(n).as_i64() is None,
        0 <= n <= u64::MAX ==> JsonView::Int(n).as_u64() == Some(n),
        n < 0 || n > u64::MAX ==> JsonView::Int(n).as_u64() is None,
        JsonView::Str(s).as_str() == Some(s),
        JsonView::Str(s).as_i64() is None && JsonView::Str(s).as_u64() is None && JsonView::Str(
            s,
        ).as_array() is None,
        JsonView::Array(a).as_array() == Some(a),
        JsonView::Array(a).as_str() is None && JsonView::Int(n).as_str() is None,
{
}

/// Of two entries of one name the later one counts.
pub proof fn later_entries_override(entries: Seq<(String, Json)>, i: int)
    requires
        0 <= i < entries.len(),
        forall|k: int| i < k < entries.len() ==> (#[trigger] entries[k]).0@ != entries[i].0@,
    ensures
        entries_view(entries).contains_key(entries[i].0@),
        entries_view(entries)[entries[i].0@] == entries[i].1@,
    decreases entries.len(),
{
    let last = entries.last();
    lemma_entries_push(entries.drop_last(), last);
    assert(entries.drop_last().push(last) =~= entries);
    if i < entries.len() - 1 {
        let rest = entries.drop_last();
        assert(last == entries[entries.len() - 1]);
        assert forall|k: int| i < k < rest.len() implies (#[trigger] rest[k]).0@
            != rest[i].0@ by {
            assert(rest[k] == entries[k]);
        }
        later_entries_override(rest, i);
        assert(rest[i] == entries[i]);
    }
}

} // verus!
