//! The text form of JSON values, read and written by `serde_json`.

use crate::json::{
    entries_view, is_fraction, items_view, lemma_entries_push, lemma_items_push, lemma_items_view,
    Fraction, Json, JsonView,
};
use vstd::prelude::*;
use vstd::utf8::*;

verus! {

/// What a `serde_json::Value` holds.
pub uninterp spec fn value_model(v: serde_json::Value) -> JsonView;

/// What `serde_json::from_slice` reads from a text in UTF-8: the value that the text is, or
/// why it is none.
pub uninterp spec fn json_parse(text: Seq<u8>) -> Result<JsonView, Seq<char>>;

/// What `serde_json::Error` says when it is displayed.
pub uninterp spec fn json_error_text(e: serde_json::Error) -> Seq<char>;

/// What `serde_json::to_string` writes for a value: its compact text, the fields of an
/// object in the order of their names.
pub uninterp spec fn json_text(j: JsonView) -> Seq<char>;

/// The outermost layer of a `serde_json::Value`.
pub enum Layer {
    Null,
    Bool(bool),
    PosInt(u64),
    NegInt(i64),
    Float(serde_json::Number),
    Str(String),
    Array(Vec<serde_json::Value>),
    Object(Vec<(String, serde_json::Value)>),
}

/// The map that the entries of an object stand for.
pub open spec fn layer_entries(entries: Seq<(String, serde_json::Value)>) -> Map<
    Seq<char>,
    JsonView,
>
    decreases entries.len(),
{
    if entries.len() == 0 {
        Map::empty()
    } else {
        layer_entries(entries.drop_last()).insert(
            entries.last().0@,
            value_model(entries.last().1),
        )
    }
}

/// What a layer stands for.
pub open spec fn layer_model(layer: Layer) -> JsonView {
    match layer {
        Layer::Null => JsonView::Null,
        Layer::Bool(b) => JsonView::Bool(b),
        Layer::PosInt(n) => JsonView::Int(n as int),
        Layer::NegInt(n) => JsonView::Int(n as int),
        Layer::Float(n) => JsonView::Float(n),
        Layer::Str(s) => JsonView::Str(s@),
        Layer::Array(items) => JsonView::Array(
            items@.map_values(|v: serde_json::Value| value_model(v)),
        ),
        Layer::Object(entries) => JsonView::Object(layer_entries(entries@)),
    }
}

/// No two entries have the same name.
pub open spec fn distinct_names(entries: Seq<(String, serde_json::Value)>) -> bool {
    forall|i: int, j: int|
        0 <= i < j < entries.len() ==> (#[trigger] entries[i]).0@ != (#[trigger] entries[j]).0@
}

/// Takes a `serde_json::Value` apart, with `Number::is_f64`, `as_u64` and `as_i64` to tell
/// the three kinds of numbers. The parts are what the value holds; the names of an object
/// are distinct.
#[verifier::external_body]
fn value_layer(v: serde_json::Value) -> (r: Layer)
    ensures
        layer_model(r) == value_model(v),
        r matches Layer::Object(entries) ==> distinct_names(entries@),
        r matches Layer::Float(n) ==> is_fraction(n),
{
    match v {
        serde_json::Value::Null => Layer::Null,
        serde_json::Value::Bool(b) => Layer::Bool(b),
        serde_json::Value::Number(n) => match (n.is_f64(), n.as_u64(), n.as_i64()) {
            (false, Some(u), _) => Layer::PosInt(u),
            (false, None, Some(i)) => Layer::NegInt(i),
            _ => Layer::Float(n),
        },
        serde_json::Value::String(s) => Layer::Str(s),
        serde_json::Value::Array(items) => Layer::Array(items),
        serde_json::Value::Object(entries) => Layer::Object(entries.into_iter().collect()),
    }
}

/// Puts a `serde_json::Value` together. It holds what the parts stand for; of the entries
/// of an object that share a name, the last one counts.
#[verifier::external_body]
fn layer_value(layer: Layer) -> (r: serde_json::Value)
    requires
        layer matches Layer::Float(n) ==> is_fraction(n),
    ensures
        value_model(r) == layer_model(layer),
{
    match layer {
        Layer::Null => serde_json::Value::Null,
        Layer::Bool(b) => serde_json::Value::Bool(b),
        Layer::PosInt(n) => serde_json::Value::from(n),
        Layer::NegInt(n) => serde_json::Value::from(n),
        Layer::Float(n) => serde_json::Value::Number(n),
        Layer::Str(s) => serde_json::Value::String(s),
        Layer::Array(items) => serde_json::Value::Array(items),
        Layer::Object(entries) => serde_json::Value::Object(entries.into_iter().collect()),
    }
}

/// `serde_json::from_slice` into a `serde_json::Value`. What it reads, and whether it reads
/// anything, depends on the bytes alone.
#[verifier::external_body]
fn value_from_slice(text: &[u8]) -> (r: Result<serde_json::Value, serde_json::Error>)
    ensures
        match r {
            Ok(v) => json_parse(text@) == Ok::<JsonView, Seq<char>>(value_model(v)),
            Err(e) => json_parse(text@) == Err::<JsonView, Seq<char>>(json_error_text(e)),
        },
{
    serde_json::from_slice(text)
}

/// The display of a `serde_json::Error`.
#[verifier::external_body]
fn error_text(e: &serde_json::Error) -> (r: String)
    ensures
        r@ == json_error_text(*e),
{
    e.to_string()
}

/// A text is read as a value.
pub open spec fn reads_as(text: Seq<u8>, j: JsonView) -> bool {
    json_parse(text) matches Ok(v) && v == j
}

/// A value without fractions, and without a field of the name that `serde_json` keeps for raw
/// values, in which arrays and objects lie at most `depth` deep in one another.
pub open spec fn is_plain_json(j: JsonView, depth: nat) -> bool
    decreases depth,
{
    match j {
        JsonView::Float(_) => false,
        JsonView::Array(items) => depth > 0 && forall|i: int|
            0 <= i < items.len() ==> is_plain_json(#[trigger] items[i], (depth - 1) as nat),
        JsonView::Object(fields) => depth > 0 && !fields.contains_key(
            "$serde_json::private::RawValue"@,
        ) && forall|k: Seq<char>|
            fields.contains_key(k) ==> is_plain_json(#[trigger] fields[k], (depth - 1) as nat),
        _ => true,
    }
}

/// `serde_json::to_string` of a `serde_json::Value`. What it writes depends on what the
/// value holds alone, and holds no control character: the compact form puts nothing
/// between its tokens, and escapes such a character inside a string. What is written is read
/// back as it was. Three kinds of values are left out of that: fractions, whose last digit may
/// change on the way, values nested so deep that `serde_json::from_slice` refuses them, and
/// objects with a field `$serde_json::private::RawValue`, which are read as the text in it.
#[verifier::external_body]
fn value_to_string(v: &serde_json::Value) -> (r: String)
    ensures
        r@ == json_text(value_model(*v)),
        no_control(r@),
        is_plain_json(value_model(*v), 127) ==> reads_as(encode_utf8(r@), value_model(*v)),
{
    serde_json::to_string(v).unwrap()
}

/// No character of the text is a control character below the space.
pub open spec fn no_control(s: Seq<char>) -> bool {
    forall|i: int| 0 <= i < s.len() ==> (#[trigger] s[i]) as u32 >= 0x20
}

proof fn lemma_layer_entries(entries: Seq<(String, serde_json::Value)>, i: int)
    requires
        distinct_names(entries),
        0 <= i < entries.len(),
    ensures
        layer_entries(entries).dom().finite(),
        layer_entries(entries).contains_key(entries[i].0@),
        layer_entries(entries)[entries[i].0@] == value_model(entries[i].1),
    decreases entries.len(),
{
    let rest = entries.drop_last();
    lemma_layer_entries_finite(entries);
    if i < entries.len() - 1 {
        assert(rest[i] == entries[i]);
        assert forall|a: int, b: int| 0 <= a < b < rest.len() implies (#[trigger] rest[a]).0@ != (
        #[trigger] rest[b]).0@ by {
            assert(entries[a].0@ != entries[b].0@);
        }
        lemma_layer_entries(rest, i);
        assert(entries[i].0@ != entries[entries.len() - 1].0@);
    }
}

proof fn lemma_layer_entries_finite(entries: Seq<(String, serde_json::Value)>)
    ensures
        layer_entries(entries).dom().finite(),
    decreases entries.len(),
{
    if entries.len() > 0 {
        lemma_layer_entries_finite(entries.drop_last());
    }
}

proof fn lemma_layer_entries_push(
    entries: Seq<(String, serde_json::Value)>,
    e: (String, serde_json::Value),
)
    ensures
        layer_entries(entries.push(e)) == layer_entries(entries).insert(e.0@, value_model(e.1)),
{
    assert(entries.push(e).drop_last() =~= entries);
}

/// The value that a `serde_json::Value` holds.
fn json_of_value(v: serde_json::Value) -> (r: Json)
    ensures
        r@ == value_model(v),
    decreases value_model(v),
{
    let ghost model = value_model(v);
    match value_layer(v) {
        Layer::Null => Json::Null,
        Layer::Bool(b) => Json::Bool(b),
        Layer::PosInt(n) => Json::PosInt(n),
        Layer::NegInt(n) => Json::NegInt(n),
        Layer::Float(n) => Json::Float(Fraction::new(n)),
        Layer::Str(s) => Json::Str(s),
        Layer::Array(items) => {
            let ghost all = items@;
            let ghost views = all.map_values(|v: serde_json::Value| value_model(v));
            let mut out: Vec<Json> = Vec::new();
            #[verifier::loop_isolation(false)]
            for item in it: items
                invariant
                    it.seq() == all,
                    out@.len() == it.index(),
                    items_view(out@) == views.take(it.index() as int),
            {
                let ghost k = it.index() as int;
                proof {
                    assert(views[k] == value_model(item));
                    assert(decreases_to!(model => model->Array_0));
                    assert(decreases_to!(views => views[k]));
                }
                let j = json_of_value(item);
                proof {
                    lemma_items_push(out@, j);
                    assert(views.take(k + 1) =~= views.take(k).push(views[k]));
                }
                out.push(j);
            }
            proof {
                assert(views.take(all.len() as int) =~= views);
            }
            Json::Array(out)
        },
        Layer::Object(entries) => {
            let ghost all = entries@;
            let ghost map = layer_entries(all);
            let mut out: Vec<(String, Json)> = Vec::new();
            proof {
                assert(all.take(0) =~= Seq::empty());
            }
            #[verifier::loop_isolation(false)]
            for entry in it: entries
                invariant
                    it.seq() == all,
                    entries_view(out@) == layer_entries(all.take(it.index() as int)),
            {
                let ghost k = it.index() as int;
                let (name, value) = entry;
                proof {
                    lemma_layer_entries(all, k);
                    assert(decreases_to!(model => model->Object_0));
                    assert(decreases_to!(map => map[name@]));
                }
                let twin = (name, json_of_value(value));
                proof {
                    lemma_entries_push(out@, twin);
                    lemma_layer_entries_push(all.take(k), all[k]);
                    assert(all.take(k + 1) =~= all.take(k).push(all[k]));
                }
                out.push(twin);
            }
            proof {
                assert(all.take(all.len() as int) =~= all);
            }
            Json::Object(out)
        },
    }
}

/// The `serde_json::Value` that holds a value.
fn value_of_json(j: &Json) -> (r: serde_json::Value)
    ensures
        value_model(r) == j@,
    decreases j,
{
    let layer = match j {
        Json::Null => Layer::Null,
        Json::Bool(b) => Layer::Bool(*b),
        Json::PosInt(n) => Layer::PosInt(*n),
        Json::NegInt(n) => Layer::NegInt(*n),
        Json::Float(n) => Layer::Float(n.number()),
        Json::Str(s) => Layer::Str(s.clone()),
        Json::Array(items) => Layer::Array(values_of_items(items)),
        Json::Object(entries) => Layer::Object(values_of_entries(entries)),
    };
    layer_value(layer)
}

fn values_of_items(items: &Vec<Json>) -> (r: Vec<serde_json::Value>)
    ensures
        r@.map_values(|v: serde_json::Value| value_model(v)) == items_view(items@),
    decreases items,
{
    let mut out: Vec<serde_json::Value> = Vec::new();
    let n: usize = items.len();
    let mut i: usize = 0;
    while i < n
        invariant
            n == items@.len(),
            i <= n,
            out@.len() == i,
            forall|k: int| 0 <= k < i ==> value_model(#[trigger] out@[k]) == items@[k]@,
        decreases n - i,
    {
        out.push(value_of_json(&items[i]));
        i += 1;
    }
    proof {
        lemma_items_view(items@);
        assert(out@.map_values(|v: serde_json::Value| value_model(v)) =~= items_view(items@));
    }
    out
}

fn values_of_entries(entries: &Vec<(String, Json)>) -> (r: Vec<(String, serde_json::Value)>)
    ensures
        layer_entries(r@) == entries_view(entries@),
    decreases entries,
{
    let mut out: Vec<(String, serde_json::Value)> = Vec::new();
    let n: usize = entries.len();
    let mut i: usize = 0;
    while i < n
        invariant
            n == entries@.len(),
            i <= n,
            layer_entries(out@) == entries_view(entries@.take(i as int)),
        decreases n - i,
    {
        let entry = &entries[i];
        proof {
            assert(decreases_to!(entries => entries[i as int]));
            assert(decreases_to!(entry => entry.1));
        }
        let twin = (entry.0.clone(), value_of_json(&entry.1));
        proof {
            lemma_layer_entries_push(out@, twin);
            lemma_entries_push(entries@.take(i as int), entries@[i as int]);
            assert(entries@.take(i as int + 1) =~= entries@.take(i as int).push(
                entries@[i as int],
            ));
        }
        out.push(twin);
        i += 1;
    }
    proof {
        assert(entries@.take(n as int) =~= entries@);
    }
    out
}

/// Reads a value from its text in UTF-8; where the text is none, says why.
pub fn parse_json_bytes(text: &[u8]) -> (r: Result<Json, String>)
    ensures
        match r {
            Ok(j) => json_parse(text@) == Ok::<JsonView, Seq<char>>(j@),
            Err(why) => json_parse(text@) == Err::<JsonView, Seq<char>>(why@),
        },
{
    match value_from_slice(text) {
        Ok(v) => Ok(json_of_value(v)),
        Err(e) => Err(error_text(&e)),
    }
}

/// Reads a value from its text.
pub fn parse_json(text: &str) -> (r: Option<Json>)
    ensures
        match r {
            Some(j) => json_parse(encode_utf8(text@)) == Ok::<JsonView, Seq<char>>(j@),
            None => json_parse(encode_utf8(text@)) is Err,
        },
{
    match parse_json_bytes(text.as_bytes()) {
        Ok(j) => Some(j),
        Err(_) => None,
    }
}

/// Writes the compact text of a value. What is written is read back as it was, where the value
/// is plain.
pub fn json_to_string(j: &Json) -> (r: String)
    ensures
        r@ == json_text(j@),
        no_control(r@),
        is_plain_json(j@, 127) ==> reads_as(encode_utf8(r@), j@),
{
    let v = value_of_json(j);
    value_to_string(&v)
}

} // verus!
