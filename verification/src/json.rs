//! JSON documents, held and written out by the `serde_json` crate.

use vstd::prelude::*;
use vstd::string::*;
use serde_json::Value;
use crate::text::owned;

verus! {

/// A JSON document. The fields of an object stand in the order in which they are written.
pub enum JsonView {
    Null,
    Num(u64),
    Str(Seq<char>),
    Arr(Seq<JsonView>),
    Obj(Seq<(Seq<char>, JsonView)>),
}

/// `serde_json::Value`, a JSON document.
#[verifier::external_type_specification]
#[verifier::external_body]
pub struct ExValue(serde_json::Value);

/// The document that a `serde_json::Value` holds.
pub uninterp spec fn json_of(v: serde_json::Value) -> JsonView;

/// The documents of a list.
pub open spec fn jsons(items: Seq<Value>) -> Seq<JsonView> {
    items.map_values(|v: Value| json_of(v))
}

/// The fields of an object.
pub open spec fn fields_of(fields: Seq<(String, Value)>) -> Seq<(Seq<char>, JsonView)> {
    Seq::new(fields.len(), |i: int| (fields[i].0@, json_of(fields[i].1)))
}

/// No two fields have the same key.
pub open spec fn keys_distinct<V>(fields: Seq<(Seq<char>, V)>) -> bool {
    forall|i: int, j: int|
        0 <= i < j < fields.len() ==> (#[trigger] fields[i]).0 != (#[trigger] fields[j]).0
}

/// `serde_json::Value::Null` is the null document.
#[verifier::external_body]
fn null_value() -> (r: Value)
    ensures
        json_of(r) == JsonView::Null,
{
    serde_json::Value::Null
}

/// `serde_json::Value::from` a number is that number.
#[verifier::external_body]
fn number_value(n: u64) -> (r: Value)
    ensures
        json_of(r) == JsonView::Num(n),
{
    serde_json::Value::from(n)
}

/// `serde_json::Value::from` a text is that text.
#[verifier::external_body]
fn text_value(s: &str) -> (r: Value)
    ensures
        json_of(r) == JsonView::Str(s@),
{
    serde_json::Value::from(s)
}

/// `serde_json::Value::Array` holds the documents of a list, in order.
#[verifier::external_body]
fn list_value(items: Vec<Value>) -> (r: Value)
    ensures
        json_of(r) == JsonView::Arr(jsons(items@)),
{
    serde_json::Value::Array(items)
}

/// `serde_json::Value::Object` holds fields under distinct keys, in the order in which
/// `serde_json::Map` collected them (the map keeps the order of insertion).
#[verifier::external_body]
fn object_value(fields: Vec<(String, Value)>) -> (r: Value)
    requires
        keys_distinct(fields_of(fields@)),
    ensures
        json_of(r) == JsonView::Obj(fields_of(fields@)),
{
    serde_json::Value::Object(fields.into_iter().collect())
}

/// What `serde_json::to_string_pretty` writes for a document.
pub uninterp spec fn pretty_json(v: JsonView) -> Seq<char>;

/// Calls `serde_json::to_string_pretty`, which fails only on a map with keys that are no
/// texts or a value that refuses to be written; a `serde_json::Value` is neither. The text
/// depends on the document alone.
#[verifier::external_body]
pub(crate) fn pretty(v: &Value) -> (r: Result<String, String>)
    ensures
        r is Ok,
        r->Ok_0@ == pretty_json(json_of(*v)),
{
    serde_json::to_string_pretty(v).map_err(|e| e.to_string())
}

// ---------------------------------------------------------------- building

/// A text as a document.
pub fn text(s: &str) -> (r: Value)
    ensures
        json_of(r) == JsonView::Str(s@),
{
    text_value(s)
}

/// A number as a document.
pub fn number(n: u64) -> (r: Value)
    ensures
        json_of(r) == JsonView::Num(n),
{
    number_value(n)
}

/// A list as a document.
pub fn list(items: Vec<Value>) -> (r: Value)
    ensures
        json_of(r) == JsonView::Arr(jsons(items@)),
{
    list_value(items)
}

/// A list of one document.
pub open spec fn single_json(v: JsonView) -> JsonView {
    JsonView::Arr(seq![v])
}

/// A list of one document.
pub fn single(v: Value) -> (r: Value)
    ensures
        json_of(r) == single_json(json_of(v)),
{
    let ghost j = json_of(v);
    let mut items: Vec<Value> = Vec::new();
    items.push(v);
    assert(jsons(items@) =~= seq![j]);
    list(items)
}

/// An optional text: null if there is none.
pub open spec fn optional_json(o: Option<Seq<char>>) -> JsonView {
    match o {
        Some(s) => JsonView::Str(s),
        None => JsonView::Null,
    }
}

/// An optional text as a document.
pub fn optional(o: Option<&str>) -> (r: Value)
    ensures
        json_of(r) == optional_json(o.deep_view()),
{
    match o {
        Some(s) => text(s),
        None => null_value(),
    }
}

/// A list of texts.
pub open spec fn texts_json(s: Seq<Seq<char>>) -> JsonView {
    JsonView::Arr(s.map_values(|t: Seq<char>| JsonView::Str(t)))
}

/// A list of texts as a document.
pub fn texts(s: &Vec<String>) -> (r: Value)
    ensures
        json_of(r) == texts_json(s.deep_view()),
{
    let ghost all = s.deep_view();
    let mut items: Vec<Value> = Vec::new();
    let mut i: usize = 0;
    while i < s.len()
        invariant
            all == s.deep_view(),
            i <= s@.len(),
            items@.len() == i,
            forall|j: int| 0 <= j < i ==> json_of(#[trigger] items@[j]) == JsonView::Str(all[j]),
        decreases s.len() - i,
    {
        items.push(text(s[i].as_str()));
        i += 1;
    }
    assert(jsons(items@) =~= all.map_values(|t: Seq<char>| JsonView::Str(t)));
    list(items)
}

/// The fields that are given, in order.
pub open spec fn present(slots: Seq<(Seq<char>, Option<JsonView>)>) -> Seq<(Seq<char>, JsonView)>
    decreases slots.len(),
{
    if slots.len() == 0 {
        Seq::empty()
    } else {
        match slots.last().1 {
            Some(v) => present(slots.drop_last()).push((slots.last().0, v)),
            None => present(slots.drop_last()),
        }
    }
}

/// An object of the fields that are given.
pub open spec fn record_json(slots: Seq<(Seq<char>, Option<JsonView>)>) -> JsonView {
    JsonView::Obj(present(slots))
}

/// The document of a field that may not be given.
pub open spec fn maybe_json(o: Option<Value>) -> Option<JsonView> {
    match o {
        Some(v) => Some(json_of(v)),
        None => None,
    }
}

/// The fields of an object, some of which may not be given.
pub open spec fn slots_of(slots: Seq<(&'static str, Option<Value>)>) -> Seq<
    (Seq<char>, Option<JsonView>),
> {
    Seq::new(
        slots.len(),
        |i: int|
            (
                slots[i].0@,
                maybe_json(slots[i].1),
            ),
    )
}

/// A field that is given stands under the key of its slot.
proof fn present_keys(slots: Seq<(Seq<char>, Option<JsonView>)>)
    requires
        keys_distinct(slots),
    ensures
        keys_distinct(present(slots)),
        forall|i: int|
            0 <= i < present(slots).len() ==> exists|j: int|
                0 <= j < slots.len() && (#[trigger] slots[j]).0 == (#[trigger] present(slots)[i]).0,
    decreases slots.len(),
{
    if slots.len() > 0 {
        let t = slots.drop_last();
        assert forall|i: int, j: int| 0 <= i < j < t.len() implies (#[trigger] t[i]).0 != (
        #[trigger] t[j]).0 by {
            assert(slots[i].0 != slots[j].0);
        }
        present_keys(t);
        let p = present(t);
        let q = present(slots);
        assert forall|i: int| 0 <= i < q.len() implies exists|j: int|
            0 <= j < slots.len() && (#[trigger] slots[j]).0 == (#[trigger] q[i]).0 by {
            if i < p.len() {
                assert(q[i] == p[i]);
                let j = choose|j: int| 0 <= j < t.len() && (#[trigger] t[j]).0 == p[i].0;
                assert(slots[j].0 == q[i].0);
            } else {
                assert(slots[slots.len() - 1].0 == q[i].0);
            }
        }
        assert forall|i: int, j: int| 0 <= i < j < q.len() implies (#[trigger] q[i]).0 != (
        #[trigger] q[j]).0 by {
            assert(q[i] == p[i]);
            if j == p.len() {
                let k = choose|k: int| 0 <= k < t.len() && (#[trigger] t[k]).0 == p[i].0;
                assert(slots[k].0 != slots[slots.len() - 1].0);
            } else {
                assert(q[j] == p[j]);
            }
        }
    }
}

/// An object of the fields that are given.
pub fn record(slots: Vec<(&'static str, Option<Value>)>) -> (r: Value)
    requires
        keys_distinct(slots_of(slots@)),
    ensures
        json_of(r) == record_json(slots_of(slots@)),
{
    let ghost all = slots_of(slots@);
    let ghost mut k: int = 0;
    let mut slots = slots;
    let mut fields: Vec<(String, Value)> = Vec::new();
    assert(all.skip(0) =~= all);
    assert(fields_of(fields@) =~= present(all.take(0)));
    while slots.len() > 0
        invariant
            0 <= k <= all.len(),
            slots_of(slots@) == all.skip(k),
            fields_of(fields@) == present(all.take(k)),
        decreases slots.len(),
    {
        let ghost s = slots_of(slots@);
        let ghost f = fields_of(fields@);
        assert(s.len() == slots@.len() && s.len() == all.len() - k);
        let (key, value) = slots.remove(0);
        proof {
            let upto = all.take(k + 1);
            assert(upto.drop_last() =~= all.take(k));
            assert(upto.last() == s[0]);
            assert(slots_of(slots@) =~= s.drop_first());
            assert(s.drop_first() =~= all.skip(k + 1));
        }
        if let Some(v) = value {
            let ghost j = json_of(v);
            fields.push((owned(key), v));
            assert(fields_of(fields@) =~= f.push((key@, j)));
        }
        proof {
            k = k + 1;
        }
    }
    proof {
        assert(slots_of(slots@).len() == 0 && all.skip(k).len() == all.len() - k);
        assert(all.take(k) =~= all);
        present_keys(all);
    }
    object_value(fields)
}

} // verus!
