//! JSON values.
use crate::binary64::{Binary64, SIGN};
use crate::float_arithmetic::nearest_bits;
use crate::sorted_map::{lists_keys, SortedMap};
use crate::text::{owned, str_views};
use vstd::prelude::*;

verus! {

/// A JSON number.
#[derive(Clone, Copy, Debug, PartialEq, Eq, Structural)]
pub enum JsonNumber {
    /// An integer at or above zero.
    Unsigned(u64),
    /// An integer below zero.
    Negative(i64),
    Float(Binary64),
}

/// A JSON value. The fields of an object stand in ascending order of their names.
#[derive(Debug)]
pub enum Json {
    Null,
    Bool(bool),
    Number(JsonNumber),
    Text(String),
    Array(Vec<Json>),
    Object(Vec<(String, Json)>),
}

/// A JSON value as a mathematical value.
#[verifier::ext_equal]
pub enum JsonModel {
    Null,
    Bool(bool),
    Number(JsonNumber),
    Text(Seq<char>),
    Array(Seq<JsonModel>),
    Object(Seq<(Seq<char>, JsonModel)>),
}

/// The mathematical value of a JSON value.
pub open spec fn json_model(value: Json) -> JsonModel
    decreases value,
{
    match value {
        Json::Null => JsonModel::Null,
        Json::Bool(flag) => JsonModel::Bool(flag),
        Json::Number(number) => JsonModel::Number(number),
        Json::Text(text) => JsonModel::Text(text@),
        Json::Array(items) => JsonModel::Array(
            Seq::new(
                items@.len(),
                |i: int|
                    if 0 <= i < items@.len() {
                        json_model(items@[i])
                    } else {
                        JsonModel::Null
                    },
            ),
        ),
        Json::Object(fields) => JsonModel::Object(
            Seq::new(
                fields@.len(),
                |i: int|
                    if 0 <= i < fields@.len() {
                        (fields@[i].0@, json_model(fields@[i].1))
                    } else {
                        (Seq::empty(), JsonModel::Null)
                    },
            ),
        ),
    }
}

impl View for Json {
    type V = JsonModel;

    open spec fn view(&self) -> JsonModel {
        json_model(*self)
    }
}

/// The largest integer up to which JavaScript numbers are exact.
pub const MAX_SAFE_INTEGER: u64 = 9_007_199_254_740_991;

/// Past 32 bits and still exact as a JavaScript number.
pub open spec fn needs_float(magnitude: int) -> bool {
    u32::MAX < magnitude <= MAX_SAFE_INTEGER
}

/// The number as JavaScript should receive it: integers past 32 bits that are exact in double
/// precision become doubles, all others stay.
pub open spec fn js_number(number: JsonNumber) -> JsonNumber {
    match number {
        JsonNumber::Unsigned(n) => if needs_float(n as int) {
            JsonNumber::Float(Binary64 { bits: nearest_bits(n as nat) as u64 })
        } else {
            number
        },
        JsonNumber::Negative(n) => if needs_float(-n) {
            JsonNumber::Float(Binary64 { bits: (SIGN + nearest_bits((-n) as nat)) as u64 })
        } else if needs_float(n as int) {
            JsonNumber::Float(Binary64 { bits: nearest_bits(n as nat) as u64 })
        } else {
            number
        },
        JsonNumber::Float(value) => number,
    }
}

/// `value` with every number in it as JavaScript should receive it.
pub open spec fn js_model(value: JsonModel) -> JsonModel
    decreases value,
{
    match value {
        JsonModel::Number(number) => JsonModel::Number(js_number(number)),
        JsonModel::Array(items) => JsonModel::Array(
            Seq::new(
                items.len(),
                |i: int|
                    if 0 <= i < items.len() {
                        js_model(items[i])
                    } else {
                        JsonModel::Null
                    },
            ),
        ),
        JsonModel::Object(fields) => JsonModel::Object(
            Seq::new(
                fields.len(),
                |i: int|
                    if 0 <= i < fields.len() {
                        (fields[i].0, js_model(fields[i].1))
                    } else {
                        (Seq::empty(), JsonModel::Null)
                    },
            ),
        ),
        _ => value,
    }
}

fn normalize_number(number: JsonNumber) -> (result: JsonNumber)
    ensures
        result == js_number(number),
{
    match number {
        JsonNumber::Unsigned(n) => if n > u32::MAX as u64 && n <= MAX_SAFE_INTEGER {
            JsonNumber::Float(Binary64::from_u64(n))
        } else {
            number
        },
        JsonNumber::Negative(n) => if n < -(u32::MAX as i64) && n >= -(MAX_SAFE_INTEGER as i64) {
            let positive = Binary64::from_u64((-n) as u64);
            JsonNumber::Float(Binary64 { bits: SIGN + positive.bits })
        } else if n > u32::MAX as i64 && n <= MAX_SAFE_INTEGER as i64 {
            JsonNumber::Float(Binary64::from_u64(n as u64))
        } else {
            number
        },
        JsonNumber::Float(value) => number,
    }
}

/// Makes every number in `value` one that JavaScript receives exactly where it can.
pub fn normalize_js_numbers(value: &Json) -> (result: Json)
    ensures
        result@ == js_model(value@),
    decreases value,
{
    match value {
        Json::Null => Json::Null,
        Json::Bool(flag) => Json::Bool(*flag),
        Json::Number(number) => Json::Number(normalize_number(*number)),
        Json::Text(text) => Json::Text(text.clone()),
        Json::Array(items) => {
            let mut out: Vec<Json> = Vec::new();
            let mut i: usize = 0;
            while i < items.len()
                invariant
                    i <= items.len(),
                    out.len() == i,
                    value is Array,
                    *items == value->Array_0,
                    forall|k: int| 0 <= k < i ==> (#[trigger] out@[k])@ == js_model(items@[k]@),
                decreases items.len() - i,
            {
                assert(decreases_to!(value => value->Array_0));
                assert(decreases_to!(items => items@[i as int]));
                let item = normalize_js_numbers(&items[i]);
                out.push(item);
                i = i + 1;
            }
            let result = Json::Array(out);
            assert(result@->Array_0 == js_model(value@)->Array_0);
            assert(result@ == js_model(value@));
            result
        },
        Json::Object(fields) => {
            let mut out: Vec<(String, Json)> = Vec::new();
            let mut i: usize = 0;
            while i < fields.len()
                invariant
                    i <= fields.len(),
                    out.len() == i,
                    value is Object,
                    *fields == value->Object_0,
                    forall|k: int|
                        0 <= k < i ==> (#[trigger] out@[k]).0@ == fields@[k].0@ && out@[k].1@
                            == js_model(fields@[k].1@),
                decreases fields.len() - i,
            {
                assert(decreases_to!(value => value->Object_0));
                assert(decreases_to!(fields => fields@[i as int]));
                let item = normalize_js_numbers(&fields[i].1);
                out.push((fields[i].0.clone(), item));
                i = i + 1;
            }
            let result = Json::Object(out);
            assert(result@->Object_0 == js_model(value@)->Object_0);
            assert(result@ == js_model(value@));
            result
        },
    }
}

/// A value with the same contents.
pub fn copy_json(value: &Json) -> (copy: Json)
    ensures
        copy@ == value@,
    decreases value,
{
    match value {
        Json::Null => Json::Null,
        Json::Bool(flag) => Json::Bool(*flag),
        Json::Number(number) => Json::Number(*number),
        Json::Text(text) => Json::Text(text.clone()),
        Json::Array(items) => {
            let mut out: Vec<Json> = Vec::new();
            let mut i: usize = 0;
            while i < items.len()
                invariant
                    i <= items.len(),
                    out.len() == i,
                    value is Array,
                    *items == value->Array_0,
                    forall|k: int| 0 <= k < i ==> (#[trigger] out@[k])@ == items@[k]@,
                decreases items.len() - i,
            {
                assert(decreases_to!(value => value->Array_0));
                assert(decreases_to!(items => items@[i as int]));
                let item = copy_json(&items[i]);
                out.push(item);
                i = i + 1;
            }
            let copy = Json::Array(out);
            assert(copy@->Array_0 == value@->Array_0);
            assert(copy@ == value@);
            copy
        },
        Json::Object(fields) => {
            let mut out: Vec<(String, Json)> = Vec::new();
            let mut i: usize = 0;
            while i < fields.len()
                invariant
                    i <= fields.len(),
                    out.len() == i,
                    value is Object,
                    *fields == value->Object_0,
                    forall|k: int|
                        0 <= k < i ==> (#[trigger] out@[k]).0@ == fields@[k].0@ && out@[k].1@
                            == fields@[k].1@,
                decreases fields.len() - i,
            {
                assert(decreases_to!(value => value->Object_0));
                assert(decreases_to!(fields => fields@[i as int]));
                let item = copy_json(&fields[i].1);
                out.push((fields[i].0.clone(), item));
                i = i + 1;
            }
            let copy = Json::Object(out);
            assert(copy@->Object_0 == value@->Object_0);
            assert(copy@ == value@);
            copy
        },
    }
}

/// Named JSON values in ascending order of their names.
pub type JsonMap = SortedMap<String, Json>;

/// The contents of a map of JSON values.
pub open spec fn json_models(map: Map<Seq<char>, Json>) -> Map<Seq<char>, JsonModel> {
    map.map_values(|value: Json| value@)
}

/// Gives every name of `from` its value there, in place of any earlier one.
pub fn extend_json(map: &mut JsonMap, from: &JsonMap)
    ensures
        json_models(final(map)@) == json_models(old(map)@).union_prefer_right(json_models(from@)),
{
    let ghost before = json_models(map@);
    let ghost other = json_models(from@);
    let n: usize = from.len();
    let mut i: usize = 0;
    assert(before == before.union_prefer_right(other.restrict(from.keys().take(0).to_set())));
    while i < n
        invariant
            i <= n == from.keys().len(),
            other == json_models(from@),
            json_models(map@) == before.union_prefer_right(
                other.restrict(from.keys().take(i as int).to_set()),
            ),
        decreases n - i,
    {
        let key = from.key_at(i).clone();
        let value = copy_json(from.value_at(i));
        let ghost earlier = json_models(map@);
        map.insert(key, value);
        proof {
            assert(json_models(map@) == earlier.insert(key@, value@));
            let seen = from.keys().take(i as int);
            assert(from.keys().take(i + 1) == seen.push(key@));
            seen.lemma_push_to_set_commute(key@);
            assert(json_models(map@) == before.union_prefer_right(
                other.restrict(from.keys().take(i + 1).to_set()),
            ));
        }
        i = i + 1;
    }
    proof {
        assert(from.keys().take(n as int) == from.keys());
        assert(other.restrict(from.keys().to_set()) == other);
    }
}

/// The contents of the fields of an object.
pub open spec fn field_models(fields: Seq<(String, Json)>) -> Seq<(Seq<char>, JsonModel)> {
    fields.map_values(|field: (String, Json)| (field.0@, field.1@))
}

/// Adds a field to an object.
pub fn push_field(fields: &mut Vec<(String, Json)>, name: &str, value: Json)
    ensures
        field_models(final(fields)@) == field_models(old(fields)@).push((name@, value@)),
{
    let ghost before = field_models(fields@);
    fields.push((crate::text::owned(name), value));
    assert(field_models(fields@) == before.push((name@, value@)));
}

/// An object with the given fields.
pub fn object(fields: Vec<(String, Json)>) -> (value: Json)
    ensures
        value@ == JsonModel::Object(field_models(fields@)),
{
    let value = Json::Object(fields);
    assert(value@->Object_0 == field_models(fields@));
    value
}

/// The names of the fields of an object, in their order.
pub open spec fn field_names(fields: Seq<(Seq<char>, JsonModel)>) -> Seq<Seq<char>> {
    fields.map_values(|field: (Seq<char>, JsonModel)| field.0)
}

/// The object whose fields are the entries of a map, in ascending order of their names.
pub open spec fn is_object_of(value: JsonModel, map: Map<Seq<char>, JsonModel>) -> bool {
    &&& value is Object
    &&& lists_keys::<String>(field_names(value->Object_0), map.dom())
    &&& forall|i: int|
        0 <= i < value->Object_0.len() ==> (#[trigger] value->Object_0[i]).1
            == map[value->Object_0[i].0]
}

/// The object with the entries of a map.
pub fn object_of(map: &JsonMap) -> (value: Json)
    ensures
        is_object_of(value@, json_models(map@)),
{
    let mut fields: Vec<(String, Json)> = Vec::new();
    let n: usize = map.len();
    let mut i: usize = 0;
    while i < n
        invariant
            i <= n == map.keys().len(),
            fields.len() == i,
            forall|k: int|
                0 <= k < i ==> (#[trigger] fields@[k]).0@ == map.keys()[k] && map@.contains_key(
                    map.keys()[k],
                ) && fields@[k].1@ == map@[map.keys()[k]]@,
        decreases n - i,
    {
        let key = map.key_at(i).clone();
        let item = copy_json(map.value_at(i));
        fields.push((key, item));
        i = i + 1;
    }
    let value = Json::Object(fields);
    assert(field_names(value@->Object_0) == map.keys());
    assert(json_models(map@).dom() == map@.dom());
    value
}

/// `map` after the given fields were written into it, one after the other.
pub open spec fn with_fields(
    map: Map<Seq<char>, JsonModel>,
    fields: Seq<(Seq<char>, JsonModel)>,
) -> Map<Seq<char>, JsonModel>
    decreases fields.len(),
{
    if fields.len() == 0 {
        map
    } else {
        with_fields(map, fields.drop_last()).insert(fields.last().0, fields.last().1)
    }
}

/// Writes the fields of an object into a map.
pub fn insert_fields(map: &mut JsonMap, fields: Vec<(String, Json)>)
    ensures
        json_models(final(map)@) == with_fields(
            json_models(old(map)@),
            json_model(Json::Object(fields))->Object_0,
        ),
{
    let ghost all = json_model(Json::Object(fields))->Object_0;
    let ghost before = json_models(map@);
    let mut i: usize = 0;
    assert(all.take(0) == Seq::<(Seq<char>, JsonModel)>::empty());
    while i < fields.len()
        invariant
            i <= fields.len(),
            all == json_model(Json::Object(fields))->Object_0,
            json_models(map@) == with_fields(before, all.take(i as int)),
        decreases fields.len() - i,
    {
        let ghost earlier = json_models(map@);
        let item = copy_json(&fields[i].1);
        map.insert(fields[i].0.clone(), item);
        assert(json_models(map@) == earlier.insert(fields@[i as int].0@, item@));
        i = i + 1;
        assert(all.take(i as int).drop_last() == all.take(i - 1));
        assert(all[i - 1] == (fields@[i - 1].0@, fields@[i - 1].1@));
    }
    assert(all.take(i as int) == all);
}

/// A map with the same entries.
pub fn copy_json_map(map: &JsonMap) -> (copy: JsonMap)
    ensures
        json_models(copy@) == json_models(map@),
{
    let mut copy: JsonMap = SortedMap::new();
    extend_json(&mut copy, map);
    assert(json_models(copy@) == json_models(map@));
    copy
}

/// A JSON number of an unsigned integer.
pub open spec fn unsigned_number(n: int) -> JsonModel {
    JsonModel::Number(JsonNumber::Unsigned(n as u64))
}

/// A map with one more entry, where there is one to add.
pub open spec fn with_entry(
    info: Map<Seq<char>, JsonModel>,
    name: Seq<char>,
    value: Option<JsonModel>,
) -> Map<Seq<char>, JsonModel> {
    match value {
        Some(value) => info.insert(name, value),
        None => info,
    }
}

pub fn insert_entry(info: &mut JsonMap, name: &str, value: Option<Json>)
    ensures
        json_models(final(info)@) == with_entry(
            json_models(old(info)@),
            name@,
            match value {
                Some(value) => Some(value@),
                None => None,
            },
        ),
{
    let ghost before = info@;
    if let Some(value) = value {
        info.insert(owned(name), value);
        assert(json_models(info@) == json_models(before).insert(name@, value@));
    }
}

/// A list of names.
pub fn name_list(names: &Vec<&'static str>) -> (value: Json)
    ensures
        value@ == JsonModel::Array(
            str_views(names@).map_values(|n: Seq<char>| JsonModel::Text(n)),
        ),
{
    let ghost views = str_views(names@);
    let mut items: Vec<Json> = Vec::new();
    let mut i: usize = 0;
    while i < names.len()
        invariant
            i <= names.len(),
            views == str_views(names@),
            items.len() == i,
            forall|k: int| 0 <= k < i ==> (#[trigger] items@[k])@ == JsonModel::Text(views[k]),
        decreases names.len() - i,
    {
        items.push(Json::Text(owned(names[i])));
        i = i + 1;
    }
    let value = Json::Array(items);
    assert(value@->Array_0 == views.map_values(|n: Seq<char>| JsonModel::Text(n)));
    value
}

} // verus!
