//! What the extraction scripts hand over, and how it becomes rows: value
//! conversion per column type, JSON conversion of script tables, row
//! building, and the outcome of processing one object.

use vstd::prelude::*;

use crate::geometry::{GeometryKind, GeometryValue};
use crate::geometry::{geometry_kind_text, geometry_name, GeometryModel};
use crate::schema::{
    column_geometry_kind, column_type_from_text, layer_fault, model_kind, row_fits,
    source_from_text, value_fits, ColumnDef, ColumnModel, ColumnType, LayerDef, LayerModel,
    OutputModel, OutputRow, OutputRowModel, OutputValue, SchemaError, SchemaFault, SourceKind,
};
use crate::schema::{column_type_text, source_text};
use crate::text::{push_signed_decimal, signed_decimal, str_equals};

verus! {

/// The deepest nesting a JSON column accepts.
pub const MAX_JSON_DEPTH: usize = 64;

/// A value handed over by an extraction script, as the library reads it.
#[derive(Debug)]
pub enum ScriptValue {
    Nil,
    Boolean(bool),
    /// An integer, with the IEEE-754 bits of the double nearest to it.
    Integer { value: i64, as_double: u64 },
    /// A float: its IEEE-754 bits, whether it is finite, and its value as an
    /// integer when it is finite, has no fractional part and lies within the
    /// `i64` range.
    Number { bits: u64, finite: bool, whole: Option<i64> },
    /// A string that is valid UTF-8.
    Text(String),
    /// A string that is not valid UTF-8.
    InvalidText,
    /// A table, as its key/value pairs in iteration order.
    Table(Vec<(ScriptValue, ScriptValue)>),
    /// A table marked as a JSON array (as a Wikidata entity's arrays are), by
    /// its items `1..=n`; it stays an array in JSON even when empty.
    Array(Vec<ScriptValue>),
    /// The JSON null that a Wikidata entity carries.
    JsonNull,
    /// A geometry made by one of the object methods.
    Geometry(GeometryValue),
    /// Anything else: functions, other userdata, threads.
    Other,
}

/// A JSON value; doubles are held as their IEEE-754 bits, and an object's
/// members in the order the script's table gave them.
#[derive(Debug)]
pub enum JsonValue {
    Null,
    Bool(bool),
    Integer(i64),
    Float(u64),
    Text(String),
    Array(Vec<JsonValue>),
    Object(Vec<(String, JsonValue)>),
}

/// A JSON value as the contracts see it.
pub enum JsonModel {
    Null,
    Bool(bool),
    Integer(i64),
    Float(u64),
    Text(Seq<char>),
    Array(Seq<JsonModel>),
    Object(Seq<(Seq<char>, JsonModel)>),
}

pub open spec fn json_model(j: &JsonValue) -> JsonModel
    decreases j,
{
    match j {
        JsonValue::Null => JsonModel::Null,
        JsonValue::Bool(b) => JsonModel::Bool(*b),
        JsonValue::Integer(i) => JsonModel::Integer(*i),
        JsonValue::Float(bits) => JsonModel::Float(*bits),
        JsonValue::Text(s) => JsonModel::Text(s@),
        JsonValue::Array(items) => JsonModel::Array(
            Seq::new(
                items.len() as nat,
                |i: int|
                    if 0 <= i < items.len() {
                        json_model(&items@[i])
                    } else {
                        JsonModel::Null
                    },
            ),
        ),
        JsonValue::Object(fields) => JsonModel::Object(
            Seq::new(
                fields.len() as nat,
                |i: int|
                    if 0 <= i < fields.len() {
                        (fields@[i].0@, json_model(&fields@[i].1))
                    } else {
                        (Seq::empty(), JsonModel::Null)
                    },
            ),
        ),
    }
}

impl View for JsonValue {
    type V = JsonModel;

    open spec fn view(&self) -> JsonModel {
        json_model(self)
    }
}

/// Why a script value cannot be a JSON value.
#[derive(Clone, Copy, Debug, PartialEq, Eq, Structural)]
pub enum JsonProblem {
    /// Nested deeper than the limit.
    TooDeep,
    /// A table with only integer keys whose keys are not 1..n.
    ArrayKeys,
    /// A table used as an object has a key that is not a string.
    ObjectKeys,
    /// A string that is not UTF-8.
    InvalidText,
    /// A value JSON cannot hold (a non-finite number, a function, userdata).
    Unsupported,
}

/// The message that reports why a value cannot be JSON.
pub open spec fn json_message(p: JsonProblem) -> Seq<char> {
    match p {
        JsonProblem::TooDeep => "JSON value exceeds maximum nesting depth of 64"@,
        JsonProblem::ArrayKeys => "JSON array keys must be contiguous and start at 1"@,
        JsonProblem::ObjectKeys => "JSON object keys must be strings"@,
        JsonProblem::InvalidText => "JSON strings must be valid UTF-8"@,
        JsonProblem::Unsupported => "unsupported Lua value in JSON column"@,
    }
}

impl JsonProblem {
    pub fn message(self) -> (r: &'static str)
        ensures
            r@ == json_message(self),
    {
        match self {
            JsonProblem::TooDeep => "JSON value exceeds maximum nesting depth of 64",
            JsonProblem::ArrayKeys => "JSON array keys must be contiguous and start at 1",
            JsonProblem::ObjectKeys => "JSON object keys must be strings",
            JsonProblem::InvalidText => "JSON strings must be valid UTF-8",
            JsonProblem::Unsupported => "unsupported Lua value in JSON column",
        }
    }
}

/// Table entry `e` has the integer key `p`.
pub open spec fn has_key(e: (ScriptValue, ScriptValue), p: int) -> bool {
    e.0 is Integer && e.0->value == p
}

pub open spec fn all_integer_keys(entries: Seq<(ScriptValue, ScriptValue)>) -> bool {
    forall|i: int| 0 <= i < entries.len() ==> (#[trigger] entries[i]).0 is Integer
}

/// Some entry has the integer key `p`.
pub open spec fn key_present(entries: Seq<(ScriptValue, ScriptValue)>, p: int) -> bool {
    exists|i: int| 0 <= i < entries.len() && #[trigger] has_key(entries[i], p)
}

/// Every integer `1..=n` is a key of the table, n being its size.
pub open spec fn keys_cover(entries: Seq<(ScriptValue, ScriptValue)>) -> bool {
    forall|p: int| 1 <= p <= entries.len() ==> #[trigger] key_present(entries, p)
}

/// `i` is the first entry with key `p`.
pub open spec fn is_first_key(entries: Seq<(ScriptValue, ScriptValue)>, p: int, i: int) -> bool {
    &&& 0 <= i < entries.len()
    &&& has_key(entries[i], p)
    &&& forall|j: int| 0 <= j < i ==> !has_key(#[trigger] entries[j], p)
}

pub open spec fn key_position(entries: Seq<(ScriptValue, ScriptValue)>, p: int) -> int {
    choose|i: int| is_first_key(entries, p, i)
}

/// A script value as JSON at nesting `depth`: scalars map to themselves, a
/// marked array stays an array, a non-empty table whose keys are all
/// integers becomes an array (its keys must be `1..=n`, and the values come
/// in key order), any other table an object (its keys must be strings).
pub open spec fn json_of(v: ScriptValue, depth: int) -> Result<JsonModel, JsonProblem>
    decreases v, 0int,
{
    if depth > MAX_JSON_DEPTH {
        Err(JsonProblem::TooDeep)
    } else {
        match v {
            ScriptValue::Nil => Ok(JsonModel::Null),
            ScriptValue::Boolean(b) => Ok(JsonModel::Bool(b)),
            ScriptValue::Integer { value, as_double: _ } => Ok(JsonModel::Integer(value)),
            ScriptValue::Number { bits, finite, whole: _ } => if finite {
                Ok(JsonModel::Float(bits))
            } else {
                Err(JsonProblem::Unsupported)
            },
            ScriptValue::Text(s) => Ok(JsonModel::Text(s@)),
            ScriptValue::InvalidText => Err(JsonProblem::InvalidText),
            ScriptValue::Table(entries) => if entries.len() > 0 && all_integer_keys(entries@) {
                if keys_cover(entries@) {
                    match json_array_from(entries@, 0, depth) {
                        Ok(items) => Ok(JsonModel::Array(items)),
                        Err(e) => Err(e),
                    }
                } else {
                    Err(JsonProblem::ArrayKeys)
                }
            } else {
                match json_object_from(entries@, 0, depth) {
                    Ok(fields) => Ok(JsonModel::Object(fields)),
                    Err(e) => Err(e),
                }
            },
            ScriptValue::Array(items) => match json_items_from(items@, 0, depth) {
                Ok(ms) => Ok(JsonModel::Array(ms)),
                Err(e) => Err(e),
            },
            ScriptValue::JsonNull => Ok(JsonModel::Null),
            ScriptValue::Geometry(_) => Err(JsonProblem::Unsupported),
            ScriptValue::Other => Err(JsonProblem::Unsupported),
        }
    }
}

/// The items of a marked array from item `i` on, in order.
pub open spec fn json_items_from(items: Seq<ScriptValue>, i: int, depth: int) -> Result<
    Seq<JsonModel>,
    JsonProblem,
>
    decreases items, items.len() - i,
{
    if i < 0 || i >= items.len() {
        Ok(seq![])
    } else {
        match json_of(items[i], depth + 1) {
            Err(e) => Err(e),
            Ok(item) => match json_items_from(items, i + 1, depth) {
                Ok(rest) => Ok(seq![item] + rest),
                Err(e) => Err(e),
            },
        }
    }
}

/// The array items for keys `p + 1..=n`, in key order.
pub open spec fn json_array_from(entries: Seq<(ScriptValue, ScriptValue)>, p: int, depth: int) -> Result<
    Seq<JsonModel>,
    JsonProblem,
>
    decreases entries, entries.len() - p,
{
    if p < 0 || p >= entries.len() {
        Ok(seq![])
    } else {
        let i = key_position(entries, p + 1);
        if 0 <= i < entries.len() {
            match json_of(entries[i].1, depth + 1) {
                Err(e) => Err(e),
                Ok(item) => match json_array_from(entries, p + 1, depth) {
                    Ok(rest) => Ok(seq![item] + rest),
                    Err(e) => Err(e),
                },
            }
        } else {
            Err(JsonProblem::ArrayKeys)
        }
    }
}

/// The object members from entry `i` on, in table order.
pub open spec fn json_object_from(entries: Seq<(ScriptValue, ScriptValue)>, i: int, depth: int) -> Result<
    Seq<(Seq<char>, JsonModel)>,
    JsonProblem,
>
    decreases entries, entries.len() - i,
{
    if i < 0 || i >= entries.len() {
        Ok(seq![])
    } else {
        match entries[i].0 {
            ScriptValue::Text(key) => match json_of(entries[i].1, depth + 1) {
                Err(e) => Err(e),
                Ok(item) => match json_object_from(entries, i + 1, depth) {
                    Ok(rest) => Ok(seq![(key@, item)] + rest),
                    Err(e) => Err(e),
                },
            },
            ScriptValue::InvalidText => Err(JsonProblem::InvalidText),
            _ => Err(JsonProblem::ObjectKeys),
        }
    }
}

/// How a JSON document is handed to a script: null as the JSON null,
/// arrays as marked arrays, objects as tables keyed by their member names in
/// member order, integers and finite floats as Lua numbers, text as strings.
pub open spec fn mirrors(v: ScriptValue, j: JsonModel) -> bool
    decreases j,
{
    match j {
        JsonModel::Null => v is JsonNull,
        JsonModel::Bool(b) => v == ScriptValue::Boolean(b),
        JsonModel::Integer(i) => v matches ScriptValue::Integer { value, as_double: _ } && value == i,
        JsonModel::Float(bits) => v matches ScriptValue::Number { bits: b, finite, whole: _ } && b
            == bits && finite,
        JsonModel::Text(t) => v matches ScriptValue::Text(s) && s@ == t,
        JsonModel::Array(items) => v matches ScriptValue::Array(xs) && xs.len() == items.len()
            && forall|i: int| 0 <= i < items.len() ==> mirrors(#[trigger] xs@[i], items[i]),
        JsonModel::Object(fields) => v matches ScriptValue::Table(entries) && entries.len()
            == fields.len() && forall|i: int|
            0 <= i < fields.len() ==> {
                &&& (#[trigger] entries@[i]).0 matches ScriptValue::Text(k) && k@ == fields[i].0
                &&& mirrors(entries@[i].1, fields[i].1)
            },
    }
}

/// A JSON document nests no deeper than the limit when read at `depth`.
pub open spec fn fits_depth(j: JsonModel, depth: int) -> bool
    decreases j,
{
    &&& depth <= MAX_JSON_DEPTH
    &&& match j {
        JsonModel::Array(items) => forall|i: int|
            0 <= i < items.len() ==> fits_depth(#[trigger] items[i], depth + 1),
        JsonModel::Object(fields) => forall|i: int|
            0 <= i < fields.len() ==> fits_depth(#[trigger] fields[i].1, depth + 1),
        _ => true,
    }
}

/// A JSON document handed to a script comes back unchanged when the script
/// stores it in a JSON column, as long as it nests within the limit.
pub proof fn lemma_json_round_trip(v: ScriptValue, j: JsonModel, depth: int)
    requires
        mirrors(v, j),
        fits_depth(j, depth),
    ensures
        json_of(v, depth) == Ok::<JsonModel, JsonProblem>(j),
    decreases j, 0int,
{
    match j {
        JsonModel::Array(items) => {
            let xs = v->Array_0;
            lemma_json_items_round_trip(xs@, items, 0, depth);
            assert(items.skip(0) =~= items);
        },
        JsonModel::Object(fields) => {
            let entries = v->Table_0;
            if entries.len() > 0 {
                assert(!(entries@[0].0 is Integer));
            }
            lemma_json_fields_round_trip(entries@, fields, 0, depth);
            assert(fields.skip(0) =~= fields);
        },
        _ => {},
    }
}

proof fn lemma_json_items_round_trip(xs: Seq<ScriptValue>, items: Seq<JsonModel>, i: int, depth: int)
    requires
        xs.len() == items.len(),
        0 <= i <= items.len(),
        forall|k: int| 0 <= k < items.len() ==> mirrors(#[trigger] xs[k], items[k]),
        forall|k: int| 0 <= k < items.len() ==> fits_depth(#[trigger] items[k], depth + 1),
    ensures
        json_items_from(xs, i, depth) == Ok::<Seq<JsonModel>, JsonProblem>(items.skip(i)),
    decreases items, items.len() - i,
{
    if i < items.len() {
        assert(mirrors(xs[i], items[i]));
        assert(fits_depth(items[i], depth + 1));
        lemma_json_round_trip(xs[i], items[i], depth + 1);
        lemma_json_items_round_trip(xs, items, i + 1, depth);
        assert(seq![items[i]] + items.skip(i + 1) =~= items.skip(i));
    } else {
        assert(items.skip(i) =~= Seq::<JsonModel>::empty());
    }
}

proof fn lemma_json_fields_round_trip(
    entries: Seq<(ScriptValue, ScriptValue)>,
    fields: Seq<(Seq<char>, JsonModel)>,
    i: int,
    depth: int,
)
    requires
        entries.len() == fields.len(),
        0 <= i <= fields.len(),
        forall|k: int|
            0 <= k < fields.len() ==> {
                &&& (#[trigger] entries[k]).0 matches ScriptValue::Text(t) && t@ == fields[k].0
                &&& mirrors(entries[k].1, fields[k].1)
            },
        forall|k: int| 0 <= k < fields.len() ==> fits_depth(#[trigger] fields[k].1, depth + 1),
    ensures
        json_object_from(entries, i, depth) == Ok::<Seq<(Seq<char>, JsonModel)>, JsonProblem>(
            fields.skip(i),
        ),
    decreases fields, fields.len() - i,
{
    if i < fields.len() {
        let e = entries[i];
        assert(e.0 matches ScriptValue::Text(t) && t@ == fields[i].0);
        assert(fits_depth(fields[i].1, depth + 1));
        assert(decreases_to!(fields => fields[i]));
        lemma_json_round_trip(e.1, fields[i].1, depth + 1);
        lemma_json_fields_round_trip(entries, fields, i + 1, depth);
        assert(seq![(fields[i].0, fields[i].1)] + fields.skip(i + 1) =~= fields.skip(i));
    } else {
        assert(fields.skip(i) =~= Seq::<(Seq<char>, JsonModel)>::empty());
    }
}

proof fn lemma_first_key_unique(entries: Seq<(ScriptValue, ScriptValue)>, p: int, i: int)
    requires
        is_first_key(entries, p, i),
    ensures
        key_position(entries, p) == i,
{
    let k = key_position(entries, p);
    assert(is_first_key(entries, p, k));
    if k < i {
        assert(!has_key(entries[k], p));
    } else if k > i {
        assert(!has_key(entries[i], p));
    }
}

/// The first entry with integer key `p`.
fn first_key_index(entries: &Vec<(ScriptValue, ScriptValue)>, p: usize) -> (r: Option<usize>)
    requires
        p >= 1,
    ensures
        match r {
            Some(i) => is_first_key(entries@, p as int, i as int),
            None => forall|i: int| 0 <= i < entries.len() ==> !#[trigger] has_key(entries@[i], p as int),
        },
{
    let mut i: usize = 0;
    while i < entries.len()
        invariant
            p >= 1,
            i <= entries.len(),
            forall|j: int| 0 <= j < i ==> !#[trigger] has_key(entries@[j], p as int),
        decreases entries.len() - i,
    {
        match &entries[i].0 {
            ScriptValue::Integer { value, as_double: _ } => {
                if *value >= 1 && ((*value - 1) as u64) == ((p - 1) as u64) {
                    return Some(i);
                }
            },
            _ => {},
        }
        i = i + 1;
    }
    None
}


/// `acc` followed by what `rest` gives, or the problem that stops `rest`.
pub open spec fn after<T>(acc: Seq<T>, rest: Result<Seq<T>, JsonProblem>) -> Result<Seq<T>, JsonProblem> {
    match rest {
        Ok(items) => Ok(acc + items),
        Err(e) => Err(e),
    }
}

/// Converts a script value to JSON at nesting `depth` (0 for a column value).
pub fn lua_to_json(value: &ScriptValue, depth: usize) -> (r: Result<JsonValue, JsonProblem>)
    ensures
        match json_of(*value, depth as int) {
            Ok(m) => r matches Ok(j) && j@ == m,
            Err(e) => r == Err::<JsonValue, JsonProblem>(e),
        },
    decreases value,
{
    if depth > MAX_JSON_DEPTH {
        return Err(JsonProblem::TooDeep);
    }
    match value {
        ScriptValue::Nil => Ok(JsonValue::Null),
        ScriptValue::Boolean(b) => Ok(JsonValue::Bool(*b)),
        ScriptValue::Integer { value, as_double: _ } => Ok(JsonValue::Integer(*value)),
        ScriptValue::Number { bits, finite, whole: _ } => {
            if *finite {
                Ok(JsonValue::Float(*bits))
            } else {
                Err(JsonProblem::Unsupported)
            }
        },
        ScriptValue::Text(s) => Ok(JsonValue::Text(s.clone())),
        ScriptValue::InvalidText => Err(JsonProblem::InvalidText),
        ScriptValue::Geometry(_) => Err(JsonProblem::Unsupported),
        ScriptValue::Other => Err(JsonProblem::Unsupported),
        ScriptValue::JsonNull => Ok(JsonValue::Null),
        ScriptValue::Array(list) => {
            let ghost xs = list@;
            let n = list.len();
            let mut items: Vec<JsonValue> = Vec::new();
            let ghost mut done: Seq<JsonModel> = seq![];
            assert(after(done, json_items_from(xs, 0, depth as int)) =~= json_items_from(
                xs,
                0,
                depth as int,
            )) by {
                match json_items_from(xs, 0, depth as int) {
                    Ok(rest) => {
                        assert(done + rest =~= rest);
                    },
                    Err(_) => {},
                }
            }
            let mut p: usize = 0;
            while p < n
                invariant
                    n == xs.len(),
                    xs == list@,
                    *value == ScriptValue::Array(*list),
                    depth <= MAX_JSON_DEPTH,
                    p <= n,
                    items.len() == p,
                    done.len() == p,
                    forall|q: int| 0 <= q < p ==> json_model(&items@[q]) == #[trigger] done[q],
                    json_items_from(xs, 0, depth as int) == after(
                        done,
                        json_items_from(xs, p as int, depth as int),
                    ),
                decreases n - p,
            {
                assert(decreases_to!(*value => list@[p as int]));
                let converted = lua_to_json(&list[p], depth + 1);
                match converted {
                    Ok(item) => {
                        proof {
                            let m = json_model(&item);
                            match json_items_from(xs, p + 1, depth as int) {
                                Ok(rest) => {
                                    assert(done + (seq![m] + rest) =~= done.push(m) + rest);
                                },
                                Err(_) => {},
                            }
                            done = done.push(m);
                        }
                        items.push(item);
                    },
                    Err(e) => {
                        return Err(e);
                    },
                }
                p = p + 1;
            }
            let r = JsonValue::Array(items);
            assert(json_model(&r) == JsonModel::Array(done)) by {
                let ms = json_model(&r)->Array_0;
                assert(ms.len() == done.len());
                assert forall|i: int| 0 <= i < ms.len() implies ms[i] == done[i] by {
                    assert(ms[i] == json_model(&items@[i]));
                }
                assert(ms =~= done);
            }
            assert(done + seq![] =~= done);
            Ok(r)
        },
        ScriptValue::Table(entries) => {
            let ghost es = entries@;
            let n = entries.len();
            let mut integer_keys = true;
            let mut i: usize = 0;
            while i < n
                invariant
                    n == es.len(),
                    es == entries@,
                    i <= n,
                    integer_keys == forall|j: int| 0 <= j < i ==> (#[trigger] es[j]).0 is Integer,
                decreases n - i,
            {
                let is_integer = match &entries[i].0 {
                    ScriptValue::Integer { value: _, as_double: _ } => true,
                    _ => false,
                };
                proof {
                    if !is_integer {
                        assert(!(es[i as int].0 is Integer));
                    }
                }
                integer_keys = integer_keys && is_integer;
                i = i + 1;
            }
            if n > 0 && integer_keys {
                let mut positions: Vec<usize> = Vec::new();
                let mut p: usize = 0;
                while p < n
                    invariant
                        n == es.len(),
                        es == entries@,
                        *value == ScriptValue::Table(*entries),
                        depth <= MAX_JSON_DEPTH,
                        n > 0,
                        all_integer_keys(es),
                        p <= n,
                        positions.len() == p,
                        forall|q: int| 0 <= q < p ==> is_first_key(es, q + 1, #[trigger] positions@[q] as int),
                    decreases n - p,
                {
                    match first_key_index(entries, p + 1) {
                        Some(k) => {
                            positions.push(k);
                        },
                        None => {
                            assert(!key_present(es, p + 1));
                            assert(!keys_cover(es));
                            return Err(JsonProblem::ArrayKeys);
                        },
                    }
                    p = p + 1;
                }
                assert(keys_cover(es)) by {
                    assert forall|q: int| 1 <= q <= es.len() implies #[trigger] key_present(es, q) by {
                        assert(is_first_key(es, q, positions@[q - 1] as int));
                        assert(has_key(es[positions@[q - 1] as int], q));
                    }
                }
                let mut items: Vec<JsonValue> = Vec::new();
                let ghost mut done: Seq<JsonModel> = seq![];
                assert(after(done, json_array_from(es, 0, depth as int)) =~= json_array_from(
                    es,
                    0,
                    depth as int,
                )) by {
                    match json_array_from(es, 0, depth as int) {
                        Ok(rest) => {
                            assert(done + rest =~= rest);
                        },
                        Err(_) => {},
                    }
                }
                let mut p: usize = 0;
                while p < n
                    invariant
                        n == es.len(),
                        es == entries@,
                        *value == ScriptValue::Table(*entries),
                        depth <= MAX_JSON_DEPTH,
                        n > 0,
                        all_integer_keys(es),
                        keys_cover(es),
                        p <= n,
                        positions.len() == n,
                        forall|q: int| 0 <= q < n ==> is_first_key(es, q + 1, #[trigger] positions@[q] as int),
                        items.len() == p,
                        done.len() == p,
                        forall|q: int| 0 <= q < p ==> json_model(&items@[q]) == #[trigger] done[q],
                        json_array_from(es, 0, depth as int) == after(
                            done,
                            json_array_from(es, p as int, depth as int),
                        ),
                    decreases n - p,
                {
                    let k = positions[p];
                    proof {
                        assert(is_first_key(es, p + 1, k as int));
                        lemma_first_key_unique(es, p + 1, k as int);
                    }
                    assert(decreases_to!(*value => entries@[k as int].1));
                    let converted = lua_to_json(&entries[k].1, depth + 1);
                    match converted {
                        Ok(item) => {
                            proof {
                                let m = json_model(&item);
                                match json_array_from(es, p + 1, depth as int) {
                                    Ok(rest) => {
                                        assert(done + (seq![m] + rest) =~= done.push(m) + rest);
                                    },
                                    Err(_) => {},
                                }
                                done = done.push(m);
                            }
                            items.push(item);
                        },
                        Err(e) => {
                            return Err(e);
                        },
                    }
                    p = p + 1;
                }
                let r = JsonValue::Array(items);
                assert(json_model(&r) == JsonModel::Array(done)) by {
                    let ms = json_model(&r)->Array_0;
                    assert(ms.len() == done.len());
                    assert forall|i: int| 0 <= i < ms.len() implies ms[i] == done[i] by {
                        assert(ms[i] == json_model(&items@[i]));
                    }
                    assert(ms =~= done);
                }
                assert(done + seq![] =~= done);
                Ok(r)
            } else {
                let mut fields: Vec<(String, JsonValue)> = Vec::new();
                let ghost mut done: Seq<(Seq<char>, JsonModel)> = seq![];
                assert(after(done, json_object_from(es, 0, depth as int)) =~= json_object_from(
                    es,
                    0,
                    depth as int,
                )) by {
                    match json_object_from(es, 0, depth as int) {
                        Ok(rest) => {
                            assert(done + rest =~= rest);
                        },
                        Err(_) => {},
                    }
                }
                let mut k: usize = 0;
                while k < n
                    invariant
                        n == es.len(),
                        es == entries@,
                        *value == ScriptValue::Table(*entries),
                        depth <= MAX_JSON_DEPTH,
                        !(n > 0 && all_integer_keys(es)),
                        k <= n,
                        fields.len() == k,
                        done.len() == k,
                        forall|q: int|
                            0 <= q < k ==> (fields@[q].0@, json_model(&fields@[q].1)) == #[trigger] done[q],
                        json_object_from(es, 0, depth as int) == after(
                            done,
                            json_object_from(es, k as int, depth as int),
                        ),
                    decreases n - k,
                {
                    match &entries[k].0 {
                        ScriptValue::Text(key) => {
                            assert(decreases_to!(*value => entries@[k as int].1));
                            let converted = lua_to_json(&entries[k].1, depth + 1);
                            match converted {
                                Ok(item) => {
                                    let name = key.clone();
                                    proof {
                                        let m = (name@, json_model(&item));
                                        match json_object_from(es, k + 1, depth as int) {
                                            Ok(rest) => {
                                                assert(done + (seq![m] + rest) =~= done.push(m) + rest);
                                            },
                                            Err(_) => {},
                                        }
                                        done = done.push(m);
                                    }
                                    fields.push((name, item));
                                },
                                Err(e) => {
                                    return Err(e);
                                },
                            }
                        },
                        ScriptValue::InvalidText => {
                            return Err(JsonProblem::InvalidText);
                        },
                        _ => {
                            return Err(JsonProblem::ObjectKeys);
                        },
                    }
                    k = k + 1;
                }
                let r = JsonValue::Object(fields);
                assert(json_model(&r) == JsonModel::Object(done)) by {
                    let ms = json_model(&r)->Object_0;
                    assert(ms.len() == done.len());
                    assert forall|i: int| 0 <= i < ms.len() implies ms[i] == done[i] by {
                        assert(ms[i] == (fields@[i].0@, json_model(&fields@[i].1)));
                    }
                    assert(ms =~= done);
                }
                assert(done + seq![] =~= done);
                Ok(r)
            }
        },
    }
}


/// Why a script value cannot fill a column.
#[derive(Clone, Copy, Debug, PartialEq, Eq, Structural)]
pub enum ValueProblem {
    /// A string that is not UTF-8.
    InvalidText,
    ExpectedString,
    ExpectedInt64,
    ExpectedFiniteNumber,
    ExpectedBoolean,
    /// Not a geometry at all.
    ExpectedGeometry,
    /// A geometry of another kind than the column's.
    GeometryMismatch(GeometryKind),
    /// Not representable as JSON.
    Json(JsonProblem),
}

/// A script value as the column type requires it: strings, integers (a
/// whole finite float too), finite numbers, booleans, any JSON-convertible
/// value, or a geometry of exactly the column's kind.
pub open spec fn converted(v: ScriptValue, kind: ColumnType) -> Result<OutputModel, ValueProblem> {
    match kind {
        ColumnType::String => match v {
            ScriptValue::Text(s) => Ok(OutputModel::String(s@)),
            ScriptValue::InvalidText => Err(ValueProblem::InvalidText),
            _ => Err(ValueProblem::ExpectedString),
        },
        ColumnType::Int64 => match v {
            ScriptValue::Integer { value, as_double: _ } => Ok(OutputModel::Int64(value)),
            ScriptValue::Number { bits: _, finite: _, whole: Some(i) } => Ok(OutputModel::Int64(i)),
            _ => Err(ValueProblem::ExpectedInt64),
        },
        ColumnType::Double => match v {
            ScriptValue::Integer { value: _, as_double } => Ok(OutputModel::Double(as_double)),
            ScriptValue::Number { bits, finite, whole: _ } => if finite {
                Ok(OutputModel::Double(bits))
            } else {
                Err(ValueProblem::ExpectedFiniteNumber)
            },
            _ => Err(ValueProblem::ExpectedFiniteNumber),
        },
        ColumnType::Boolean => match v {
            ScriptValue::Boolean(b) => Ok(OutputModel::Boolean(b)),
            _ => Err(ValueProblem::ExpectedBoolean),
        },
        ColumnType::Json => match json_of(v, 0) {
            Ok(j) => Ok(OutputModel::Json(j)),
            Err(e) => Err(ValueProblem::Json(e)),
        },
        _ => match v {
            ScriptValue::Geometry(g) => if column_geometry_kind(kind) == Some(g.kind()) {
                Ok(OutputModel::Geometry(g@))
            } else {
                Err(ValueProblem::GeometryMismatch(g.kind()))
            },
            _ => Err(ValueProblem::ExpectedGeometry),
        },
    }
}

/// Converts a (non-nil) script value for a column of the given type.
pub fn convert_value(value: ScriptValue, kind: ColumnType) -> (r: Result<OutputValue, ValueProblem>)
    ensures
        match converted(value, kind) {
            Ok(m) => r matches Ok(v) && v@ == m,
            Err(p) => r == Err::<OutputValue, ValueProblem>(p),
        },
{
    match kind {
        ColumnType::String => match value {
            ScriptValue::Text(s) => Ok(OutputValue::String(s)),
            ScriptValue::InvalidText => Err(ValueProblem::InvalidText),
            _ => Err(ValueProblem::ExpectedString),
        },
        ColumnType::Int64 => match value {
            ScriptValue::Integer { value, as_double: _ } => Ok(OutputValue::Int64(value)),
            ScriptValue::Number { bits: _, finite: _, whole: Some(i) } => Ok(OutputValue::Int64(i)),
            _ => Err(ValueProblem::ExpectedInt64),
        },
        ColumnType::Double => match value {
            ScriptValue::Integer { value: _, as_double } => Ok(OutputValue::Double(as_double)),
            ScriptValue::Number { bits, finite, whole: _ } => {
                if finite {
                    Ok(OutputValue::Double(bits))
                } else {
                    Err(ValueProblem::ExpectedFiniteNumber)
                }
            },
            _ => Err(ValueProblem::ExpectedFiniteNumber),
        },
        ColumnType::Boolean => match value {
            ScriptValue::Boolean(b) => Ok(OutputValue::Boolean(b)),
            _ => Err(ValueProblem::ExpectedBoolean),
        },
        ColumnType::Json => match lua_to_json(&value, 0) {
            Ok(j) => Ok(OutputValue::Json(j)),
            Err(e) => Err(ValueProblem::Json(e)),
        },
        _ => match value {
            ScriptValue::Geometry(g) => {
                if kind.accepts(&g) {
                    Ok(OutputValue::Geometry(g))
                } else {
                    Err(ValueProblem::GeometryMismatch(g.kind()))
                }
            },
            _ => Err(ValueProblem::ExpectedGeometry),
        },
    }
}

/// The message that reports why a value cannot fill a column of type `kind`.
pub open spec fn value_message(p: ValueProblem, kind: ColumnType) -> Seq<char> {
    match p {
        ValueProblem::InvalidText => "expected a UTF-8 string"@,
        ValueProblem::ExpectedString => "expected string"@,
        ValueProblem::ExpectedInt64 => "expected int64"@,
        ValueProblem::ExpectedFiniteNumber => "expected finite number"@,
        ValueProblem::ExpectedBoolean => "expected boolean"@,
        ValueProblem::ExpectedGeometry => "expected "@ + column_type_text(kind) + " geometry"@,
        ValueProblem::GeometryMismatch(got) => "expected "@ + column_type_text(kind)
            + " geometry, got "@ + geometry_kind_text(got),
        ValueProblem::Json(j) => json_message(j),
    }
}

impl ValueProblem {
    /// The message for a column of type `kind`.
    pub fn message(self, kind: ColumnType) -> (r: String)
        ensures
            r@ == value_message(self, kind),
    {
        let mut text = String::new();
        match self {
            ValueProblem::InvalidText => text.append("expected a UTF-8 string"),
            ValueProblem::ExpectedString => text.append("expected string"),
            ValueProblem::ExpectedInt64 => text.append("expected int64"),
            ValueProblem::ExpectedFiniteNumber => text.append("expected finite number"),
            ValueProblem::ExpectedBoolean => text.append("expected boolean"),
            ValueProblem::ExpectedGeometry => {
                text.append("expected ");
                text.append(kind.as_str());
                text.append(" geometry");
            },
            ValueProblem::GeometryMismatch(got) => {
                text.append("expected ");
                text.append(kind.as_str());
                text.append(" geometry, got ");
                text.append(geometry_name(got));
            },
            ValueProblem::Json(j) => text.append(j.message()),
        }
        text
    }
}

/// Conversion keeps the script's value: a string, an integer, a whole
/// number, a finite number, a boolean or a geometry of the column's kind
/// fills a column of its type with that same value.
pub proof fn lemma_conversion_keeps_values(v: ScriptValue, kind: ColumnType)
    ensures
        v matches ScriptValue::Text(s) ==> converted(v, ColumnType::String) == Ok::<
            OutputModel,
            ValueProblem,
        >(OutputModel::String(s@)),
        v matches ScriptValue::Integer { value, as_double: _ } ==> converted(v, ColumnType::Int64)
            == Ok::<OutputModel, ValueProblem>(OutputModel::Int64(value)),
        v matches ScriptValue::Number { bits: _, finite: _, whole: Some(i) } ==> converted(
            v,
            ColumnType::Int64,
        ) == Ok::<OutputModel, ValueProblem>(OutputModel::Int64(i)),
        v matches ScriptValue::Integer { value: _, as_double } ==> converted(v, ColumnType::Double)
            == Ok::<OutputModel, ValueProblem>(OutputModel::Double(as_double)),
        v matches ScriptValue::Number { bits, finite, whole: _ } ==> (finite ==> converted(
            v,
            ColumnType::Double,
        ) == Ok::<OutputModel, ValueProblem>(OutputModel::Double(bits))),
        v matches ScriptValue::Boolean(b) ==> converted(v, ColumnType::Boolean) == Ok::<
            OutputModel,
            ValueProblem,
        >(OutputModel::Boolean(b)),
        v matches ScriptValue::Geometry(g) ==> (column_geometry_kind(kind) == Some(g.kind()) ==> converted(
            v,
            kind,
        ) == Ok::<OutputModel, ValueProblem>(OutputModel::Geometry(g@))),
{
}

/// Why a row was refused.
#[derive(Debug)]
pub enum RowError {
    /// The layer reads another source than the object being processed (or
    /// no object is being processed).
    WrongSource { current: Option<SourceKind> },
    /// A key of the row table is not a string.
    NonStringKey,
    /// A key of the row table is not UTF-8.
    InvalidKeyText,
    /// A key of the row table names no column.
    UnknownColumn { key: String },
    /// A required column is nil.
    MissingRequired { column: usize },
    /// A column's value is of the wrong kind.
    InvalidValue { column: usize, problem: ValueProblem },
}

/// A row refusal as the contracts see it.
pub enum RowFault {
    WrongSource { current: Option<SourceKind> },
    NonStringKey,
    InvalidKeyText,
    UnknownColumn { key: Seq<char> },
    MissingRequired { column: usize },
    InvalidValue { column: usize, problem: ValueProblem },
}

impl View for RowError {
    type V = RowFault;

    open spec fn view(&self) -> RowFault {
        match self {
            RowError::WrongSource { current } => RowFault::WrongSource { current: *current },
            RowError::NonStringKey => RowFault::NonStringKey,
            RowError::InvalidKeyText => RowFault::InvalidKeyText,
            RowError::UnknownColumn { key } => RowFault::UnknownColumn { key: key@ },
            RowError::MissingRequired { column } => RowFault::MissingRequired { column: *column },
            RowError::InvalidValue { column, problem } => RowFault::InvalidValue {
                column: *column,
                problem: *problem,
            },
        }
    }
}

/// `acc` followed by what `rest` gives, or the refusal that stops `rest`.
pub open spec fn values_after(acc: Seq<OutputModel>, rest: Result<Seq<OutputModel>, RowFault>) -> Result<
    Seq<OutputModel>,
    RowFault,
> {
    match rest {
        Ok(ms) => Ok(acc + ms),
        Err(f) => Err(f),
    }
}

/// What is wrong with one key of a row table, if anything.
pub open spec fn key_fault(layer: LayerModel, key: ScriptValue) -> Option<RowFault> {
    match key {
        ScriptValue::Text(name) => if exists|j: int|
            0 <= j < layer.columns.len() && #[trigger] layer.columns[j].name == name@ {
            None
        } else {
            Some(RowFault::UnknownColumn { key: name@ })
        },
        ScriptValue::InvalidText => Some(RowFault::InvalidKeyText),
        _ => Some(RowFault::NonStringKey),
    }
}

/// The first faulty key among the first `n`, in table order.
pub open spec fn first_key_fault(layer: LayerModel, keys: Seq<ScriptValue>, n: int) -> Option<RowFault>
    decreases n,
{
    if n <= 0 {
        None
    } else {
        match first_key_fault(layer, keys, n - 1) {
            Some(f) => Some(f),
            None => key_fault(layer, keys[n - 1]),
        }
    }
}

/// The value written for column `i`, given the script's value for it.
pub open spec fn column_value(layer: LayerModel, i: int, v: ScriptValue) -> Result<OutputModel, RowFault> {
    if v is Nil {
        if layer.columns[i].required {
            Err(RowFault::MissingRequired { column: i as usize })
        } else {
            Ok(OutputModel::Null)
        }
    } else {
        match converted(v, layer.columns[i].column_type) {
            Ok(m) => Ok(m),
            Err(p) => Err(RowFault::InvalidValue { column: i as usize, problem: p }),
        }
    }
}

/// The values for columns `i..`, or the first column's refusal.
pub open spec fn row_values_from(layer: LayerModel, values: Seq<ScriptValue>, i: int) -> Result<
    Seq<OutputModel>,
    RowFault,
>
    decreases values.len() - i,
{
    if i < 0 || i >= values.len() {
        Ok(seq![])
    } else {
        match column_value(layer, i, values[i]) {
            Err(f) => Err(f),
            Ok(m) => match row_values_from(layer, values, i + 1) {
                Ok(rest) => Ok(seq![m] + rest),
                Err(f) => Err(f),
            },
        }
    }
}

/// The column a refusal names lies within the layer.
pub open spec fn fault_in_layer(f: RowFault, layer: LayerModel) -> bool {
    match f {
        RowFault::MissingRequired { column } => column < layer.columns.len(),
        RowFault::InvalidValue { column, problem: _ } => column < layer.columns.len(),
        _ => true,
    }
}

/// The message that reports a refused row of `layer` for object `id`.
pub open spec fn row_message(f: RowFault, layer: LayerModel, id: i64) -> Seq<char> {
    let object = signed_decimal(id as int);
    match f {
        RowFault::WrongSource { current } => "layer '"@ + layer.name + "' accepts "@ + source_text(
            layer.source,
        ) + " objects but insert was called while processing "@ + match current {
            Some(kind) => source_text(kind),
            None => "no"@,
        } + " "@ + object,
        RowFault::NonStringKey => "layer '"@ + layer.name + "' row keys must be strings (object "@
            + object + ")"@,
        RowFault::InvalidKeyText => "layer '"@ + layer.name
            + "' row keys must be valid UTF-8 (object "@ + object + ")"@,
        RowFault::UnknownColumn { key } => "unknown column '"@ + key + "' for layer '"@
            + layer.name + "' (object "@ + object + ")"@,
        RowFault::MissingRequired { column } => "required column '"@ + layer.name + "."@
            + layer.columns[column as int].name + "' is missing for "@ + source_text(layer.source)
            + " "@ + object,
        RowFault::InvalidValue { column, problem } => "invalid value for column '"@ + layer.name
            + "."@ + layer.columns[column as int].name + "' while processing "@ + source_text(
            layer.source,
        ) + " "@ + object + ": "@ + value_message(
            problem,
            layer.columns[column as int].column_type,
        ),
    }
}

impl RowError {
    /// The message that reports this refusal of a row of `layer` for the
    /// object `id`.
    pub fn message(&self, layer: &LayerDef, id: i64) -> (r: String)
        requires
            fault_in_layer(self@, layer@),
        ensures
            r@ == row_message(self@, layer@, id),
    {
        let mut text = String::new();
        match self {
            RowError::WrongSource { current } => {
                text.append("layer '");
                text.append(layer.name.as_str());
                text.append("' accepts ");
                text.append(layer.source.as_str());
                text.append(" objects but insert was called while processing ");
                match current {
                    Some(kind) => text.append(kind.as_str()),
                    None => text.append("no"),
                }
                text.append(" ");
                push_signed_decimal(&mut text, id);
            },
            RowError::NonStringKey => {
                text.append("layer '");
                text.append(layer.name.as_str());
                text.append("' row keys must be strings (object ");
                push_signed_decimal(&mut text, id);
                text.append(")");
            },
            RowError::InvalidKeyText => {
                text.append("layer '");
                text.append(layer.name.as_str());
                text.append("' row keys must be valid UTF-8 (object ");
                push_signed_decimal(&mut text, id);
                text.append(")");
            },
            RowError::UnknownColumn { key } => {
                text.append("unknown column '");
                text.append(key.as_str());
                text.append("' for layer '");
                text.append(layer.name.as_str());
                text.append("' (object ");
                push_signed_decimal(&mut text, id);
                text.append(")");
            },
            RowError::MissingRequired { column } => {
                let c = &layer.columns[*column];
                assert(c@ == layer@.columns[*column as int]);
                text.append("required column '");
                text.append(layer.name.as_str());
                text.append(".");
                text.append(c.name.as_str());
                text.append("' is missing for ");
                text.append(layer.source.as_str());
                text.append(" ");
                push_signed_decimal(&mut text, id);
            },
            RowError::InvalidValue { column, problem } => {
                let c = &layer.columns[*column];
                assert(c@ == layer@.columns[*column as int]);
                text.append("invalid value for column '");
                text.append(layer.name.as_str());
                text.append(".");
                text.append(c.name.as_str());
                text.append("' while processing ");
                text.append(layer.source.as_str());
                text.append(" ");
                push_signed_decimal(&mut text, id);
                text.append(": ");
                let detail = problem.message(c.column_type);
                text.append(detail.as_str());
            },
        }
        text
    }
}

/// The row a script's insert gives: the layer must read the object being
/// processed, every key must name a column, and every column's value must
/// convert; `values[i]` is the script's value for column `i` (nil when
/// absent).
pub open spec fn row_outcome(
    layer: LayerModel,
    current: Option<SourceKind>,
    keys: Seq<ScriptValue>,
    values: Seq<ScriptValue>,
) -> Result<Seq<OutputModel>, RowFault> {
    if current != Some(layer.source) {
        Err(RowFault::WrongSource { current })
    } else {
        match first_key_fault(layer, keys, keys.len() as int) {
            Some(f) => Err(f),
            None => row_values_from(layer, values, 0),
        }
    }
}

proof fn lemma_key_faults_in_layer(layer: LayerModel, keys: Seq<ScriptValue>, n: int)
    ensures
        first_key_fault(layer, keys, n) matches Some(f) ==> fault_in_layer(f, layer),
    decreases n,
{
    if n > 0 {
        lemma_key_faults_in_layer(layer, keys, n - 1);
    }
}

proof fn lemma_value_faults_in_layer(layer: LayerModel, values: Seq<ScriptValue>, i: int)
    requires
        values.len() == layer.columns.len(),
        0 <= i,
    ensures
        row_values_from(layer, values, i) matches Err(f) ==> fault_in_layer(f, layer),
    decreases values.len() - i,
{
    if i < values.len() {
        lemma_value_faults_in_layer(layer, values, i + 1);
    }
}

/// A refused row always names a column of its layer.
pub proof fn lemma_row_faults_in_layer(
    layer: LayerModel,
    current: Option<SourceKind>,
    keys: Seq<ScriptValue>,
    values: Seq<ScriptValue>,
)
    requires
        values.len() == layer.columns.len(),
    ensures
        row_outcome(layer, current, keys, values) matches Err(f) ==> fault_in_layer(f, layer),
{
    lemma_key_faults_in_layer(layer, keys, keys.len() as int);
    lemma_value_faults_in_layer(layer, values, 0);
}

proof fn lemma_key_fault_stays(layer: LayerModel, keys: Seq<ScriptValue>, k: int, n: int)
    requires
        0 <= k <= n,
        first_key_fault(layer, keys, k) is Some,
    ensures
        first_key_fault(layer, keys, n) == first_key_fault(layer, keys, k),
    decreases n - k,
{
    if n > k {
        lemma_key_fault_stays(layer, keys, k, n - 1);
    }
}

fn reversed<T>(v: Vec<T>) -> (r: Vec<T>)
    ensures
        r@ == v@.reverse(),
{
    let ghost given = v@;
    let mut v = v;
    let mut r: Vec<T> = Vec::new();
    while v.len() > 0
        invariant
            v@ == given.take(v.len() as int),
            r@ == given.skip(v.len() as int).reverse(),
            v.len() <= given.len(),
        decreases v.len(),
    {
        let ghost before = v@;
        let x = v.pop().unwrap();
        proof {
            assert(v@ =~= given.take(v.len() as int));
            assert(given.skip(v.len() as int).reverse() =~= given.skip(before.len() as int).reverse().push(x));
        }
        r.push(x);
    }
    assert(given.skip(0) =~= given);
    r
}

/// Whether a layer has a column of this name.
fn names_column(layer: &LayerDef, key: &String) -> (r: bool)
    ensures
        r == exists|j: int| 0 <= j < layer@.columns.len() && #[trigger] layer@.columns[j].name == key@,
{
    let mut j: usize = 0;
    while j < layer.columns.len()
        invariant
            j <= layer.columns.len(),
            forall|k: int| 0 <= k < j ==> layer@.columns[k].name != key@,
        decreases layer.columns.len() - j,
    {
        if layer.columns[j].name == *key {
            assert(layer@.columns[j as int].name == key@);
            return true;
        }
        j = j + 1;
    }
    false
}

/// Builds a row for layer `layer_index` from a script's insert: `keys` are
/// the keys of the script's table in iteration order and `values[i]` is its
/// value for column `i`.
pub fn build_row(
    layer_index: usize,
    layer: &LayerDef,
    current: Option<SourceKind>,
    keys: &Vec<ScriptValue>,
    values: Vec<ScriptValue>,
) -> (r: Result<OutputRow, RowError>)
    requires
        values.len() == layer.columns.len(),
    ensures
        match row_outcome(layer@, current, keys@, values@) {
            Ok(ms) => r matches Ok(row) && row@ == (OutputRowModel { layer_index, values: ms }),
            Err(f) => r matches Err(e) && e@ == f && fault_in_layer(f, layer@),
        },
{
    proof {
        lemma_row_faults_in_layer(layer@, current, keys@, values@);
    }
    let ghost model = layer@;
    let ghost vs = values@;
    let same_source: bool = match current {
        Some(source) => source == layer.source,
        None => false,
    };
    if !same_source {
        return Err(RowError::WrongSource { current });
    }
    let mut k: usize = 0;
    while k < keys.len()
        invariant
            model == layer@,
            current == Some(model.source),
            k <= keys.len(),
            first_key_fault(model, keys@, k as int) is None,
        decreases keys.len() - k,
    {
        match &keys[k] {
            ScriptValue::Text(name) => {
                if !names_column(layer, name) {
                    proof {
                        lemma_key_fault_stays(model, keys@, k + 1, keys.len() as int);
                    }
                    return Err(RowError::UnknownColumn { key: name.clone() });
                }
            },
            ScriptValue::InvalidText => {
                proof {
                    lemma_key_fault_stays(model, keys@, k + 1, keys.len() as int);
                }
                return Err(RowError::InvalidKeyText);
            },
            _ => {
                proof {
                    lemma_key_fault_stays(model, keys@, k + 1, keys.len() as int);
                }
                return Err(RowError::NonStringKey);
            },
        }
        k = k + 1;
    }
    let n = layer.columns.len();
    let mut pending = reversed(values);
    let mut out: Vec<OutputValue> = Vec::new();
    let ghost mut done: Seq<OutputModel> = seq![];
    assert(values_after(done, row_values_from(model, vs, 0)) =~= row_values_from(model, vs, 0)) by {
        match row_values_from(model, vs, 0) {
            Ok(rest) => {
                assert(done + rest =~= rest);
            },
            Err(_) => {},
        }
    }
    let mut i: usize = 0;
    #[verifier::loop_isolation(false)]
    while i < n
        invariant
            model == layer@,
            current == Some(model.source),
            first_key_fault(model, keys@, keys.len() as int) is None,
            n == model.columns.len(),
            n == vs.len(),
            i <= n,
            pending@ == vs.skip(i as int).reverse(),
            out@.map_values(|v: OutputValue| v@) == done,
            row_values_from(model, vs, 0) == values_after(done, row_values_from(model, vs, i as int)),
        decreases n - i,
    {
        let ghost before = pending@;
        assert(row_values_from(model, vs, i as int) == match column_value(model, i as int, vs[i as int]) {
            Err(f) => Err(f),
            Ok(m) => match row_values_from(model, vs, i + 1) {
                Ok(rest) => Ok(seq![m] + rest),
                Err(f) => Err(f),
            },
        });
        let value = pending.pop().unwrap();
        proof {
            assert(value == vs[i as int]);
            assert(pending@ =~= vs.skip(i + 1).reverse());
        }
        let column = &layer.columns[i];
        assert(model.columns[i as int] == column@);
        let cell = match value {
            ScriptValue::Nil => {
                if column.required {
                    return Err(RowError::MissingRequired { column: i });
                }
                OutputValue::Null
            },
            other => {
                match convert_value(other, column.column_type) {
                    Ok(v) => v,
                    Err(p) => {
                        return Err(RowError::InvalidValue { column: i, problem: p });
                    },
                }
            },
        };
        proof {
            let m = cell@;
            match row_values_from(model, vs, i + 1) {
                Ok(rest) => {
                    assert(done + (seq![m] + rest) =~= done.push(m) + rest);
                },
                Err(_) => {},
            }
            done = done.push(m);
        }
        out.push(cell);
        assert(out@.map_values(|v: OutputValue| v@) =~= done);
        i = i + 1;
    }
    assert(done + seq![] =~= done);
    Ok(OutputRow { layer_index, values: out })
}


/// The kind of a geometry's model is the geometry's kind.
pub proof fn lemma_model_kind(g: GeometryValue)
    ensures
        model_kind(g@) == g.kind(),
{
}

/// A converted value fits its column's type.
pub proof fn lemma_converted_fits(v: ScriptValue, kind: ColumnType)
    ensures
        converted(v, kind) matches Ok(m) ==> value_fits(m, kind),
{
    if let ScriptValue::Geometry(g) = v {
        lemma_model_kind(g);
    }
}

proof fn lemma_row_values_fit(layer: LayerModel, values: Seq<ScriptValue>, i: int)
    requires
        values.len() == layer.columns.len(),
        0 <= i <= values.len(),
    ensures
        row_values_from(layer, values, i) matches Ok(ms) ==> {
            &&& ms.len() == values.len() - i
            &&& forall|k: int|
                0 <= k < ms.len() ==> value_fits(#[trigger] ms[k], layer.columns[i + k].column_type)
            &&& forall|k: int|
                0 <= k < ms.len() && layer.columns[i + k].required ==> !(#[trigger] ms[k] is Null)
        },
    decreases values.len() - i,
{
    if i < values.len() {
        lemma_row_values_fit(layer, values, i + 1);
        lemma_converted_fits(values[i], layer.columns[i].column_type);
        if let Ok(ms) = row_values_from(layer, values, i) {
            let m = ms[0];
            let rest = row_values_from(layer, values, i + 1)->Ok_0;
            assert(ms == seq![m] + rest);
            assert forall|k: int| 0 <= k < ms.len() implies value_fits(
                #[trigger] ms[k],
                layer.columns[i + k].column_type,
            ) by {
                if k > 0 {
                    assert(ms[k] == rest[k - 1]);
                }
            }
            assert forall|k: int| 0 <= k < ms.len() && layer.columns[i + k].required implies !(
            #[trigger] ms[k] is Null) by {
                if k > 0 {
                    assert(ms[k] == rest[k - 1]);
                }
            }
        }
    } else {
        assert(row_values_from(layer, values, i) == Ok::<Seq<OutputModel>, RowFault>(seq![]));
    }
}

/// Every row built from a script's insert fits its layer: one value per
/// column, of the column's type, and no null in a required column.
pub proof fn lemma_built_rows_fit(
    layer: LayerModel,
    current: Option<SourceKind>,
    keys: Seq<ScriptValue>,
    values: Seq<ScriptValue>,
)
    requires
        values.len() == layer.columns.len(),
    ensures
        row_outcome(layer, current, keys, values) matches Ok(ms) ==> row_fits(layer, ms),
{
    lemma_row_values_fit(layer, values, 0);
}

/// What processing one object gave.
#[derive(Debug)]
pub enum ObjectOutcome {
    /// The rows the scripts inserted, in order.
    Rows(Vec<OutputRow>),
    /// The object's geometry could not be resolved; its rows are dropped.
    GeometrySkipped(String),
}

/// Why processing an object failed.
#[derive(Debug)]
pub enum WorkerError {
    /// A script inserted an invalid row or looked something up wrongly.
    Fatal(String),
    /// A script's callback raised an error.
    Callback { source: SourceKind, id: i64, message: String },
}

/// The message that reports a failed object.
pub open spec fn worker_message(e: WorkerError) -> Seq<char> {
    match e {
        WorkerError::Fatal(m) => m@,
        WorkerError::Callback { source, id, message } => "Lua process_"@ + source_text(source)
            + " failed for "@ + source_text(source) + " "@ + signed_decimal(id as int) + ": "@
            + message@,
    }
}

impl WorkerError {
    pub fn message(&self) -> (r: String)
        ensures
            r@ == worker_message(*self),
    {
        match self {
            WorkerError::Fatal(m) => m.clone(),
            WorkerError::Callback { source, id, message } => {
                let mut text = String::new();
                text.append("Lua process_");
                text.append(source.as_str());
                text.append(" failed for ");
                text.append(source.as_str());
                text.append(" ");
                push_signed_decimal(&mut text, *id);
                text.append(": ");
                text.append(message.as_str());
                text
            },
        }
    }
}

/// What one script's callback left behind for one object.
#[derive(Debug)]
pub struct CallbackReport {
    /// The last invalid insert or lookup, which is fatal.
    pub fatal_error: Option<String>,
    /// The last geometry that could not be resolved.
    pub geometry_failure: Option<String>,
    /// The error the callback raised, if it raised one.
    pub callback_error: Option<String>,
    /// The rows inserted, in order.
    pub rows: Vec<OutputRow>,
}

/// What a callback's report amounts to for object `id` of `source`.
pub open spec fn report_outcome(source: SourceKind, id: i64, report: CallbackReport) -> Result<
    ObjectOutcome,
    WorkerError,
> {
    match report.fatal_error {
        Some(e) => Err(WorkerError::Fatal(e)),
        None => match report.geometry_failure {
            Some(g) => Ok(ObjectOutcome::GeometrySkipped(g)),
            None => match report.callback_error {
                Some(message) => Err(WorkerError::Callback { source, id, message }),
                None => Ok(ObjectOutcome::Rows(report.rows)),
            },
        },
    }
}

/// What an object's callback amounts to: a fatal error wins, then a
/// geometry failure (the rows are dropped), then an error the callback
/// raised; otherwise the rows inserted.
pub fn object_outcome(source: SourceKind, id: i64, report: CallbackReport) -> (r: Result<
    ObjectOutcome,
    WorkerError,
>)
    ensures
        r == report_outcome(source, id, report),
{
    match report.fatal_error {
        Some(error) => Err(WorkerError::Fatal(error)),
        None => match report.geometry_failure {
            Some(failure) => Ok(ObjectOutcome::GeometrySkipped(failure)),
            None => match report.callback_error {
                Some(message) => Err(WorkerError::Callback { source, id, message }),
                None => Ok(ObjectOutcome::Rows(report.rows)),
            },
        },
    }
}

/// The index of the first failed outcome among the first `n`.
pub open spec fn first_failure(outcomes: Seq<Result<ObjectOutcome, WorkerError>>, n: int) -> Option<int>
    decreases n,
{
    if n <= 0 {
        None
    } else {
        match first_failure(outcomes, n - 1) {
            Some(i) => Some(i),
            None => if outcomes[n - 1] is Err {
                Some(n - 1)
            } else {
                None
            },
        }
    }
}

/// The index of the first skipped outcome among the first `n`.
pub open spec fn first_skip(outcomes: Seq<Result<ObjectOutcome, WorkerError>>, n: int) -> Option<int>
    decreases n,
{
    if n <= 0 {
        None
    } else {
        match first_skip(outcomes, n - 1) {
            Some(i) => Some(i),
            None => if outcomes[n - 1] matches Ok(ObjectOutcome::GeometrySkipped(_)) {
                Some(n - 1)
            } else {
                None
            },
        }
    }
}

/// The rows of the first `n` outcomes, in order.
pub open spec fn all_rows(outcomes: Seq<Result<ObjectOutcome, WorkerError>>, n: int) -> Seq<OutputRow>
    decreases n,
{
    if n <= 0 {
        seq![]
    } else {
        all_rows(outcomes, n - 1) + match outcomes[n - 1] {
            Ok(ObjectOutcome::Rows(rows)) => rows@,
            _ => seq![],
        }
    }
}

/// A geometry that one script could not resolve drops every row of the
/// object, whatever the other scripts inserted, unless some script failed:
/// the combined outcome is a skip.
pub proof fn lemma_geometry_failure_discards_rows(
    source: SourceKind,
    id: i64,
    reports: Seq<CallbackReport>,
    k: int,
)
    requires
        0 <= k < reports.len(),
        reports[k].fatal_error is None,
        reports[k].geometry_failure is Some,
        forall|i: int| 0 <= i < reports.len() ==> #[trigger] report_outcome(source, id, reports[i]) is Ok,
    ensures
        ({
            let outcomes = reports.map_values(|r: CallbackReport| report_outcome(source, id, r));
            &&& first_failure(outcomes, outcomes.len() as int) is None
            &&& first_skip(outcomes, outcomes.len() as int) matches Some(j) && outcomes[j] matches Ok(
                ObjectOutcome::GeometrySkipped(_),
            )
        }),
{
    let outcomes = reports.map_values(|r: CallbackReport| report_outcome(source, id, r));
    assert(outcomes[k] == report_outcome(source, id, reports[k]));
    lemma_no_failure(outcomes, outcomes.len() as int);
    lemma_skip_found(outcomes, k, outcomes.len() as int);
}

proof fn lemma_no_failure(outcomes: Seq<Result<ObjectOutcome, WorkerError>>, n: int)
    requires
        0 <= n <= outcomes.len(),
        forall|i: int| 0 <= i < outcomes.len() ==> #[trigger] outcomes[i] is Ok,
    ensures
        first_failure(outcomes, n) is None,
    decreases n,
{
    if n > 0 {
        lemma_no_failure(outcomes, n - 1);
        assert(outcomes[n - 1] is Ok);
    }
}

proof fn lemma_skip_found(outcomes: Seq<Result<ObjectOutcome, WorkerError>>, k: int, n: int)
    requires
        0 <= k < n <= outcomes.len(),
        outcomes[k] matches Ok(ObjectOutcome::GeometrySkipped(_)),
    ensures
        first_skip(outcomes, n) matches Some(j) && outcomes[j] matches Ok(
            ObjectOutcome::GeometrySkipped(_),
        ),
    decreases n,
{
    if n - 1 > k {
        lemma_skip_found(outcomes, k, n - 1);
    } else {
        lemma_first_skip_kind(outcomes, n - 1);
    }
}

proof fn lemma_first_skip_kind(outcomes: Seq<Result<ObjectOutcome, WorkerError>>, n: int)
    requires
        0 <= n <= outcomes.len(),
    ensures
        first_skip(outcomes, n) matches Some(j) ==> 0 <= j < n && outcomes[j] matches Ok(
            ObjectOutcome::GeometrySkipped(_),
        ),
    decreases n,
{
    if n > 0 {
        lemma_first_skip_kind(outcomes, n - 1);
    }
}

/// Combines what each script gave for one object: the first failure wins,
/// then the first geometry skip (all rows of the object are dropped);
/// otherwise the rows of all scripts, in script order.
pub fn combine_outcomes(outcomes: Vec<Result<ObjectOutcome, WorkerError>>) -> (r: Result<
    ObjectOutcome,
    WorkerError,
>)
    ensures
        match first_failure(outcomes@, outcomes.len() as int) {
            Some(i) => r == outcomes@[i],
            None => match first_skip(outcomes@, outcomes.len() as int) {
                Some(i) => r == outcomes@[i],
                None => r matches Ok(ObjectOutcome::Rows(rows)) && rows@ == all_rows(
                    outcomes@,
                    outcomes.len() as int,
                ),
            },
        },
{
    let ghost all = outcomes@;
    let n = outcomes.len();
    let mut pending = reversed(outcomes);
    let mut rows: Vec<OutputRow> = Vec::new();
    let mut skipped: Option<Result<ObjectOutcome, WorkerError>> = None;
    let mut i: usize = 0;
    #[verifier::loop_isolation(false)]
    while i < n
        invariant
            n == all.len(),
            i <= n,
            pending@ == all.skip(i as int).reverse(),
            first_failure(all, i as int) is None,
            match first_skip(all, i as int) {
                Some(k) => skipped == Some(all[k]),
                None => skipped is None && rows@ == all_rows(all, i as int),
            },
        decreases n - i,
    {
        let outcome = pending.pop().unwrap();
        proof {
            assert(outcome == all[i as int]);
            assert(pending@ =~= all.skip(i + 1).reverse());
        }
        match outcome {
            Err(e) => {
                proof {
                    lemma_first_stays_failure(all, i + 1, n as int);
                }
                return Err(e);
            },
            Ok(ObjectOutcome::GeometrySkipped(reason)) => {
                if skipped.is_none() {
                    skipped = Some(Ok(ObjectOutcome::GeometrySkipped(reason)));
                }
            },
            Ok(ObjectOutcome::Rows(mut more)) => {
                let ghost before = rows@;
                rows.append(&mut more);
                proof {
                    assert(rows@ == before + all[i as int]->Ok_0->Rows_0@);
                }
            },
        }
        i = i + 1;
    }
    match skipped {
        Some(outcome) => outcome,
        None => Ok(ObjectOutcome::Rows(rows)),
    }
}

proof fn lemma_first_stays_failure(outcomes: Seq<Result<ObjectOutcome, WorkerError>>, k: int, n: int)
    requires
        0 <= k <= n,
        first_failure(outcomes, k) is Some,
    ensures
        first_failure(outcomes, n) == first_failure(outcomes, k),
    decreases n - k,
{
    if n > k {
        lemma_first_stays_failure(outcomes, k, n - 1);
    }
}

/// The first column among the first `n` whose type text names no type.
pub open spec fn first_unknown_type(columns: Seq<(String, String, bool)>, n: int) -> Option<int>
    decreases n,
{
    if n <= 0 {
        None
    } else {
        match first_unknown_type(columns, n - 1) {
            Some(i) => Some(i),
            None => if column_type_from_text(columns[n - 1].1@) is None {
                Some(n - 1)
            } else {
                None
            },
        }
    }
}

proof fn lemma_unknown_type_stays(columns: Seq<(String, String, bool)>, k: int, n: int)
    requires
        0 <= k <= n,
        first_unknown_type(columns, k) is Some,
    ensures
        first_unknown_type(columns, n) == first_unknown_type(columns, k),
    decreases n - k,
{
    if n > k {
        lemma_unknown_type_stays(columns, k, n - 1);
    }
}

/// Checks the column types read so far, in order: the first name that is no
/// column type is refused.
pub fn check_column_types(columns: &Vec<(String, String, bool)>) -> (r: Result<(), SchemaError>)
    ensures
        match first_unknown_type(columns@, columns.len() as int) {
            Some(i) => r matches Err(SchemaError::UnknownColumnType(t)) && t@ == columns@[i].1@,
            None => r is Ok,
        },
{
    let n = columns.len();
    let mut i: usize = 0;
    while i < n
        invariant
            n == columns.len(),
            i <= n,
            first_unknown_type(columns@, i as int) is None,
        decreases n - i,
    {
        let checked = ColumnType::parse(columns[i].1.as_str());
        if checked.is_err() {
            proof {
                lemma_unknown_type_stays(columns@, i + 1, n as int);
            }
            return match checked {
                Ok(_) => Ok(()),
                Err(e) => Err(e),
            };
        }
        i = i + 1;
    }
    Ok(())
}

/// Reads a layer definition from a script's text: each column is its name,
/// its type name and whether it is required. Column types are read first,
/// in order, then the source.
pub fn layer_from_text(name: String, source: &str, columns: Vec<(String, String, bool)>) -> (r: Result<
    LayerDef,
    SchemaError,
>)
    ensures
        match first_unknown_type(columns@, columns.len() as int) {
            Some(i) => r matches Err(SchemaError::UnknownColumnType(t)) && t@ == columns@[i].1@,
            None => match source_from_text(source@) {
                None => r matches Err(SchemaError::UnknownSource(t)) && t@ == source@,
                Some(kind) => r matches Ok(layer) && layer@.name == name@ && layer@.source == kind
                    && layer@.columns.len() == columns.len() && forall|i: int|
                    0 <= i < columns.len() ==> (#[trigger] layer@.columns[i]).name == columns@[i].0@
                        && layer@.columns[i].required == columns@[i].2 && column_type_from_text(
                        columns@[i].1@,
                    ) == Some(layer@.columns[i].column_type),
            },
        },
{
    let ghost all = columns@;
    let n = columns.len();
    let mut pending = reversed(columns);
    let mut parsed: Vec<ColumnDef> = Vec::new();
    let mut i: usize = 0;
    #[verifier::loop_isolation(false)]
    while i < n
        invariant
            n == all.len(),
            i <= n,
            pending@ == all.skip(i as int).reverse(),
            first_unknown_type(all, i as int) is None,
            parsed.len() == i,
            forall|k: int|
                0 <= k < i ==> (#[trigger] parsed@[k]@).name == all[k].0@ && parsed@[k]@.required
                    == all[k].2 && column_type_from_text(all[k].1@) == Some(parsed@[k]@.column_type),
        decreases n - i,
    {
        let (column_name, type_text, required) = pending.pop().unwrap();
        proof {
            assert((column_name, type_text, required) == all[i as int]);
            assert(pending@ =~= all.skip(i + 1).reverse());
        }
        match ColumnType::parse(type_text.as_str()) {
            Ok(column_type) => {
                parsed.push(ColumnDef { name: column_name, column_type, required });
            },
            Err(e) => {
                proof {
                    lemma_unknown_type_stays(all, i + 1, n as int);
                }
                return Err(e);
            },
        }
        i = i + 1;
    }
    let kind = SourceKind::parse(source)?;
    let layer = LayerDef { name, source: kind, columns: parsed };
    assert forall|k: int| 0 <= k < n implies (#[trigger] layer@.columns[k]).name == all[k].0@
        && layer@.columns[k].required == all[k].2 && column_type_from_text(all[k].1@) == Some(
        layer@.columns[k].column_type,
    ) by {
        assert(layer@.columns[k] == parsed@[k]@);
    }
    Ok(layer)
}

/// How a layer whose name is taken is refused: by its name alone when the
/// same script defined that name before, else naming both scripts.
pub open spec fn duplicate_refusal(
    r: Result<usize, SchemaError>,
    name: Seq<char>,
    first_script: Seq<char>,
    script: Seq<char>,
) -> bool {
    if first_script == script {
        r matches Err(e) && e@ == SchemaFault::DuplicateLayer { layer: name }
    } else {
        r matches Err(e) && e@ == SchemaFault::DuplicateLayerDefinition {
            layer: name,
            first_script,
            second_script: script,
        }
    }
}

/// The layers the scripts of a worker defined, in definition order, with
/// the script that defined each.
pub struct LayerRegistry {
    layers: Vec<LayerDef>,
    origins: Vec<String>,
}

impl LayerRegistry {
    pub closed spec fn layer_models(&self) -> Seq<LayerModel> {
        self.layers@.map_values(|l: LayerDef| l@)
    }

    pub closed spec fn origin_names(&self) -> Seq<Seq<char>> {
        self.origins@.map_values(|s: String| s@)
    }

    /// One origin per layer; every layer passes its checks and no two share
    /// a name.
    #[verifier::type_invariant]
    pub closed spec fn well_formed(&self) -> bool {
        &&& self.layers.len() == self.origins.len()
        &&& forall|i: int|
            0 <= i < self.layer_models().len() ==> #[trigger] layer_fault(self.layer_models()[i]) is None
        &&& forall|i: int, j: int|
            0 <= i < j < self.layer_models().len() ==> self.layer_models()[i].name
                != self.layer_models()[j].name
    }

    pub fn new() -> (r: LayerRegistry)
        ensures
            r.layer_models() == Seq::<LayerModel>::empty(),
            r.origin_names() == Seq::<Seq<char>>::empty(),
    {
        let r = LayerRegistry { layers: Vec::new(), origins: Vec::new() };
        assert(r.layer_models() =~= Seq::<LayerModel>::empty());
        assert(r.origin_names() =~= Seq::<Seq<char>>::empty());
        r
    }

    /// The layers defined so far.
    pub fn layers(&self) -> (r: &Vec<LayerDef>)
        ensures
            r@.map_values(|l: LayerDef| l@) == self.layer_models(),
    {
        &self.layers
    }

    /// Hands the layers over, in definition order.
    pub fn into_layers(self) -> (r: Vec<LayerDef>)
        ensures
            r@.map_values(|l: LayerDef| l@) == self.layer_models(),
    {
        self.layers
    }

    /// Defines a layer for `script`: it must be valid and its name unused by
    /// every layer defined before, by any script. Its index is the number of
    /// layers defined before it, and `script` is recorded as its origin. A
    /// taken name is refused by name alone when the same script took it, and
    /// naming both scripts otherwise.
    pub fn define(&mut self, layer: LayerDef, script: &str) -> (r: Result<usize, SchemaError>)
        ensures
            match layer_fault(layer@) {
                Some(f) => r matches Err(e) && e@ == f && final(self).layer_models() == old(
                    self,
                ).layer_models() && final(self).origin_names() == old(self).origin_names(),
                None => if exists|j: int|
                    0 <= j < old(self).layer_models().len()
                        && #[trigger] old(self).layer_models()[j].name == layer@.name {
                    &&& exists|j: int|
                        0 <= j < old(self).layer_models().len()
                            && old(self).layer_models()[j].name == layer@.name && duplicate_refusal(
                            r,
                            layer@.name,
                            #[trigger] old(self).origin_names()[j],
                            script@,
                        )
                    &&& final(self).layer_models() == old(self).layer_models()
                    &&& final(self).origin_names() == old(self).origin_names()
                } else {
                    &&& r == Ok::<usize, SchemaError>(old(self).layer_models().len() as usize)
                    &&& final(self).layer_models() == old(self).layer_models().push(layer@)
                    &&& final(self).origin_names() == old(self).origin_names().push(script@)
                },
            },
    {
        proof {
            use_type_invariant(&*self);
        }
        let checked = layer.validate();
        if let Err(e) = checked {
            return Err(e);
        }
        let n = self.layers.len();
        let mut j: usize = 0;
        #[verifier::loop_isolation(false)]
        while j < n
            invariant
                n == self.layers.len(),
                self.layers.len() == self.origins.len(),
                j <= n,
                forall|k: int| 0 <= k < j ==> self.layer_models()[k].name != layer@.name,
            decreases n - j,
        {
            if self.layers[j].name == layer.name {
                assert(self.layer_models()[j as int].name == layer@.name);
                assert(self.origin_names()[j as int] == self.origins@[j as int]@);
                if str_equals(self.origins[j].as_str(), script) {
                    return Err(SchemaError::DuplicateLayer { layer: layer.name.clone() });
                }
                return Err(
                    SchemaError::DuplicateLayerDefinition {
                        layer: layer.name.clone(),
                        first_script: self.origins[j].clone(),
                        second_script: String::from_str(script),
                    },
                );
            }
            j = j + 1;
        }
        let ghost before = self.layer_models();
        let ghost before_origins = self.origin_names();
        let ghost model = layer@;
        let mut taken = LayerRegistry::new();
        std::mem::swap(&mut taken, self);
        proof {
            use_type_invariant(&taken);
        }
        assert(taken.layer_models() == before);
        let LayerRegistry { mut layers, mut origins } = taken;
        layers.push(layer);
        origins.push(String::from_str(script));
        let ghost models = layers@.map_values(|l: LayerDef| l@);
        assert(models =~= before.push(model));
        assert forall|i: int| 0 <= i < models.len() implies #[trigger] layer_fault(models[i]) is None by {
            if i < n {
                assert(models[i] == before[i]);
            }
        }
        assert forall|i: int, k: int| 0 <= i < k < models.len() implies models[i].name
            != models[k].name by {
            if k == n {
                assert(before[i].name != model.name);
            } else {
                assert(models[i] == before[i] && models[k] == before[k]);
            }
        }
        let grown = LayerRegistry { layers, origins };
        assert(grown.origin_names() =~= before_origins.push(script@));
        *self = grown;
        Ok(n)
    }
}

/// The layers a registry collected form a schema that `validate_schema`
/// accepts, as soon as there is one: layer names are unique across all the
/// scripts that defined them.
pub proof fn lemma_registry_forms_schema(registry: &LayerRegistry)
    requires
        registry.well_formed(),
        registry.layer_models().len() > 0,
    ensures
        crate::schema::schema_fault(registry.layer_models()) is None,
{
    crate::schema::lemma_schema_of_valid_layers(registry.layer_models());
}

} // verus!
