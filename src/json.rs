//! Rendering a document node as JSON, through serde_json's values.
use vstd::prelude::*;
use toml_edit::{Item, Value};
use crate::doc::{
    Shape, entries_of, item_of_value, shape, slots_of, table_fields, table_item, tree_of, value_tree,
};
use crate::model::{Leaf, Tree, is_value};
use crate::text::signed_decimal;

verus! {

#[verifier::external_type_specification]
#[verifier::external_body]
pub struct ExJsonValue(serde_json::Value);


/// A JSON value. A number that comes from a float is named by the float's
/// `Display` text.
pub enum Json {
    Null,
    Bool(bool),
    Int(int),
    Float(Seq<char>),
    Str(Seq<char>),
    Array(Seq<Json>),
    Object(Seq<(Seq<char>, Json)>),
}

/// What a serde_json value holds.
pub uninterp spec fn json_view(v: serde_json::Value) -> Json;

/// The text that serde_json writes for a string: the characters between
/// double quotes, escaped.
pub uninterp spec fn json_quoted(s: Seq<char>) -> Seq<char>;

/// The text that serde_json writes for the finite float whose `Display`
/// text is `s`.
pub uninterp spec fn json_float_text(s: Seq<char>) -> Seq<char>;

/// The compact text that serde_json writes for a value.
pub open spec fn json_text(j: Json) -> Seq<char>
    decreases j, 0nat,
{
    match j {
        Json::Null => "null"@,
        Json::Bool(b) => if b {
            "true"@
        } else {
            "false"@
        },
        Json::Int(n) => signed_decimal(n),
        Json::Float(s) => json_float_text(s),
        Json::Str(s) => json_quoted(s),
        Json::Array(xs) => "["@ + json_items(xs, xs.len()) + "]"@,
        Json::Object(es) => "{"@ + json_members(es, es.len()) + "}"@,
    }
}

/// The texts of the first `n` elements, separated by commas.
pub open spec fn json_items(xs: Seq<Json>, n: nat) -> Seq<char>
    decreases xs, n,
{
    if n == 0 || n > xs.len() {
        Seq::empty()
    } else if n == 1 {
        json_text(xs[0])
    } else {
        json_items(xs, (n - 1) as nat) + ","@ + json_text(xs[n - 1])
    }
}

/// The first `n` members as `"key":value`, separated by commas.
pub open spec fn json_members(es: Seq<(Seq<char>, Json)>, n: nat) -> Seq<char>
    decreases es, n,
{
    if n == 0 || n > es.len() {
        Seq::empty()
    } else if n == 1 {
        json_quoted(es[0].0) + ":"@ + json_text(es[0].1)
    } else {
        json_members(es, (n - 1) as nat) + ","@ + json_quoted(es[n - 1].0) + ":"@ + json_text(
            es[n - 1].1,
        )
    }
}

/// The JSON form of a node: scalars map to their JSON counterparts (a float
/// that is not finite, and a date-time, to their text); arrays and arrays of
/// tables to lists and tables to objects, in order, without placeholders.
pub open spec fn json_of(t: Tree) -> Json
    decreases t, 0nat,
{
    match t {
        Tree::Null => Json::Null,
        Tree::Scalar(leaf, _, _) => match leaf {
            Leaf::Str(s) => Json::Str(s),
            Leaf::Int(n) => Json::Int(n),
            Leaf::Float(s, finite) => if finite {
                Json::Float(s)
            } else {
                Json::Str(s)
            },
            Leaf::Bool(b) => Json::Bool(b),
            Leaf::Datetime(s) => Json::Str(s),
        },
        Tree::Array(xs, _) => Json::Array(json_list(xs, xs.len(), false)),
        Tree::Tables(xs, _) => Json::Array(json_list(xs, xs.len(), true)),
        Tree::Inline(es, _, _) => Json::Object(json_fields(es, es.len(), true)),
        Tree::Table(es, _, _) => Json::Object(json_fields(es, es.len(), false)),
    }
}

/// Whether a slot is listed: a table in an array of tables, a value in an array.
pub open spec fn slot_listed(x: Tree, tables: bool) -> bool {
    if tables {
        x is Table
    } else {
        is_value(x)
    }
}

/// Whether a field is listed: a value in an inline table, anything but a
/// placeholder in a table.
pub open spec fn field_listed(v: Tree, inline: bool) -> bool {
    if inline {
        is_value(v)
    } else {
        v != Tree::Null
    }
}

/// The JSON forms of the listed slots among the first `n`.
pub open spec fn json_list(xs: Seq<Tree>, n: nat, tables: bool) -> Seq<Json>
    decreases xs, n,
{
    if n == 0 || n > xs.len() {
        Seq::empty()
    } else {
        let front = json_list(xs, (n - 1) as nat, tables);
        if slot_listed(xs[n - 1], tables) {
            front.push(json_of(xs[n - 1]))
        } else {
            front
        }
    }
}

/// The JSON fields for the listed fields among the first `n`.
pub open spec fn json_fields(es: Seq<(Seq<char>, Tree)>, n: nat, inline: bool) -> Seq<
    (Seq<char>, Json),
>
    decreases es, n,
{
    if n == 0 || n > es.len() {
        Seq::empty()
    } else {
        let front = json_fields(es, (n - 1) as nat, inline);
        if field_listed(es[n - 1].1, inline) {
            front.push((es[n - 1].0, json_of(es[n - 1].1)))
        } else {
            front
        }
    }
}

/// Relies on `serde_json::Value::Null`.
#[verifier::external_body]
fn json_null() -> (r: serde_json::Value)
    ensures
        json_view(r) == Json::Null,
{
    serde_json::Value::Null
}

/// Relies on `serde_json::Value::Bool`.
#[verifier::external_body]
fn json_bool(b: bool) -> (r: serde_json::Value)
    ensures
        json_view(r) == Json::Bool(b),
{
    serde_json::Value::Bool(b)
}

/// Relies on `From<i64> for serde_json::Number`.
#[verifier::external_body]
fn json_int(n: i64) -> (r: serde_json::Value)
    ensures
        json_view(r) == Json::Int(n as int),
{
    serde_json::Value::Number(n.into())
}

/// Relies on `serde_json::Value::String`.
#[verifier::external_body]
fn json_string(s: String) -> (r: serde_json::Value)
    ensures
        json_view(r) == Json::Str(s@),
{
    serde_json::Value::String(s)
}

/// Relies on `serde_json::Value::Array`, which keeps the order.
#[verifier::external_body]
fn json_array(v: Vec<serde_json::Value>) -> (r: serde_json::Value)
    ensures
        json_view(r) == Json::Array(v@.map_values(|x: serde_json::Value| json_view(x))),
{
    serde_json::Value::Array(v)
}

/// Relies on `FromIterator for serde_json::Map` with the `preserve_order`
/// feature, which keeps fields with distinct keys in order.
#[verifier::external_body]
fn json_object(v: Vec<(String, serde_json::Value)>) -> (r: serde_json::Value)
    requires
        forall|a: int, b: int| 0 <= a < b < v@.len() ==> v@[a].0@ != v@[b].0@,
    ensures
        json_view(r) == Json::Object(
            v@.map_values(|e: (String, serde_json::Value)| (e.0@, json_view(e.1))),
        ),
{
    serde_json::Value::Object(v.into_iter().collect())
}

/// Relies on `serde_json::Number::from_f64`, which is `None` exactly for a
/// float that is not finite, read from toml_edit's `Item::as_float`.
#[verifier::external_body]
fn json_float(i: &Item) -> (r: Option<serde_json::Value>)
    requires
        tree_of(*i) matches Tree::Scalar(Leaf::Float(_, _), _, _),
    ensures
        r is Some <==> tree_of(*i)->Scalar_0->Float_1,
        r is Some ==> json_view(r->Some_0) == Json::Float(tree_of(*i)->Scalar_0->Float_0),
{
    serde_json::Number::from_f64(i.as_float().unwrap()).map(serde_json::Value::Number)
}

/// Relies on `Display for serde_json::Value`: the compact JSON text, with
/// `null`, `true`, `false`, integers in decimal, and no spaces.
#[verifier::external_body]
fn json_to_text(v: &serde_json::Value) -> (r: String)
    ensures
        r@ == json_text(json_view(*v)),
        json_view(*v) is Str ==> r@ == json_quoted(json_view(*v)->Str_0),
        json_view(*v) is Float ==> r@ == json_float_text(json_view(*v)->Float_0),
{
    v.to_string()
}

/// Turns a toml_edit node into a JSON value.
pub fn to_json(item: &Item) -> (r: serde_json::Value)
    ensures
        json_view(r) == json_of(tree_of(*item)),
    decreases tree_of(*item),
{
    let s = shape(item);
    match s {
        Shape::Null => json_null(),
        Shape::Str(v) => json_string(v),
        Shape::Int(n) => json_int(n),
        Shape::Float(text) => match json_float(item) {
            Some(j) => j,
            None => json_string(text),
        },
        Shape::Bool(b) => json_bool(b),
        Shape::Datetime(text) => json_string(text),
        Shape::Array => {
            let xs = slots_of(item);
            json_array(json_slots(item, &xs, false))
        },
        Shape::Tables => {
            let xs = slots_of(item);
            json_array(json_slots(item, &xs, true))
        },
        Shape::Inline => fields_to_json(item),
        Shape::Table => fields_to_json(item),
    }
}

/// The JSON values of the listed slots of an array (or, with `tables`, of an
/// array of tables).
fn json_slots(item: &Item, xs: &Vec<Item>, tables: bool) -> (r: Vec<serde_json::Value>)
    requires
        tree_of(*item) matches Tree::Array(m, _) || tree_of(*item) matches Tree::Tables(m, _),
        ({
            let m = match tree_of(*item) {
                Tree::Array(m, _) => m,
                Tree::Tables(m, _) => m,
                _ => Seq::empty(),
            };
            &&& xs@.len() == m.len()
            &&& forall|j: int| 0 <= j < m.len() ==> tree_of(#[trigger] xs@[j]) == m[j]
        }),
    ensures
        ({
            let m = match tree_of(*item) {
                Tree::Array(m, _) => m,
                Tree::Tables(m, _) => m,
                _ => Seq::empty(),
            };
            r@.map_values(|x: serde_json::Value| json_view(x)) == json_list(m, m.len(), tables)
        }),
    decreases tree_of(*item), 1nat,
{
    let ghost m = match tree_of(*item) {
        Tree::Array(m, _) => m,
        Tree::Tables(m, _) => m,
        _ => Seq::empty(),
    };
    let mut out: Vec<serde_json::Value> = Vec::new();
    let mut j: usize = 0;
    while j < xs.len()
        invariant
            j <= xs.len() == m.len(),
            m == match tree_of(*item) {
                Tree::Array(m, _) => m,
                Tree::Tables(m, _) => m,
                _ => Seq::<Tree>::empty(),
            },
            tree_of(*item) matches Tree::Array(_, _) || tree_of(*item) matches Tree::Tables(_, _),
            forall|k: int| 0 <= k < m.len() ==> tree_of(#[trigger] xs@[k]) == m[k],
            out@.map_values(|x: serde_json::Value| json_view(x)) == json_list(m, j as nat, tables),
        decreases xs.len() - j,
    {
        let x = &xs[j];
        let listed = match shape(x) {
            Shape::Table => tables,
            Shape::Null => false,
            Shape::Tables => false,
            _ => !tables,
        };
        let ghost before = out@;
        if listed {
            assert(decreases_to!(tree_of(*item) => m[j as int]));
            let v = to_json(x);
            out.push(v);
            assert(out@.map_values(|x: serde_json::Value| json_view(x)) == before.map_values(
                |x: serde_json::Value| json_view(x),
            ).push(json_view(v)));
        }
        j = j + 1;
    }
    out
}

/// Turns a table into a JSON object, its fields in order.
pub fn table_to_json(table: &toml_edit::Table) -> (r: serde_json::Value)
    ensures
        json_view(r) == Json::Object(
            json_fields(table_fields(*table), table_fields(*table).len(), false),
        ),
{
    let item = table_item(table);
    fields_to_json(&item)
}

/// Turns a table or inline table node into a JSON object, its fields in order.
fn fields_to_json(table: &Item) -> (r: serde_json::Value)
    requires
        tree_of(*table) is Table || tree_of(*table) is Inline,
    ensures
        json_view(r) == json_of(tree_of(*table)),
    decreases tree_of(*table), 2nat,
{
    let inline = match shape(table) {
        Shape::Inline => true,
        _ => false,
    };
    let es = entries_of(table);
    let ghost m = match tree_of(*table) {
        Tree::Table(m, _, _) => m,
        Tree::Inline(m, _, _) => m,
        _ => Seq::empty(),
    };
    assert(forall|a: int, b: int| 0 <= a < b < m.len() ==> (#[trigger] m[a]).0 != (#[trigger] m[b]).0);
    let mut out: Vec<(String, serde_json::Value)> = Vec::new();
    let mut j: usize = 0;
    while j < es.len()
        invariant
            j <= es.len() == m.len(),
            m == match tree_of(*table) {
                Tree::Table(m, _, _) => m,
                Tree::Inline(m, _, _) => m,
                _ => Seq::<(Seq<char>, Tree)>::empty(),
            },
            inline == tree_of(*table) is Inline,
            tree_of(*table) is Table || tree_of(*table) is Inline,
            forall|k: int|
                0 <= k < m.len() ==> (#[trigger] es@[k]).0@ == m[k].0 && tree_of(es@[k].1)
                    == m[k].1,
            forall|a: int, b: int| 0 <= a < b < m.len() ==> (#[trigger] m[a]).0 != (#[trigger] m[b]).0,
            out@.map_values(|e: (String, serde_json::Value)| (e.0@, json_view(e.1))) == json_fields(
                m,
                j as nat,
                inline,
            ),
            forall|a: int|
                0 <= a < out@.len() ==> m.subrange(0, j as int).map_values(
                    |e: (Seq<char>, Tree)| e.0,
                ).contains(#[trigger] out@[a].0@),
            forall|a: int, b: int| 0 <= a < b < out@.len() ==> out@[a].0@ != out@[b].0@,
        decreases es.len() - j,
    {
        let (k, x) = (&es[j].0, &es[j].1);
        let listed = match shape(x) {
            Shape::Null => false,
            Shape::Table => !inline,
            Shape::Tables => !inline,
            _ => true,
        };
        let ghost before = out@;
        let ghost keys_before = m.subrange(0, j as int).map_values(|e: (Seq<char>, Tree)| e.0);
        let ghost keys_after = m.subrange(0, j as int + 1).map_values(|e: (Seq<char>, Tree)| e.0);
        assert(keys_after == keys_before.push(m[j as int].0));
        assert forall|a: int| 0 <= a < before.len() implies keys_after.contains(
            #[trigger] before[a].0@,
        ) by {
            let w = choose|w: int| 0 <= w < keys_before.len() && keys_before[w] == before[a].0@;
            assert(keys_after[w] == before[a].0@);
        }
        if listed {
            assert(decreases_to!(tree_of(*table) => m[j as int].1));
            let v = to_json(x);
            let key = k.clone();
            proof {
                assert forall|a: int| 0 <= a < before.len() implies before[a].0@ != m[j as int].0 by {
                    let w = choose|w: int|
                        0 <= w < keys_before.len() && keys_before[w] == before[a].0@;
                    assert(m[w].0 == before[a].0@);
                }
            }
            out.push((key, v));
            assert(out@.map_values(|e: (String, serde_json::Value)| (e.0@, json_view(e.1)))
                == before.map_values(|e: (String, serde_json::Value)| (e.0@, json_view(e.1))).push(
                (m[j as int].0, json_view(v)),
            ));
            assert(keys_after.contains(m[j as int].0)) by {
                assert(keys_after[j as int] == m[j as int].0);
            }
            assert forall|a: int| 0 <= a < out@.len() implies keys_after.contains(
                #[trigger] out@[a].0@,
            ) by {
                if a < before.len() {
                    assert(out@[a] == before[a]);
                } else {
                    assert(out@[a].0@ == m[j as int].0);
                }
            }
        }
        j = j + 1;
    }
    json_object(out)
}

/// Turns a toml_edit value into a JSON value.
pub fn value_to_json(v: Value) -> (r: serde_json::Value)
    ensures
        json_view(r) == json_of(value_tree(v)),
{
    let item = item_of_value(v);
    to_json(&item)
}

/// The compact JSON text of a node.
pub fn format_json(item: &Item) -> (r: String)
    ensures
        r@ == json_text(json_of(tree_of(*item))),
{
    let json = to_json(item);
    json_to_text(&json)
}

} // verus!
