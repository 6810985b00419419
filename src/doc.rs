//! The document model of the `toml_edit` crate, as this library relies on
//! it: its types, a mathematical view of their contents, and the few calls
//! through which the library reads and edits a document.
use vstd::prelude::*;
use toml_edit::{Document, Item, Value};
use crate::model::{
    Decoration, Leaf, Tree, child, fields, opened, put_child, same_value, slots, tables_text,
};
use crate::keys::Seg;

verus! {

#[verifier::external_type_specification]
#[verifier::external_body]
pub struct ExItem(toml_edit::Item);

#[verifier::external_type_specification]
#[verifier::external_body]
pub struct ExValue(toml_edit::Value);

#[verifier::external_type_specification]
#[verifier::external_body]
pub struct ExDocument(toml_edit::Document);

#[verifier::external_type_specification]
#[verifier::external_body]
pub struct ExTable(toml_edit::Table);

#[verifier::external_type_specification]
#[verifier::external_body]
pub struct ExDecor(toml_edit::Decor);

/// What a document node holds, with its formatting (see `Tree`): a
/// scalar's decoration is its `Decor`; a container's own formatting covers
/// every field of the toml_edit value other than its elements and keys
/// (decoration, trailing text and comma, preamble, position, implicit and
/// dotted flags); a key is written by its `Key` representation and `Decor`.
pub uninterp spec fn tree_of(i: Item) -> Tree;

/// What a value holds, as it would as the node `Item::Value(v)`.
pub uninterp spec fn value_tree(v: Value) -> Tree;

/// What the root node of a document holds.
pub uninterp spec fn doc_tree(d: Document) -> Tree;

/// The prefix and suffix that a decoration sets (`Decor::prefix`,
/// `Decor::suffix`).
pub uninterp spec fn decor_view(d: toml_edit::Decor) -> Decoration;

/// The formatting of a document outside its root node: its trailing
/// comments and whitespace.
pub uninterp spec fn doc_rest(d: Document) -> Seq<char>;

/// The text that `Display` gives for a node whose model is `t`. The model
/// holds all of a node's content and formatting, so the text depends on it
/// alone.
pub uninterp spec fn tree_text(t: Tree) -> Seq<char>;

/// The outermost layer of a node, with the value of a scalar.
pub enum Shape {
    Null,
    Str(String),
    Int(i64),
    Float(String),
    Bool(bool),
    Datetime(String),
    Array,
    Inline,
    Table,
    Tables,
}

/// Whether `s` describes the outermost layer of `t`.
pub open spec fn shape_fits(s: Shape, t: Tree) -> bool {
    match s {
        Shape::Null => t is Null,
        Shape::Str(v) => t matches Tree::Scalar(Leaf::Str(x), _, _) && x == v@,
        Shape::Int(v) => t matches Tree::Scalar(Leaf::Int(x), _, _) && x == v as int,
        Shape::Float(v) => t matches Tree::Scalar(Leaf::Float(x, _), _, _) && x == v@,
        Shape::Bool(v) => t matches Tree::Scalar(Leaf::Bool(x), _, _) && x == v,
        Shape::Datetime(v) => t matches Tree::Scalar(Leaf::Datetime(x), _, _) && x == v@,
        Shape::Array => t is Array,
        Shape::Inline => t is Inline,
        Shape::Table => t is Table,
        Shape::Tables => t is Tables,
    }
}

/// Relies on the variants of `toml_edit::Item` and `toml_edit::Value`, and on
/// `Formatted::value`; a float and a date-time are read through their `Display`.
#[verifier::external_body]
pub(crate) fn shape(i: &Item) -> (r: Shape)
    ensures
        shape_fits(r, tree_of(*i)),
{
    match i {
        Item::None => Shape::Null,
        Item::Value(Value::String(s)) => Shape::Str(s.value().clone()),
        Item::Value(Value::Integer(n)) => Shape::Int(*n.value()),
        Item::Value(Value::Float(f)) => Shape::Float(f.value().to_string()),
        Item::Value(Value::Boolean(b)) => Shape::Bool(*b.value()),
        Item::Value(Value::Datetime(d)) => Shape::Datetime(d.value().to_string()),
        Item::Value(Value::Array(_)) => Shape::Array,
        Item::Value(Value::InlineTable(_)) => Shape::Inline,
        Item::Table(_) => Shape::Table,
        Item::ArrayOfTables(_) => Shape::Tables,
    }
}

/// Relies on `Display for Item` (and so for `Value`, `Table` and
/// `ArrayOfTables`), which writes nothing for `Item::None`.
#[verifier::external_body]
pub(crate) fn item_text(i: &Item) -> (r: String)
    ensures
        r@ == tree_text(tree_of(*i)),
        tree_of(*i) is Null ==> r@ == Seq::<char>::empty(),
        tree_of(*i) matches Tree::Scalar(_, s, _) ==> r@ == s,
        tree_of(*i) matches Tree::Tables(_, s) ==> r@ == s,
{
    i.to_string()
}

/// The fields of a table or inline table, in order, placeholders included.
/// Relies on `Table::into_iter`, which keeps every field as stored; an
/// inline table's keys come from `InlineTable::into_table` and its fields
/// from `Item::get` with a key, which gives the stored field, or `None` for a
/// placeholder.
#[verifier::external_body]
pub(crate) fn entries_of(i: &Item) -> (r: Vec<(String, Item)>)
    ensures
        r@.len() == fields(tree_of(*i)).len(),
        forall|j: int|
            0 <= j < r@.len() ==> (#[trigger] r@[j]).0@ == fields(tree_of(*i))[j].0 && tree_of(
                r@[j].1,
            ) == fields(tree_of(*i))[j].1,
        forall|j: int, l: int|
            0 <= j < l < r@.len() ==> (#[trigger] fields(tree_of(*i))[j]).0 != (#[trigger] fields(
                tree_of(*i),
            )[l]).0,
{
    match i {
        Item::Table(t) => t.clone().into_iter().map(|(k, v)| (k.as_str().to_owned(), v)).collect(),
        Item::Value(Value::InlineTable(t)) => t.clone().into_table().into_iter().map(
            |(k, _)| (k.as_str().to_owned(), i.get(k.as_str()).cloned().unwrap_or_default()),
        ).collect(),
        _ => Vec::new(),
    }
}

/// The slots of an array or array of tables, in order, as stored (a
/// placeholder is `Item::None`). Relies on `Array::len` and
/// `ArrayOfTables::len`, which count every slot, and on `Item::get` with an
/// index, which gives the stored slot.
#[verifier::external_body]
pub(crate) fn slots_of(i: &Item) -> (r: Vec<Item>)
    ensures
        r@.len() == slots(tree_of(*i)).len(),
        forall|j: int| 0 <= j < r@.len() ==> tree_of(#[trigger] r@[j]) == slots(tree_of(*i))[j],
{
    let n = match i {
        Item::Value(Value::Array(a)) => a.len(),
        Item::ArrayOfTables(a) => a.len(),
        _ => 0,
    };
    (0..n).map(|j| i.get(j).cloned().unwrap_or_default()).collect()
}

/// Relies on `Item::get_mut` with a key (which makes the slot for a missing
/// field of a table or inline table; the node is never `Item::None` here) and on
/// `std::mem::take`, which leaves `Item::None` in the slot.
#[verifier::external_body]
pub(crate) fn take_named(node: &mut Item, k: &str) -> (r: Option<Item>)
    requires
        !(tree_of(*old(node)) is Null),
    ensures
        match opened(tree_of(*old(node)), Seg::Name(k@)) {
            None => r is None && *final(node) == *old(node),
            Some(pc) => r is Some && tree_of(r.unwrap()) == pc.1 && tree_of(*final(node))
                == put_child(pc.0, Seg::Name(k@), Tree::Null, Seq::empty()),
        },
{
    node.get_mut(k).map(std::mem::take)
}

/// Relies on `Item::get_mut` with an index (a slot of an array or array of
/// tables) and on `std::mem::take`, which leaves `Item::None` in the slot.
#[verifier::external_body]
pub(crate) fn take_at(node: &mut Item, n: usize) -> (r: Option<Item>)
    ensures
        match opened(tree_of(*old(node)), Seg::Index(n as nat)) {
            None => r is None && *final(node) == *old(node),
            Some(pc) => r is Some && tree_of(r.unwrap()) == pc.1 && tree_of(*final(node))
                == put_child(pc.0, Seg::Index(n as nat), Tree::Null, tables_text(
                tree_of(*final(node)),
            )),
        },
{
    node.get_mut(n).map(std::mem::take)
}

/// Relies on `IndexMut<&str> for Item`, which panics only where the node is
/// no table or inline table.
#[verifier::external_body]
pub(crate) fn put_named(node: &mut Item, k: &str, c: Item)
    requires
        child(tree_of(*old(node)), Seg::Name(k@)) is Some,
    ensures
        tree_of(*final(node)) == put_child(tree_of(*old(node)), Seg::Name(k@), tree_of(c), Seq::empty()),
{
    node[k] = c;
}

/// Relies on `IndexMut<usize> for Item`, which panics only where the slot
/// does not exist.
#[verifier::external_body]
pub(crate) fn put_at(node: &mut Item, n: usize, c: Item)
    requires
        child(tree_of(*old(node)), Seg::Index(n as nat)) is Some,
    ensures
        tree_of(*final(node)) == put_child(
            tree_of(*old(node)),
            Seg::Index(n as nat),
            tree_of(c),
            tables_text(tree_of(*final(node))),
        ),
{
    node[n] = c;
}

/// Relies on `Clone for Item`.
#[verifier::external_body]
pub(crate) fn copy_item(i: &Item) -> (r: Item)
    ensures
        tree_of(r) == tree_of(*i),
{
    i.clone()
}

/// Relies on `Value::decor`: the decoration (surrounding whitespace and
/// comments) of a scalar node.
#[verifier::external_body]
pub(crate) fn decor_of(i: &Item) -> (r: toml_edit::Decor)
    requires
        tree_of(*i) is Scalar,
    ensures
        decor_view(r) == tree_of(*i)->Scalar_2,
{
    i.as_value().unwrap().decor().clone()
}

/// Relies on `Default for Decor`: no decoration of its own.
#[verifier::external_body]
pub(crate) fn no_decor() -> (r: toml_edit::Decor)
    ensures
        decor_view(r) == (None::<Seq<char>>, None::<Seq<char>>),
{
    toml_edit::Decor::default()
}

/// The node `v` with the decoration `d`. Relies on `Value::decor_mut`,
/// which changes the value's own decoration and nothing else.
#[verifier::external_body]
pub(crate) fn decorated(v: &Value, d: toml_edit::Decor) -> (r: Item)
    ensures
        same_value(tree_of(r), value_tree(*v)),
        value_tree(*v) is Scalar ==> tree_of(r)->Scalar_2 == decor_view(d),
{
    let mut fresh = v.clone();
    *fresh.decor_mut() = d;
    Item::Value(fresh)
}

/// Relies on `Array::new`: an array with no slots.
#[verifier::external_body]
pub(crate) fn empty_array() -> (r: Item)
    ensures
        tree_of(r) is Array,
        tree_of(r)->Array_0 == Seq::<Tree>::empty(),
{
    Item::Value(Value::Array(toml_edit::Array::new()))
}

/// Relies on `Array::push`, which adds a slot at the end and sets only the
/// new value's decoration (`Decor::new(" ", "")` after other slots,
/// `Decor::new("", "")` in an empty array).
#[verifier::external_body]
pub(crate) fn push_value(node: &mut Item, v: &Value)
    requires
        tree_of(*old(node)) is Array,
    ensures
        tree_of(*final(node)) is Array,
        tree_of(*final(node))->Array_0.len() == tree_of(*old(node))->Array_0.len() + 1,
        tree_of(*final(node))->Array_0.drop_last() == tree_of(*old(node))->Array_0,
        tree_of(*final(node))->Array_1 == tree_of(*old(node))->Array_1,
        same_value(tree_of(*final(node))->Array_0.last(), value_tree(*v)),
        value_tree(*v) is Scalar ==> tree_of(*final(node))->Array_0.last()->Scalar_2 == if tree_of(
            *old(node),
        )->Array_0.len() > 0 {
            (Some(" "@), Some(""@))
        } else {
            (Some(""@), Some(""@))
        },
{
    node.as_array_mut().unwrap().push(v.clone());
}

/// Relies on `Document::as_item`: the document's root node.
#[verifier::external_body]
pub(crate) fn root_of(d: &Document) -> (r: &Item)
    ensures
        tree_of(*r) == doc_tree(*d),
{
    d.as_item()
}

/// Relies on `Document::as_item_mut` and `std::mem::take`, which leaves
/// `Item::None` as the root and the trailing text as it was.
#[verifier::external_body]
pub(crate) fn take_root(d: &mut Document) -> (r: Item)
    ensures
        tree_of(r) == doc_tree(*old(d)),
        doc_tree(*final(d)) == Tree::Null,
        doc_rest(*final(d)) == doc_rest(*old(d)),
{
    std::mem::take(d.as_item_mut())
}

/// Relies on `Document::as_item_mut`: the root becomes `i`.
#[verifier::external_body]
pub(crate) fn put_root(d: &mut Document, i: Item)
    ensures
        doc_tree(*final(d)) == tree_of(i),
        doc_rest(*final(d)) == doc_rest(*old(d)),
{
    *d.as_item_mut() = i;
}

/// The node that holds the value `v`.
#[verifier::external_body]
pub(crate) fn item_of_value(v: Value) -> (r: Item)
    ensures
        tree_of(r) == value_tree(v),
{
    Item::Value(v)
}

/// Relies on `Item::None`: the empty node.
#[verifier::external_body]
pub(crate) fn null_item() -> (r: Item)
    ensures
        tree_of(r) == Tree::Null,
{
    Item::None
}

/// The fields of a standard table, in order, placeholders included.
pub uninterp spec fn table_fields(t: toml_edit::Table) -> Seq<(Seq<char>, Tree)>;

/// Relies on `Item::Table` and `Clone for Table`: the node that holds a copy
/// of the table.
#[verifier::external_body]
pub(crate) fn table_item(t: &toml_edit::Table) -> (r: Item)
    ensures
        tree_of(r) is Table,
        tree_of(r)->Table_0 == table_fields(*t),
{
    Item::Table(t.clone())
}

} // verus!
