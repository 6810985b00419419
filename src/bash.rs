//! Rendering a document node as text that a shell can evaluate.
use vstd::prelude::*;
use toml_edit::Item;
use crate::doc::{Shape, entries_of, item_text, shape, slots_of, tree_of};
use crate::json::field_listed;
use crate::model::{Leaf, Tree, fields, is_value, slots};
use crate::text::{int_text, join, push_text, signed_decimal, string_of, trim_text, trimmed};

verus! {

/// The first line of an associative-array declaration.
pub open spec fn declare_line() -> Seq<char> {
    "declare -A bashval"@
}

/// A boolean as a shell reads it: `1` or `0`.
pub open spec fn flag_text(b: bool) -> Seq<char> {
    if b {
        seq!['1']
    } else {
        seq!['0']
    }
}

/// The shell form of a node: nothing for `Null`; a table as an associative
/// array, one `bashval[key]=value` line per field; an array of tables as
/// the document model's own text; any value as `bash_value` gives it.
pub open spec fn bash_item(t: Tree) -> Seq<char>
    decreases t, 1nat,
{
    match t {
        Tree::Null => Seq::empty(),
        Tree::Table(es, _, _) => declare_line() + bash_lines(es, es.len(), false),
        Tree::Tables(_, text) => text,
        _ => bash_value(t),
    }
}

/// The shell form of a value: a string as its trimmed document text, an
/// integer or float as its numeral, a boolean as `1` or `0`, an array as
/// `( a b c )` of its trimmed elements, an inline table as an associative
/// array.
pub open spec fn bash_value(t: Tree) -> Seq<char>
    decreases t, 0nat,
{
    match t {
        Tree::Scalar(leaf, text, _) => match leaf {
            Leaf::Str(_) => trimmed(text),
            Leaf::Int(n) => signed_decimal(n),
            Leaf::Float(s, _) => s,
            Leaf::Bool(b) => flag_text(b),
            Leaf::Datetime(s) => s,
        },
        Tree::Array(xs, _) => "( "@ + join(bash_words(xs, xs.len()), " "@) + " )"@,
        Tree::Inline(es, _, _) => declare_line() + bash_lines(es, es.len(), true),
        _ => Seq::empty(),
    }
}

/// The trimmed shell forms of the values among the first `n` slots.
pub open spec fn bash_words(xs: Seq<Tree>, n: nat) -> Seq<Seq<char>>
    decreases xs, n,
{
    if n == 0 || n > xs.len() {
        Seq::empty()
    } else {
        let front = bash_words(xs, (n - 1) as nat);
        if is_value(xs[n - 1]) {
            front.push(trimmed(bash_value(xs[n - 1])))
        } else {
            front
        }
    }
}

/// The `bashval[key]=value` lines, each after a line break, for the listed
/// fields among the first `n`.
pub open spec fn bash_lines(es: Seq<(Seq<char>, Tree)>, n: nat, inline: bool) -> Seq<char>
    decreases es, n,
{
    if n == 0 || n > es.len() {
        Seq::empty()
    } else {
        let front = bash_lines(es, (n - 1) as nat, inline);
        if field_listed(es[n - 1].1, inline) {
            front + "\nbashval["@ + es[n - 1].0 + "]="@ + if inline {
                bash_value(es[n - 1].1)
            } else {
                bash_item(es[n - 1].1)
            }
        } else {
            front
        }
    }
}

/// Formats a node and all its children as text that bash can evaluate.
pub fn format_bash(item: &Item) -> (r: String)
    ensures
        r@ == bash_item(tree_of(*item)),
    decreases tree_of(*item), 2nat,
{
    match shape(item) {
        Shape::Null => String::new(),
        Shape::Table => {
            let mut out: Vec<char> = Vec::new();
            push_text(&mut out, "declare -A bashval");
            bash_fields(item, false, &mut out);
            string_of(&out)
        },
        Shape::Tables => item_text(item),
        _ => format_bash_value(item),
    }
}

/// Formats a value as a bash data type.
fn format_bash_value(v: &Item) -> (r: String)
    ensures
        r@ == bash_value(tree_of(*v)),
    decreases tree_of(*v), 1nat,
{
    match shape(v) {
        Shape::Str(_) => {
            let text = item_text(v);
            trim_text(text.as_str())
        },
        Shape::Int(n) => int_text(n),
        Shape::Float(s) => s,
        Shape::Bool(b) => {
            let mut cs: Vec<char> = Vec::new();
            cs.push(
                if b {
                    '1'
                } else {
                    '0'
                },
            );
            string_of(&cs)
        },
        Shape::Datetime(s) => s,
        Shape::Array => {
            let mut out: Vec<char> = Vec::new();
            push_text(&mut out, "( ");
            bash_slots(v, &mut out);
            push_text(&mut out, " )");
            string_of(&out)
        },
        Shape::Inline => {
            let mut out: Vec<char> = Vec::new();
            push_text(&mut out, "declare -A bashval");
            bash_fields(v, true, &mut out);
            string_of(&out)
        },
        _ => String::new(),
    }
}

/// Adds the elements of an array, trimmed and joined by spaces.
fn bash_slots(v: &Item, out: &mut Vec<char>)
    requires
        tree_of(*v) is Array,
    ensures
        final(out)@ == old(out)@ + join(
            bash_words(slots(tree_of(*v)), slots(tree_of(*v)).len()),
            " "@,
        ),
    decreases tree_of(*v), 0nat,
{
    let xs = slots_of(v);
    let ghost m = slots(tree_of(*v));
    let ghost start = out@;
    let mut any = false;
    let mut j: usize = 0;
    while j < xs.len()
        invariant
            j <= xs.len() == m.len(),
            m == slots(tree_of(*v)),
            tree_of(*v) is Array,
            forall|k: int| 0 <= k < xs@.len() ==> tree_of(#[trigger] xs@[k]) == m[k],
            any == (bash_words(m, j as nat).len() > 0),
            out@ == start + join(bash_words(m, j as nat), " "@),
        decreases xs.len() - j,
    {
        let x = &xs[j];
        let ghost words = bash_words(m, j as nat);
        let listed = match shape(x) {
            Shape::Null => false,
            Shape::Table => false,
            Shape::Tables => false,
            _ => true,
        };
        if listed {
            assert(decreases_to!(tree_of(*v) => m[j as int]));
            let text = format_bash_value(x);
            let word = trim_text(text.as_str());
            if any {
                push_text(out, " ");
            }
            push_text(out, word.as_str());
            assert(words.push(word@).drop_last() == words);
            any = true;
        }
        j = j + 1;
    }
}

/// Adds a `bashval[key]=value` line, after a line break, for each listed
/// field of a table (or, with `inline`, of an inline table).
fn bash_fields(t: &Item, inline: bool, out: &mut Vec<char>)
    requires
        if inline {
            tree_of(*t) is Inline
        } else {
            tree_of(*t) is Table
        },
    ensures
        final(out)@ == old(out)@ + bash_lines(fields(tree_of(*t)), fields(tree_of(*t)).len(), inline),
    decreases tree_of(*t), 0nat,
{
    let es = entries_of(t);
    let ghost m = fields(tree_of(*t));
    let ghost start = out@;
    let mut j: usize = 0;
    while j < es.len()
        invariant
            j <= es.len() == m.len(),
            m == fields(tree_of(*t)),
            if inline {
                tree_of(*t) is Inline
            } else {
                tree_of(*t) is Table
            },
            forall|k: int|
                0 <= k < es@.len() ==> (#[trigger] es@[k]).0@ == m[k].0 && tree_of(es@[k].1)
                    == m[k].1,
            out@ == start + bash_lines(m, j as nat, inline),
        decreases es.len() - j,
    {
        let (k, x) = (&es[j].0, &es[j].1);
        let listed = match shape(x) {
            Shape::Null => false,
            Shape::Table => !inline,
            Shape::Tables => !inline,
            _ => true,
        };
        if listed {
            assert(decreases_to!(tree_of(*t) => m[j as int].1));
            let text = if inline {
                format_bash_value(x)
            } else {
                format_bash(x)
            };
            let ghost before = out@;
            push_text(out, "\nbashval[");
            push_text(out, k.as_str());
            push_text(out, "]=");
            push_text(out, text.as_str());
            assert(out@ == before + "\nbashval["@ + m[j as int].0 + "]="@ + text@);
        }
        j = j + 1;
    }
}

} // verus!
