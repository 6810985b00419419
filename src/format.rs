//! The output formats and the dispatch between them, with the raw
//! primitive-first form and the document's own (TOML) form.
use vstd::prelude::*;
use toml_edit::{Item, Value};
use crate::bash::{bash_item, flag_text, format_bash};
use crate::doc::{
    Shape, item_of_value, item_text, shape, slots_of, tree_of, tree_text, value_tree,
};
use crate::error::TomatoError;
use crate::json::{format_json, json_of, json_text};
use crate::model::{Leaf, Tree, is_value, slots};
use crate::text::{int_text, join, push_text, signed_decimal, string_of, trim_text, trimmed};

verus! {

/// How to format the output of a node.
#[derive(Clone, Copy, Debug, PartialEq, Eq, Structural)]
pub enum Format {
    /// Strings are not quoted; suitable for primitive data types; the default.
    Raw,
    /// Suitable for `eval` in bash; might not be suitable for complex structures.
    Bash,
    /// Valid JSON.
    Json,
    /// Valid TOML.
    Toml,
}

/// The result of `str::to_lowercase` on `s`.
pub uninterp spec fn lower_of(s: Seq<char>) -> Seq<char>;

/// Relies on `str::to_lowercase`.
#[verifier::external_body]
fn lowercase(s: &str) -> (r: String)
    ensures
        r@ == lower_of(s@),
{
    s.to_lowercase()
}

/// The format that a lower-case name stands for.
pub open spec fn format_named(name: Seq<char>) -> Option<Format> {
    if name == "raw"@ {
        Some(Format::Raw)
    } else if name == "bash"@ {
        Some(Format::Bash)
    } else if name == "json"@ {
        Some(Format::Json)
    } else if name == "toml"@ {
        Some(Format::Toml)
    } else {
        None
    }
}

impl Format {
    /// The format named `name` exactly: `raw`, `bash`, `json` or `toml`.
    pub fn from_lower(name: &str) -> (r: Result<Format, TomatoError>)
        ensures
            match format_named(name@) {
                Some(f) => r == Ok::<Format, TomatoError>(f),
                None => r == Err::<Format, TomatoError>(TomatoError::UnknownFormat),
            },
    {
        let owned = name.to_string();
        if owned == "raw".to_string() {
            Ok(Format::Raw)
        } else if owned == "bash".to_string() {
            Ok(Format::Bash)
        } else if owned == "json".to_string() {
            Ok(Format::Json)
        } else if owned == "toml".to_string() {
            Ok(Format::Toml)
        } else {
            Err(TomatoError::UnknownFormat)
        }
    }

    /// The format named `input`, in any case.
    pub fn from_str(input: &str) -> (r: Result<Format, TomatoError>)
        ensures
            match format_named(lower_of(input@)) {
                Some(f) => r == Ok::<Format, TomatoError>(f),
                None => r == Err::<Format, TomatoError>(TomatoError::UnknownFormat),
            },
    {
        let lower = lowercase(input);
        Format::from_lower(lower.as_str())
    }
}

/// The raw form of a node: nothing for `Null`, JSON for a table or an array
/// of tables, `raw_value` for a value.
pub open spec fn raw_item(t: Tree) -> Seq<char> {
    match t {
        Tree::Null => Seq::empty(),
        Tree::Table(_, _, _) => json_text(json_of(t)),
        Tree::Tables(_, _) => json_text(json_of(t)),
        _ => raw_value(t),
    }
}

/// The raw form of a value: a string as it is, unquoted; a number as its
/// numeral; a boolean as `1` or `0`; an array as the raw forms of its
/// elements, one per line; an inline table as JSON.
pub open spec fn raw_value(t: Tree) -> Seq<char>
    decreases t, 0nat,
{
    match t {
        Tree::Scalar(leaf, _, _) => match leaf {
            Leaf::Str(s) => s,
            Leaf::Int(n) => signed_decimal(n),
            Leaf::Float(s, _) => s,
            Leaf::Bool(b) => flag_text(b),
            Leaf::Datetime(s) => s,
        },
        Tree::Array(xs, _) => join(raw_words(xs, xs.len()), "\n"@),
        Tree::Inline(_, _, _) => json_text(json_of(t)),
        _ => Seq::empty(),
    }
}

/// The raw forms of the values among the first `n` slots.
pub open spec fn raw_words(xs: Seq<Tree>, n: nat) -> Seq<Seq<char>>
    decreases xs, n,
{
    if n == 0 || n > xs.len() {
        Seq::empty()
    } else {
        let front = raw_words(xs, (n - 1) as nat);
        if is_value(xs[n - 1]) {
            front.push(raw_value(xs[n - 1]))
        } else {
            front
        }
    }
}

/// The text of a node in the given format.
pub open spec fn rendered(t: Tree, output: Format) -> Seq<char> {
    match output {
        Format::Raw => raw_item(t),
        Format::Bash => bash_item(t),
        Format::Json => json_text(json_of(t)),
        Format::Toml => trimmed(tree_text(t)),
    }
}

/// Formats the node for the desired kind of output.
pub fn format_item(item: &Item, output: Format) -> (r: String)
    ensures
        r@ == rendered(tree_of(*item), output),
{
    match output {
        Format::Raw => format_raw(item),
        Format::Bash => format_bash(item),
        Format::Json => format_json(item),
        Format::Toml => format_toml(item),
    }
}

/// Formats the node as TOML: its text in the document, trimmed.
pub fn format_toml(item: &Item) -> (r: String)
    ensures
        r@ == trimmed(tree_text(tree_of(*item))),
        tree_of(*item) matches Tree::Scalar(_, text, _) ==> r@ == trimmed(text),
        tree_of(*item) is Null ==> r@ == Seq::<char>::empty(),
{
    let text = item_text(item);
    trim_text(text.as_str())
}

/// Formats the node as a primitive ready to use in bash; tables and arrays
/// of tables fall back to JSON.
pub fn format_raw(item: &Item) -> (r: String)
    ensures
        r@ == raw_item(tree_of(*item)),
{
    match shape(item) {
        Shape::Null => String::new(),
        Shape::Table => format_json(item),
        Shape::Tables => format_json(item),
        _ => raw_text(item),
    }
}

/// Formats the value in a way useful immediately in bash scripts; an inline
/// table falls back to JSON.
pub fn format_raw_value(v: Value) -> (r: String)
    ensures
        r@ == raw_value(value_tree(v)),
{
    let item = item_of_value(v);
    raw_text(&item)
}

/// The raw form of a value node.
fn raw_text(v: &Item) -> (r: String)
    ensures
        r@ == raw_value(tree_of(*v)),
    decreases tree_of(*v), 1nat,
{
    match shape(v) {
        Shape::Str(s) => s,
        Shape::Int(n) => int_text(n),
        Shape::Float(s) => s,
        Shape::Bool(b) => {
            let mut cs: Vec<char> = Vec::new();
            cs.push(
                if b {
                    '1'
                } else {
                    '0'
                },
            );
            string_of(&cs)
        },
        Shape::Datetime(s) => s,
        Shape::Array => {
            let mut out: Vec<char> = Vec::new();
            raw_lines(v, &mut out);
            string_of(&out)
        },
        Shape::Inline => format_json(v),
        _ => String::new(),
    }
}

/// Adds the raw forms of an array's elements, one per line.
fn raw_lines(v: &Item, out: &mut Vec<char>)
    requires
        tree_of(*v) is Array,
    ensures
        final(out)@ == old(out)@ + join(
            raw_words(slots(tree_of(*v)), slots(tree_of(*v)).len()),
            "\n"@,
        ),
    decreases tree_of(*v), 0nat,
{
    let xs = slots_of(v);
    let ghost m = slots(tree_of(*v));
    let ghost start = out@;
    let mut any = false;
    let mut j: usize = 0;
    while j < xs.len()
        invariant
            j <= xs.len() == m.len(),
            m == slots(tree_of(*v)),
            tree_of(*v) is Array,
            forall|k: int| 0 <= k < xs@.len() ==> tree_of(#[trigger] xs@[k]) == m[k],
            any == (raw_words(m, j as nat).len() > 0),
            out@ == start + join(raw_words(m, j as nat), "\n"@),
        decreases xs.len() - j,
    {
        let x = &xs[j];
        let ghost words = raw_words(m, j as nat);
        let listed = match shape(x) {
            Shape::Null => false,
            Shape::Table => false,
            Shape::Tables => false,
            _ => true,
        };
        if listed {
            assert(decreases_to!(tree_of(*v) => m[j as int]));
            let word = raw_text(x);
            if any {
                push_text(out, "\n");
            }
            push_text(out, word.as_str());
            assert(words.push(word@).drop_last() == words);
            any = true;
        }
        j = j + 1;
    }
}

} // verus!
