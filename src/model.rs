//! The mathematical picture of a TOML document node, and the meaning of
//! walking a key path through it.
use vstd::prelude::*;
use crate::keys::Seg;

verus! {

/// The value of a scalar node.
pub enum Leaf {
    Str(Seq<char>),
    Int(int),
    /// A float, by the text that its `Display` gives (which names the float
    /// exactly) and whether it is finite.
    Float(Seq<char>, bool),
    Bool(bool),
    /// A date-time, by the text that its `Display` gives.
    Datetime(Seq<char>),
}

/// The decoration of a node: the text set before and after it (whitespace
/// and comments), where it is set.
pub type Decoration = (Option<Seq<char>>, Option<Seq<char>>);

/// How a field's key is written: its source representation, where it has
/// one, and its decoration.
pub type KeyLook = (Option<Seq<char>>, Decoration);

/// The formatting that a container carries of its own, apart from its
/// elements and its keys, written out: its decoration and, for an array, its
/// trailing whitespace and comma; for an inline table, its preamble and how
/// it is written; for a table, its position and how its header is written.
pub type Look = Seq<char>;

/// How a new field's key is written: `Key::new` sets no representation and
/// no decoration.
pub open spec fn fresh_key() -> KeyLook {
    (None, (None, None))
}

/// A node of a document, with its formatting. Containers list their slots as
/// the document model stores them: a removed element or field stays as a
/// `Null` placeholder.
pub enum Tree {
    Null,
    /// A scalar: its value, the node's text in the document (source
    /// representation with its decoration), and its decoration.
    Scalar(Leaf, Seq<char>, Decoration),
    Array(Seq<Tree>, Look),
    /// An inline table `{ k = v, .. }`: its fields in order, its own
    /// formatting, and how each key is written.
    Inline(Seq<(Seq<char>, Tree)>, Look, Map<Seq<char>, KeyLook>),
    /// A standard table: its fields in order, its own formatting, and how
    /// each key is written.
    Table(Seq<(Seq<char>, Tree)>, Look, Map<Seq<char>, KeyLook>),
    /// An array of tables: its slots, and its text as the document model
    /// renders it.
    Tables(Seq<Tree>, Seq<char>),
}

/// Whether a node is a value (a scalar, an array or an inline table), the
/// kind of node that may sit in an array or in an inline table.
pub open spec fn is_value(t: Tree) -> bool {
    t is Scalar || t is Array || t is Inline
}

/// The fields of a table or inline table; none for another node.
pub open spec fn fields(t: Tree) -> Seq<(Seq<char>, Tree)> {
    match t {
        Tree::Table(es, _, _) => es,
        Tree::Inline(es, _, _) => es,
        _ => Seq::empty(),
    }
}

/// The slots of an array or array of tables; none for another node.
pub open spec fn slots(t: Tree) -> Seq<Tree> {
    match t {
        Tree::Array(xs, _) => xs,
        Tree::Tables(xs, _) => xs,
        _ => Seq::empty(),
    }
}

/// The text of an array of tables, or nothing for another node.
pub open spec fn tables_text(t: Tree) -> Seq<char> {
    match t {
        Tree::Tables(_, s) => s,
        _ => Seq::empty(),
    }
}

/// Two nodes agree as values: scalars by their value alone, arrays and
/// inline tables by their contents and keys (a replacing node takes over
/// the decoration of the one it replaces), other nodes entirely.
pub open spec fn same_value(a: Tree, b: Tree) -> bool {
    match (a, b) {
        (Tree::Scalar(x, _, _), Tree::Scalar(y, _, _)) => x == y,
        (Tree::Array(xs, _), Tree::Array(ys, _)) => xs == ys,
        (Tree::Inline(es, _, ks), Tree::Inline(fs, _, ls)) => es == fs && ks == ls,
        _ => a == b,
    }
}

/// Position of the first field named `k` at or after `i`, or -1.
pub open spec fn find_key(es: Seq<(Seq<char>, Tree)>, k: Seq<char>, i: int) -> int
    decreases es.len() - i,
{
    if i < 0 || i >= es.len() {
        -1
    } else if es[i].0 == k {
        i
    } else {
        find_key(es, k, i + 1)
    }
}

/// The child that one segment addresses, without changing anything: a
/// name addresses a field of a table or inline table, an index a slot of
/// an array or array of tables.
pub open spec fn child(t: Tree, s: Seg) -> Option<Tree> {
    match s {
        Seg::Name(k) => match t {
            Tree::Table(es, _, _) => if find_key(es, k, 0) >= 0 {
                Some(es[find_key(es, k, 0)].1)
            } else {
                None
            },
            Tree::Inline(es, _, _) => if find_key(es, k, 0) >= 0 {
                Some(es[find_key(es, k, 0)].1)
            } else {
                None
            },
            _ => None,
        },
        Seg::Index(n) => match t {
            Tree::Array(xs, _) => if n < xs.len() {
                Some(xs[n as int])
            } else {
                None
            },
            Tree::Tables(xs, _) => if n < xs.len() {
                Some(xs[n as int])
            } else {
                None
            },
            _ => None,
        },
    }
}

/// What a read of `path` finds: `Null` where the path does not resolve.
pub open spec fn lookup(t: Tree, path: Seq<Seg>) -> Tree
    decreases path.len(),
{
    if path.len() == 0 {
        t
    } else {
        match child(t, path[0]) {
            Some(c) => lookup(c, path.drop_first()),
            None => Tree::Null,
        }
    }
}

/// Opening one segment for writing: the parent as it is once the slot
/// exists, and what the slot holds. A name on a table or inline table
/// without that field adds the field as a placeholder; a name on anything
/// else (`Null` included: no container is made on the way) opens nothing.
/// An index opens only an existing slot of an array or array of tables.
pub open spec fn opened(t: Tree, s: Seg) -> Option<(Tree, Tree)> {
    match s {
        Seg::Name(k) => match t {
            Tree::Table(es, look, keys) => if find_key(es, k, 0) >= 0 {
                Some((t, es[find_key(es, k, 0)].1))
            } else {
                Some(
                    (
                        Tree::Table(es.push((k, Tree::Null)), look, keys.insert(k, fresh_key())),
                        Tree::Null,
                    ),
                )
            },
            Tree::Inline(es, look, keys) => if find_key(es, k, 0) >= 0 {
                Some((t, es[find_key(es, k, 0)].1))
            } else {
                Some(
                    (
                        Tree::Inline(es.push((k, Tree::Null)), look, keys.insert(k, fresh_key())),
                        Tree::Null,
                    ),
                )
            },
            _ => None,
        },
        Seg::Index(n) => match child(t, s) {
            Some(c) => Some((t, c)),
            None => None,
        },
    }
}

/// `p` with the slot that `s` addresses holding `c`; an array of tables
/// takes the text `txt`.
pub open spec fn put_child(p: Tree, s: Seg, c: Tree, txt: Seq<char>) -> Tree {
    match s {
        Seg::Name(k) => match p {
            Tree::Table(es, look, keys) => if find_key(es, k, 0) >= 0 {
                Tree::Table(es.update(find_key(es, k, 0), (k, c)), look, keys)
            } else {
                p
            },
            Tree::Inline(es, look, keys) => if find_key(es, k, 0) >= 0 {
                Tree::Inline(es.update(find_key(es, k, 0), (k, c)), look, keys)
            } else {
                p
            },
            _ => p,
        },
        Seg::Index(n) => match p {
            Tree::Array(xs, look) => if n < xs.len() {
                Tree::Array(xs.update(n as int, c), look)
            } else {
                p
            },
            Tree::Tables(xs, _) => if n < xs.len() {
                Tree::Tables(xs.update(n as int, c), txt)
            } else {
                p
            },
            _ => p,
        },
    }
}

/// Whether every segment of `path` can be opened for writing: each segment
/// but the last addresses an existing node, and the last addresses an
/// existing slot or names a field of an existing table or inline table.
pub open spec fn writable(t: Tree, path: Seq<Seg>) -> bool
    decreases path.len(),
{
    if path.len() == 0 {
        true
    } else {
        match opened(t, path[0]) {
            Some(pc) => writable(pc.1, path.drop_first()),
            None => false,
        }
    }
}

/// What the slot at `path` holds once the path is opened (`Null` for a slot
/// that opening creates).
pub open spec fn reached(t: Tree, path: Seq<Seg>) -> Tree
    decreases path.len(),
{
    if path.len() == 0 {
        t
    } else {
        match opened(t, path[0]) {
            Some(pc) => reached(pc.1, path.drop_first()),
            None => Tree::Null,
        }
    }
}

/// `t` with `path` opened and the node at its end, and each array of tables
/// on the way, as they stand in `fin`. An edit at `path` whose result is
/// `fin` changed nothing else exactly when `fin == rebuilt(t, path, fin)`;
/// the texts of arrays of tables on the path are the document model's
/// rendering of their new contents.
pub open spec fn rebuilt(t: Tree, path: Seq<Seg>, fin: Tree) -> Tree
    decreases path.len(),
{
    if path.len() == 0 {
        fin
    } else {
        match opened(t, path[0]) {
            Some(pc) => match child(fin, path[0]) {
                Some(fc) => put_child(
                    pc.0,
                    path[0],
                    rebuilt(pc.1, path.drop_first(), fc),
                    tables_text(fin),
                ),
                None => t,
            },
            None => t,
        }
    }
}

/// Whether each segment of `path` addresses an existing slot.
pub open spec fn resolves(t: Tree, path: Seq<Seg>) -> bool
    decreases path.len(),
{
    if path.len() == 0 {
        true
    } else {
        match child(t, path[0]) {
            Some(c) => resolves(c, path.drop_first()),
            None => false,
        }
    }
}

/// Whether each segment of `path` addresses an existing node that is not
/// `Null`.
pub open spec fn present(t: Tree, path: Seq<Seg>) -> bool
    decreases path.len(),
{
    if path.len() == 0 {
        true
    } else {
        match child(t, path[0]) {
            Some(c) => c != Tree::Null && present(c, path.drop_first()),
            None => false,
        }
    }
}

/// A child that a segment addresses is what opening that segment reaches,
/// and opening it changes nothing.
pub proof fn lemma_child_opened(t: Tree, s: Seg)
    requires
        child(t, s) is Some,
    ensures
        opened(t, s) == Some((t, child(t, s).unwrap())),
{
}

pub proof fn lemma_find_key_range(es: Seq<(Seq<char>, Tree)>, k: Seq<char>, i: int)
    requires
        0 <= i,
    ensures
        find_key(es, k, i) == -1 || (i <= find_key(es, k, i) < es.len() && es[find_key(
            es,
            k,
            i,
        )].0 == k),
    decreases es.len() - i,
{
    if i < es.len() && es[i].0 != k {
        lemma_find_key_range(es, k, i + 1);
    }
}

/// A key that is not among the fields is found, after it is added, at the end.
pub proof fn lemma_find_key_push(es: Seq<(Seq<char>, Tree)>, k: Seq<char>, v: Tree, i: int)
    requires
        0 <= i <= es.len(),
        find_key(es, k, i) == -1,
    ensures
        find_key(es.push((k, v)), k, i) == es.len(),
    decreases es.len() - i,
{
    if i < es.len() {
        lemma_find_key_push(es, k, v, i + 1);
    }
}

/// Replacing the value of a field keeps every key where it was.
pub proof fn lemma_find_key_update(
    es: Seq<(Seq<char>, Tree)>,
    k: Seq<char>,
    j: int,
    v: Tree,
    i: int,
)
    requires
        0 <= i,
        0 <= j < es.len(),
    ensures
        find_key(es.update(j, (es[j].0, v)), k, i) == find_key(es, k, i),
    decreases es.len() - i,
{
    if i < es.len() && es[i].0 != k {
        lemma_find_key_update(es, k, j, v, i + 1);
    }
}

/// After opening, the slot holds what opening reported, and putting into it
/// a new child is what the slot then holds; putting twice is putting once.
pub proof fn lemma_open_put(t: Tree, s: Seg, c: Tree, d: Tree, x: Seq<char>, y: Seq<char>)
    requires
        opened(t, s) is Some,
    ensures
        ({
            let p = opened(t, s).unwrap().0;
            &&& child(p, s) == Some(opened(t, s).unwrap().1)
            &&& child(put_child(p, s, c, x), s) == Some(c)
            &&& put_child(put_child(p, s, d, x), s, c, y) == put_child(p, s, c, y)
            &&& opened(put_child(p, s, d, x), s) == Some((put_child(p, s, d, x), d))
        }),
{
    match s {
        Seg::Name(k) => {
            match t {
                Tree::Table(es, _, _) => {
                    lemma_find_key_range(es, k, 0);
                    let es2 = if find_key(es, k, 0) >= 0 {
                        es
                    } else {
                        lemma_find_key_push(es, k, Tree::Null, 0);
                        es.push((k, Tree::Null))
                    };
                    let j = find_key(es2, k, 0);
                    lemma_find_key_range(es2, k, 0);
                    assert(es2[j].0 == k);
                    lemma_find_key_update(es2, k, j, d, 0);
                    assert(es2.update(j, (k, d)).update(j, (k, c)) == es2.update(j, (k, c)));
                    lemma_find_key_update(es2, k, j, c, 0);
                },
                Tree::Inline(es, _, _) => {
                    lemma_find_key_range(es, k, 0);
                    let es2 = if find_key(es, k, 0) >= 0 {
                        es
                    } else {
                        lemma_find_key_push(es, k, Tree::Null, 0);
                        es.push((k, Tree::Null))
                    };
                    let j = find_key(es2, k, 0);
                    lemma_find_key_range(es2, k, 0);
                    assert(es2[j].0 == k);
                    lemma_find_key_update(es2, k, j, d, 0);
                    assert(es2.update(j, (k, d)).update(j, (k, c)) == es2.update(j, (k, c)));
                    lemma_find_key_update(es2, k, j, c, 0);
                },
                _ => {},
            }
        },
        Seg::Index(n) => {
            match t {
                Tree::Array(xs, _) => {
                    assert(xs.update(n as int, d).update(n as int, c) == xs.update(n as int, c));
                },
                Tree::Tables(xs, _) => {
                    assert(xs.update(n as int, d).update(n as int, c) == xs.update(n as int, c));
                },
                _ => {},
            }
        },
    }
}

} // verus!
