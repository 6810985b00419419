//! Reading, setting, removing and appending the node that a key path
//! addresses in a document.
use vstd::prelude::*;
use toml_edit::{Document, Item, Value};
use crate::doc::{
    Shape, copy_item, decor_of, decorated, doc_rest, doc_tree, empty_array, entries_of, no_decor, null_item,
    push_value, put_at, put_named, put_root, root_of, shape, slots_of, take_at, take_named,
    take_root, tree_of, value_tree,
};
use crate::error::TomatoError;
use crate::keys::{KeySegment, Keyspec, Seg};
use crate::model::{
    Decoration, Leaf, Tree, child, find_key, lemma_child_opened, lemma_open_put, lookup, opened, present,
    reached, rebuilt, resolves, same_value, writable,
};
use crate::value::{TomlVal, coerced, float_reading};

verus! {

/// The elements of an array node; none for another node.
pub open spec fn elems(t: Tree) -> Seq<Tree> {
    match t {
        Tree::Array(xs, _) => xs,
        _ => Seq::empty(),
    }
}

/// The decoration of a scalar that replaces `before`: that of `before`
/// where it was a scalar, none otherwise.
pub open spec fn kept_decor(before: Tree, after: Tree) -> bool {
    &&& after is Scalar
    &&& before is Scalar ==> after->Scalar_2 == before->Scalar_2
    &&& !(before is Scalar) ==> after->Scalar_2 == (None::<Seq<char>>, None::<Seq<char>>)
}

/// Whether the last segment of `p` addresses a slot of an array of tables,
/// which holds tables only.
pub open spec fn in_tables(t: Tree, p: Seq<Seg>) -> bool {
    p.len() > 0 && lookup(t, p.drop_last()) is Tables
}

/// The decoration that appending gives a value after `n` slots: a space
/// before it, unless it is the first.
pub open spec fn pushed_decor(n: nat) -> Decoration {
    if n > 0 {
        (Some(" "@), Some(""@))
    } else {
        (Some(""@), Some(""@))
    }
}

/// What a successful `set_key` at `p` of a value whose node is `v` leaves:
/// the node that was there (`Null` for a slot that had to be made) comes
/// back as `prior`; the document `f` differs from `t` only along `p`; the
/// path resolves in `f`, to the new value; a new scalar keeps the
/// decoration of the scalar it replaces.
pub open spec fn set_outcome(t: Tree, p: Seq<Seg>, v: Tree, prior: Tree, f: Tree) -> bool {
    &&& prior == reached(t, p)
    &&& f == rebuilt(t, p, f)
    &&& resolves(f, p)
    &&& same_value(lookup(f, p), v)
    &&& v is Scalar ==> kept_decor(prior, lookup(f, p))
}

/// What a successful `remove_key` at `p` leaves: where the last segment
/// addresses nothing, `Null` comes back and nothing changes; otherwise the
/// node that was there comes back, and a `Null` placeholder takes its place.
pub open spec fn removal_outcome(t: Tree, p: Seq<Seg>, prior: Tree, f: Tree) -> bool {
    if child(lookup(t, p.drop_last()), p.last()) is None {
        prior == Tree::Null && f == t
    } else {
        &&& prior == lookup(t, p)
        &&& f == rebuilt(t, p, f)
        &&& resolves(f, p)
        &&& lookup(f, p) == Tree::Null
    }
}

/// What a successful `append_value` at `p` of the scalar `x` leaves: the
/// node that was there comes back; the path resolves in `f` to an array
/// that is the old one (or an empty one) with `x` added at the end.
pub open spec fn append_outcome(t: Tree, p: Seq<Seg>, x: Leaf, prior: Tree, f: Tree) -> bool {
    &&& prior == reached(t, p)
    &&& f == rebuilt(t, p, f)
    &&& resolves(f, p)
    &&& lookup(f, p) is Array
    &&& lookup(f, p)->Array_0.len() == elems(prior).len() + 1
    &&& lookup(f, p)->Array_0.drop_last() == elems(prior)
    &&& lookup(f, p)->Array_0.last() is Scalar
    &&& lookup(f, p)->Array_0.last()->Scalar_0 == x
    &&& lookup(f, p)->Array_0.last()->Scalar_2 == pushed_decor(elems(prior).len())
}

proof fn lemma_find_key_skip(es: Seq<(Seq<char>, Tree)>, k: Seq<char>, i: int)
    requires
        0 <= i <= es.len(),
        forall|j: int| 0 <= j < i ==> es[j].0 != k,
    ensures
        find_key(es, k, 0) == find_key(es, k, i),
    decreases i,
{
    if i > 0 {
        lemma_find_key_skip(es, k, i - 1);
    }
}

/// Given a key segment, a copy of the child of `node` that it addresses: a
/// field of a table or inline table for a name, a slot of an array or array
/// of tables for an index. `None` where there is no such child.
pub fn get_in_node(key: &KeySegment, node: &Item) -> (r: Option<Item>)
    ensures
        match child(tree_of(*node), key@) {
            Some(c) => r is Some && tree_of(r->Some_0) == c,
            None => r is None,
        },
{
    match key {
        KeySegment::Name(n) => {
            let s = shape(node);
            match s {
                Shape::Table => {},
                Shape::Inline => {},
                _ => {
                    return None;
                },
            }
            let es = entries_of(node);
            let ghost model = match tree_of(*node) {
                Tree::Table(x, _, _) => x,
                Tree::Inline(x, _, _) => x,
                _ => Seq::empty(),
            };
            let mut i: usize = 0;
            while i < es.len()
                invariant
                    i <= es.len() == model.len(),
                    model == match tree_of(*node) {
                        Tree::Table(x, _, _) => x,
                        Tree::Inline(x, _, _) => x,
                        _ => Seq::<(Seq<char>, Tree)>::empty(),
                    },
                    tree_of(*node) is Table || tree_of(*node) is Inline,
                    key@ == Seg::Name(n@),
                    forall|j: int|
                        0 <= j < model.len() ==> (#[trigger] es@[j]).0@ == model[j].0 && tree_of(
                            es@[j].1,
                        ) == model[j].1,
                    forall|j: int| 0 <= j < i ==> model[j].0 != n@,
                decreases es.len() - i,
            {
                if es[i].0 == *n {
                    proof {
                        assert(es@[i as int].0@ == model[i as int].0);
                        assert(model[i as int].0 == n@);
                        assert(find_key(model, n@, i as int) == i);
                        lemma_find_key_skip(model, n@, i as int);
                        assert(child(tree_of(*node), key@) == Some(model[i as int].1));
                    }
                    let found = copy_item(&es[i].1);
                    assert(tree_of(found) == model[i as int].1);
                    return Some(found);
                }
                i = i + 1;
            }
            proof {
                lemma_find_key_skip(model, n@, i as int);
            }
            None
        },
        KeySegment::Index(idx) => {
            let s = shape(node);
            match s {
                Shape::Array => {},
                Shape::Tables => {},
                _ => {
                    return None;
                },
            }
            let xs = slots_of(node);
            if *idx < xs.len() {
                Some(copy_item(&xs[*idx]))
            } else {
                None
            }
        },
    }
}

/// Given a full dotted key, a copy of the node it addresses in the
/// document, or `Item::None` where the key does not resolve. Reading never
/// fails and changes nothing.
pub fn get_key(toml: &Document, dotted_key: &Keyspec) -> (r: Result<Item, TomatoError>)
    ensures
        r is Ok,
        tree_of(r->Ok_0) == lookup(doc_tree(*toml), dotted_key@),
{
    let n = dotted_key.subkeys.len();
    assert(dotted_key@.subrange(0, n as int) == dotted_key@);
    Ok(lookup_item(root_of(toml), dotted_key, n))
}

/// A copy of what reading the first `n` segments of `key` finds, or
/// `Item::None` where they do not resolve.
fn lookup_item(root: &Item, key: &Keyspec, n: usize) -> (r: Item)
    requires
        n <= key@.len(),
    ensures
        tree_of(r) == lookup(tree_of(*root), key@.subrange(0, n as int)),
{
    let ghost q = key@.subrange(0, n as int);
    let mut node = copy_item(root);
    assert(q.subrange(0, n as int) == q);
    let mut i: usize = 0;
    while i < n
        invariant
            i <= n <= key.subkeys.len() == key@.len(),
            q == key@.subrange(0, n as int),
            lookup(tree_of(*root), q) == lookup(tree_of(node), q.subrange(i as int, n as int)),
        decreases n - i,
    {
        let ghost rest = q.subrange(i as int, n as int);
        assert(rest[0] == key.subkeys@[i as int]@);
        assert(rest.drop_first() == q.subrange(i as int + 1, n as int));
        match get_in_node(&key.subkeys[i], &node) {
            None => {
                return null_item();
            },
            Some(c) => {
                node = c;
            },
        }
        i = i + 1;
    }
    assert(q.subrange(i as int, n as int).len() == 0);
    node
}

/// Whether the last segment of a non-empty `key` addresses a slot of an
/// array of tables.
fn parent_is_tables(root: &Item, key: &Keyspec) -> (r: bool)
    requires
        key@.len() > 0,
    ensures
        r == in_tables(tree_of(*root), key@),
{
    let n = key.subkeys.len();
    let parent = lookup_item(root, key, n - 1);
    assert(key@.drop_last() == key@.subrange(0, n - 1));
    match shape(&parent) {
        Shape::Tables => true,
        _ => false,
    }
}

/// A copy of what opening `key` on `node` reaches (see `opened`), without
/// changing `node`.
fn peek_open(key: &KeySegment, node: &Item) -> (r: Option<Item>)
    ensures
        match opened(tree_of(*node), key@) {
            None => r is None,
            Some(pc) => r is Some && tree_of(r->Some_0) == pc.1,
        },
{
    match key {
        KeySegment::Name(_) => {
            let s = shape(node);
            match s {
                Shape::Table => match get_in_node(key, node) {
                    Some(c) => Some(c),
                    None => Some(null_item()),
                },
                Shape::Inline => match get_in_node(key, node) {
                    Some(c) => Some(c),
                    None => Some(null_item()),
                },
                _ => None,
            }
        },
        KeySegment::Index(_) => get_in_node(key, node),
    }
}

/// A copy of what the slot at `key` holds once the key is opened for
/// writing, or `None` where some segment cannot be opened.
fn reach(root: &Item, key: &Keyspec) -> (r: Option<Item>)
    ensures
        writable(tree_of(*root), key@) <==> r is Some,
        r is Some ==> tree_of(r->Some_0) == reached(tree_of(*root), key@),
{
    let ghost p = key@;
    let ghost t = tree_of(*root);
    let mut node = copy_item(root);
    assert(p.subrange(0, p.len() as int) == p);
    let mut i: usize = 0;
    while i < key.subkeys.len()
        invariant
            i <= key.subkeys.len() == p.len(),
            p == key@,
            t == tree_of(*root),
            writable(t, p) == writable(tree_of(node), p.subrange(i as int, p.len() as int)),
            reached(t, p) == reached(tree_of(node), p.subrange(i as int, p.len() as int)),
        decreases key.subkeys.len() - i,
    {
        let ghost rest = p.subrange(i as int, p.len() as int);
        assert(rest[0] == key.subkeys@[i as int]@);
        assert(rest.drop_first() == p.subrange(i as int + 1, p.len() as int));
        match peek_open(&key.subkeys[i], &node) {
            None => {
                return None;
            },
            Some(c) => {
                node = c;
            },
        }
        i = i + 1;
    }
    assert(p.subrange(i as int, p.len() as int).len() == 0);
    Some(node)
}

/// A copy of the node at the first `n` segments of `key`, where each of
/// them addresses an existing node that is not `Null`.
fn reach_present(root: &Item, key: &Keyspec, n: usize) -> (r: Option<Item>)
    requires
        n <= key@.len(),
    ensures
        present(tree_of(*root), key@.subrange(0, n as int)) <==> r is Some,
        r is Some ==> tree_of(r->Some_0) == lookup(tree_of(*root), key@.subrange(0, n as int)),
{
    let ghost q = key@.subrange(0, n as int);
    let ghost t = tree_of(*root);
    let mut node = copy_item(root);
    assert(q.subrange(0, n as int) == q);
    let mut i: usize = 0;
    while i < n
        invariant
            i <= n <= key.subkeys.len() == key@.len(),
            q == key@.subrange(0, n as int),
            t == tree_of(*root),
            present(t, q) == present(tree_of(node), q.subrange(i as int, n as int)),
            lookup(t, q) == lookup(tree_of(node), q.subrange(i as int, n as int)),
        decreases n - i,
    {
        let ghost rest = q.subrange(i as int, n as int);
        assert(rest[0] == key.subkeys@[i as int]@);
        assert(rest.drop_first() == q.subrange(i as int + 1, n as int));
        match get_in_node(&key.subkeys[i], &node) {
            None => {
                return None;
            },
            Some(c) => {
                match shape(&c) {
                    Shape::Null => {
                        return None;
                    },
                    _ => {},
                }
                node = c;
            },
        }
        i = i + 1;
    }
    assert(q.subrange(i as int, n as int).len() == 0);
    Some(node)
}

/// The change made at the end of a key path.
pub enum Edit<'a> {
    /// Replace the node by a value, which takes over the decoration of a
    /// value that it replaces.
    Replace(&'a Value),
    /// Add a value at the end of the array there, made first if the slot is empty.
    Append(&'a Value),
    /// Leave a `Null` placeholder in the slot.
    Remove,
}

/// Whether the edit can be made on a node: appending needs an array or an
/// empty slot.
pub open spec fn edit_ok(e: Edit, t: Tree) -> bool {
    match e {
        Edit::Append(_) => t is Null || t is Array,
        _ => true,
    }
}

/// What the edited node is, given what it was.
pub open spec fn edit_fits(e: Edit, before: Tree, after: Tree) -> bool {
    match e {
        Edit::Replace(v) => same_value(after, value_tree(*v)) && (value_tree(*v) is Scalar
            ==> kept_decor(before, after)),
        Edit::Append(v) => {
            &&& after is Array
            &&& after->Array_0.len() == elems(before).len() + 1
            &&& after->Array_0.drop_last() == elems(before)
            &&& same_value(after->Array_0.last(), value_tree(*v))
            &&& value_tree(*v) is Scalar ==> after->Array_0.last()->Scalar_2 == pushed_decor(
                elems(before).len(),
            )
        },
        Edit::Remove => after == Tree::Null,
    }
}

/// Makes the edit on `node` and gives back what `node` was.
fn finish(node: &mut Item, e: &Edit) -> (r: Item)
    requires
        edit_ok(*e, tree_of(*old(node))),
    ensures
        tree_of(r) == tree_of(*old(node)),
        edit_fits(*e, tree_of(*old(node)), tree_of(*final(node))),
{
    match e {
        Edit::Replace(v) => {
            let decor = match shape(node) {
                Shape::Str(_) => decor_of(node),
                Shape::Int(_) => decor_of(node),
                Shape::Float(_) => decor_of(node),
                Shape::Bool(_) => decor_of(node),
                Shape::Datetime(_) => decor_of(node),
                _ => no_decor(),
            };
            let mut fresh = decorated(v, decor);
            std::mem::swap(node, &mut fresh);
            fresh
        },
        Edit::Append(v) => {
            let prior = copy_item(node);
            match shape(node) {
                Shape::Null => {
                    let mut made = empty_array();
                    std::mem::swap(node, &mut made);
                },
                _ => {},
            }
            push_value(node, v);
            prior
        },
        Edit::Remove => {
            let mut gone = null_item();
            std::mem::swap(node, &mut gone);
            gone
        },
    }
}

/// Opens the segments of `key` from `i` on, makes the edit at the end, and
/// gives back what the slot held before.
fn edit_at(node: &mut Item, key: &Keyspec, i: usize, e: &Edit) -> (r: Item)
    requires
        i <= key@.len(),
        writable(tree_of(*old(node)), key@.subrange(i as int, key@.len() as int)),
        edit_ok(*e, reached(tree_of(*old(node)), key@.subrange(i as int, key@.len() as int))),
    ensures
        ({
            let rest = key@.subrange(i as int, key@.len() as int);
            let t = tree_of(*old(node));
            let f = tree_of(*final(node));
            &&& tree_of(r) == reached(t, rest)
            &&& f == rebuilt(t, rest, f)
            &&& resolves(f, rest)
            &&& edit_fits(*e, reached(t, rest), lookup(f, rest))
        }),
    decreases key@.len() - i,
{
    let ghost rest = key@.subrange(i as int, key@.len() as int);
    let ghost t = tree_of(*node);
    if i == key.subkeys.len() {
        assert(rest.len() == 0);
        return finish(node, e);
    }
    let ghost s = key@[i as int];
    assert(rest[0] == s);
    assert(s == key.subkeys@[i as int]@);
    assert(rest.drop_first() == key@.subrange(i as int + 1, key@.len() as int));
    let ghost pc = opened(t, s).unwrap();
    match &key.subkeys[i] {
        KeySegment::Name(k) => {
            let taken = take_named(node, k.as_str());
            let mut c = taken.unwrap();
            let r = edit_at(&mut c, key, i + 1, e);
            proof {
                lemma_open_put(t, s, tree_of(c), Tree::Null, Seq::empty(), Seq::empty());
                lemma_open_put(t, s, Tree::Null, Tree::Null, Seq::empty(), Seq::empty());
            }
            put_named(node, k.as_str(), c);
            r
        },
        KeySegment::Index(n) => {
            let taken = take_at(node, *n);
            let ghost x = tree_of(*node);
            let mut c = taken.unwrap();
            let r = edit_at(&mut c, key, i + 1, e);
            proof {
                let x_txt = crate::model::tables_text(x);
                lemma_open_put(t, s, Tree::Null, Tree::Null, x_txt, x_txt);
            }
            put_at(node, *n, c);
            proof {
                let x_txt = crate::model::tables_text(x);
                let y_txt = crate::model::tables_text(tree_of(*node));
                lemma_open_put(t, s, tree_of(c), Tree::Null, x_txt, y_txt);
            }
            r
        },
    }
}

/// Where every segment before the last addresses an existing node that is
/// not `Null`, and the last addresses an existing slot, the whole path can
/// be opened without creating anything.
proof fn lemma_present_writable(t: Tree, q: Seq<Seg>, s: Seg)
    requires
        present(t, q),
        child(lookup(t, q), s) is Some,
    ensures
        writable(t, q.push(s)),
        reached(t, q.push(s)) == lookup(t, q.push(s)),
    decreases q.len(),
{
    let p = q.push(s);
    if q.len() == 0 {
        lemma_child_opened(t, s);
        let c = child(t, s).unwrap();
        assert(p[0] == s);
        assert(p.drop_first().len() == 0);
        assert(writable(c, p.drop_first()));
        assert(reached(c, p.drop_first()) == c);
        assert(lookup(c, p.drop_first()) == c);
    } else {
        let c = child(t, q[0]).unwrap();
        lemma_child_opened(t, q[0]);
        assert(p[0] == q[0]);
        assert(p.drop_first() == q.drop_first().push(s));
        lemma_present_writable(c, q.drop_first(), s);
        assert(lookup(t, q) == lookup(c, q.drop_first()));
        assert(writable(c, p.drop_first()));
        assert(reached(t, p) == reached(c, p.drop_first()));
        assert(lookup(t, p) == lookup(c, p.drop_first()));
    }
}

/// Sets the given key to the new value and gives back what was there
/// (`Item::None` for a field that had to be made). Every segment but the
/// last must address an existing node; the last must address an existing
/// slot or name a field of an existing table or inline table. No container
/// is made on the way. The replaced scalar's decoration stays; nothing else
/// in the document changes.
pub fn set_key(toml: &mut Document, dotted_key: &Keyspec, value: &Value) -> (r: Result<
    Item,
    TomatoError,
>)
    ensures
        doc_rest(*final(toml)) == doc_rest(*old(toml)),
        ({
            let t = doc_tree(*old(toml));
            let f = doc_tree(*final(toml));
            let p = dotted_key@;
            if p.len() == 0 {
                r is Err && r->Err_0 == TomatoError::EmptyKey && *final(toml) == *old(toml)
            } else if !writable(t, p) || in_tables(t, p) {
                r is Err && r->Err_0 == TomatoError::IndexOnNonArray && *final(toml) == *old(toml)
            } else {
                r is Ok && set_outcome(t, p, value_tree(*value), tree_of(r->Ok_0), f)
            }
        }),
{
    if dotted_key.subkeys.len() == 0 {
        return Err(TomatoError::EmptyKey);
    }
    match reach(root_of(toml), dotted_key) {
        None => {
            return Err(TomatoError::IndexOnNonArray);
        },
        Some(_) => {},
    }
    if parent_is_tables(root_of(toml), dotted_key) {
        return Err(TomatoError::IndexOnNonArray);
    }
    let mut root = take_root(toml);
    assert(dotted_key@.subrange(0, dotted_key@.len() as int) == dotted_key@);
    let prior = edit_at(&mut root, dotted_key, 0, &Edit::Replace(value));
    put_root(toml, root);
    Ok(prior)
}

/// Removes the node at the given key, leaving a `Null` placeholder, and
/// gives back what was there. Every segment before the last must address an
/// existing node that is not `Null`; where the last addresses nothing, the
/// result is `Item::None` and nothing changes.
pub fn remove_key(toml: &mut Document, dotted_key: &Keyspec) -> (r: Result<Item, TomatoError>)
    ensures
        doc_rest(*final(toml)) == doc_rest(*old(toml)),
        ({
            let t = doc_tree(*old(toml));
            let f = doc_tree(*final(toml));
            let p = dotted_key@;
            if p.len() == 0 {
                r is Err && r->Err_0 == TomatoError::EmptyKey && *final(toml) == *old(toml)
            } else if !present(t, p.drop_last()) {
                r is Err && r->Err_0 == TomatoError::KeyNotFound && *final(toml) == *old(toml)
            } else {
                &&& r is Ok
                &&& removal_outcome(t, p, tree_of(r->Ok_0), f)
                &&& child(lookup(t, p.drop_last()), p.last()) is None ==> *final(toml) == *old(toml)
            }
        }),
{
    let n = dotted_key.subkeys.len();
    if n == 0 {
        return Err(TomatoError::EmptyKey);
    }
    let ghost p = dotted_key@;
    assert(p.drop_last() == p.subrange(0, n - 1));
    let parent = reach_present(root_of(toml), dotted_key, n - 1);
    match parent {
        None => Err(TomatoError::KeyNotFound),
        Some(pn) => {
            match get_in_node(&dotted_key.subkeys[n - 1], &pn) {
                None => Ok(null_item()),
                Some(_) => {
                    proof {
                        assert(p.last() == dotted_key.subkeys@[n - 1]@);
                        assert(p.drop_last().push(p.last()) == p);
                        lemma_present_writable(doc_tree(*toml), p.drop_last(), p.last());
                    }
                    let mut root = take_root(toml);
                    assert(p.subrange(0, p.len() as int) == p);
                    let prior = edit_at(&mut root, dotted_key, 0, &Edit::Remove);
                    put_root(toml, root);
                    Ok(prior)
                },
            }
        },
    }
}

/// Appends the value that the token `value` stands for (see `TomlVal`) to
/// the array at the given key and gives back the array as it was, or
/// `Item::None` where there was none: an empty slot first becomes an empty
/// array. The path must exist as for `set_key`; only its last field may be
/// missing.
pub fn append_value(toml: &mut Document, dotted_key: &Keyspec, value: &str) -> (r: Result<
    Item,
    TomatoError,
>)
    ensures
        doc_rest(*final(toml)) == doc_rest(*old(toml)),
        ({
            let t = doc_tree(*old(toml));
            let f = doc_tree(*final(toml));
            let p = dotted_key@;
            let x = coerced(value@, float_reading(value@));
            if p.len() == 0 {
                r is Err && r->Err_0 == TomatoError::EmptyKey && *final(toml) == *old(toml)
            } else if !writable(t, p) || in_tables(t, p) {
                r is Err && r->Err_0 == TomatoError::IndexOnNonArray && *final(toml) == *old(toml)
            } else if !(reached(t, p) is Null || reached(t, p) is Array) {
                r is Err && r->Err_0 == TomatoError::AppendToNonArray && *final(toml) == *old(toml)
            } else {
                r is Ok && append_outcome(t, p, x, tree_of(r->Ok_0), f)
            }
        }),
{
    if dotted_key.subkeys.len() == 0 {
        return Err(TomatoError::EmptyKey);
    }
    if parent_is_tables(root_of(toml), dotted_key) {
        return Err(TomatoError::IndexOnNonArray);
    }
    let there = reach(root_of(toml), dotted_key);
    match there {
        None => {
            return Err(TomatoError::IndexOnNonArray);
        },
        Some(node) => match shape(&node) {
            Shape::Null => {},
            Shape::Array => {},
            _ => {
                return Err(TomatoError::AppendToNonArray);
            },
        },
    }
    let coerced_value = TomlVal::from_str(value);
    let tv = match coerced_value {
        Ok(tv) => tv,
        Err(e) => {
            return Err(e);
        },
    };
    let mut root = take_root(toml);
    assert(dotted_key@.subrange(0, dotted_key@.len() as int) == dotted_key@);
    let prior = edit_at(&mut root, dotted_key, 0, &Edit::Append(&tv.inner));
    put_root(toml, root);
    Ok(prior)
}

} // verus!
