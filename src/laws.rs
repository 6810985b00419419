//! Properties that relate several operations, stated over the model and
//! proved.
use vstd::prelude::*;
use crate::bash::{bash_item, bash_value, bash_words, flag_text};
use crate::format::{raw_item, raw_value, raw_words};
use crate::json::{Json, json_list, json_of, json_text};
use crate::keys::Seg;
use crate::model::{
    Decoration, Leaf, Tree, child, is_value, lemma_child_opened, lemma_open_put, lookup, opened, present, reached,
    rebuilt, resolves, same_value, writable,
};
use crate::ops::{append_outcome, removal_outcome, set_outcome};
use crate::text::{first_solid, last_solid, trimmed};

verus! {

/// Where a path resolves, it can be opened again without creating
/// anything, and opening it reaches what reading it finds.
pub proof fn lemma_resolves_writable(t: Tree, p: Seq<Seg>)
    requires
        resolves(t, p),
    ensures
        writable(t, p),
        reached(t, p) == lookup(t, p),
    decreases p.len(),
{
    if p.len() > 0 {
        lemma_child_opened(t, p[0]);
        lemma_resolves_writable(child(t, p[0]).unwrap(), p.drop_first());
    }
}

/// Two edits at the same path, one after the other, change nothing but
/// that path, as one edit does.
pub proof fn lemma_rebuilt_twice(t: Tree, p: Seq<Seg>, f1: Tree, f2: Tree)
    requires
        writable(t, p),
        f1 == rebuilt(t, p, f1),
        resolves(f1, p),
        f2 == rebuilt(f1, p, f2),
        resolves(f2, p),
    ensures
        f2 == rebuilt(t, p, f2),
    decreases p.len(),
{
    if p.len() > 0 {
        let s = p[0];
        let rest = p.drop_first();
        let q = opened(t, s).unwrap().0;
        let c = opened(t, s).unwrap().1;
        let c1 = child(f1, s).unwrap();
        let c2 = child(f2, s).unwrap();
        let x = crate::model::tables_text(f1);
        let y = crate::model::tables_text(f2);
        lemma_open_put(t, s, rebuilt(c, rest, c1), Tree::Null, x, x);
        assert(c1 == rebuilt(c, rest, c1));
        lemma_child_opened(f1, s);
        lemma_open_put(f1, s, rebuilt(c1, rest, c2), Tree::Null, y, y);
        assert(c2 == rebuilt(c1, rest, c2));
        lemma_rebuilt_twice(c, rest, c1, c2);
        lemma_open_put(t, s, c2, c1, x, y);
    }
}

/// Reading a path one segment longer reads that segment in what the
/// shorter path finds.
pub proof fn lemma_lookup_push(t: Tree, q: Seq<Seg>, s: Seg)
    ensures
        lookup(t, q.push(s)) == lookup(lookup(t, q), seq![s]),
    decreases q.len(),
{
    let p = q.push(s);
    if q.len() == 0 {
        assert(p == seq![s]);
    } else {
        assert(p[0] == q[0]);
        assert(p.drop_first() == q.drop_first().push(s));
        match child(t, q[0]) {
            Some(c) => {
                lemma_lookup_push(c, q.drop_first(), s);
            },
            None => {
                assert(seq![s].drop_first().len() == 0);
            },
        }
    }
}

/// Setting a scalar and then reading the key gives that value; setting the
/// original scalar back afterwards succeeds, gives the value back, and
/// leaves a document that differs from the first one only at that key,
/// whose value and decoration are the original ones again (only the
/// representation of the token may differ), and in the texts of arrays of
/// tables on the way.
pub proof fn law_set_then_restore(
    t: Tree,
    p: Seq<Seg>,
    v: Tree,
    prior1: Tree,
    f1: Tree,
    w: Tree,
    prior2: Tree,
    f2: Tree,
)
    requires
        writable(t, p),
        v is Scalar,
        set_outcome(t, p, v, prior1, f1),
        resolves(t, p),
        lookup(t, p) is Scalar,
        same_value(w, lookup(t, p)),
        set_outcome(f1, p, w, prior2, f2),
    ensures
        same_value(lookup(f1, p), v),
        writable(f1, p),
        same_value(prior2, v),
        f2 == rebuilt(t, p, f2),
        same_value(lookup(f2, p), lookup(t, p)),
        lookup(f2, p) is Scalar,
        lookup(f2, p)->Scalar_2 == lookup(t, p)->Scalar_2,
{
    lemma_resolves_writable(t, p);
    lemma_resolves_writable(f1, p);
    lemma_rebuilt_twice(t, p, f1, f2);
}

/// Removing a key gives back what was there, and reading the key
/// afterwards finds nothing.
pub proof fn law_remove_then_get(t: Tree, p: Seq<Seg>, prior: Tree, f: Tree)
    requires
        p.len() > 0,
        present(t, p.drop_last()),
        removal_outcome(t, p, prior, f),
    ensures
        prior == lookup(t, p),
        lookup(f, p) == Tree::Null,
{
    assert(p.drop_last().push(p.last()) == p);
    lemma_lookup_push(t, p.drop_last(), p.last());
    assert(seq![p.last()].drop_first().len() == 0);
}

/// Appending where there is no array yet gives back `Null` and leaves a
/// one-element array; appending again succeeds, gives back that
/// one-element array, and leaves two elements, in order.
pub proof fn law_append_twice(
    t: Tree,
    p: Seq<Seg>,
    x: Leaf,
    y: Leaf,
    prior1: Tree,
    f1: Tree,
    prior2: Tree,
    f2: Tree,
)
    requires
        writable(t, p),
        reached(t, p) == Tree::Null,
        append_outcome(t, p, x, prior1, f1),
        append_outcome(f1, p, y, prior2, f2),
    ensures
        prior1 == Tree::Null,
        lookup(f1, p) is Array,
        lookup(f1, p)->Array_0.len() == 1,
        lookup(f1, p)->Array_0[0]->Scalar_0 == x,
        writable(f1, p),
        reached(f1, p) is Array,
        prior2 == lookup(f1, p),
        lookup(f2, p) is Array,
        lookup(f2, p)->Array_0.len() == 2,
        lookup(f2, p)->Array_0[0]->Scalar_0 == x,
        lookup(f2, p)->Array_0[1]->Scalar_0 == y,
{
    lemma_resolves_writable(f1, p);
    let a1 = lookup(f1, p)->Array_0;
    assert(a1.last() == a1[0]);
    let a2 = lookup(f2, p)->Array_0;
    assert(a2.drop_last()[0] == a2[0]);
}

/// A boolean node renders as `1` or `0` in the shell and raw forms, and as a
/// JSON boolean in the structured form.
pub proof fn law_boolean_rendering(b: bool, text: Seq<char>, d: Decoration)
    ensures
        bash_item(Tree::Scalar(Leaf::Bool(b), text, d)) == flag_text(b),
        raw_item(Tree::Scalar(Leaf::Bool(b), text, d)) == flag_text(b),
        json_of(Tree::Scalar(Leaf::Bool(b), text, d)) == Json::Bool(b),
        json_text(json_of(Tree::Scalar(Leaf::Bool(b), text, d))) == if b {
            "true"@
        } else {
            "false"@
        },
        flag_text(b) == if b {
            seq!['1']
        } else {
            seq!['0']
        },
{
}

/// A boolean's shell form has no white space to trim.
proof fn lemma_flag_trimmed(b: bool)
    ensures
        trimmed(flag_text(b)) == flag_text(b),
{
    let s = flag_text(b);
    assert(first_solid(s, 0) == 0);
    assert(last_solid(s, 0, 1) == 1);
    assert(s.subrange(0, 1) =~= s);
}

/// In an array of booleans, every element renders as `1` or `0` in the
/// shell and raw forms and as a JSON boolean in the structured form.
pub proof fn law_booleans_in_arrays(xs: Seq<Tree>, n: nat)
    requires
        n <= xs.len(),
        forall|i: int| 0 <= i < xs.len() ==> #[trigger] xs[i] matches Tree::Scalar(Leaf::Bool(_), _, _),
    ensures
        bash_words(xs, n).len() == n,
        raw_words(xs, n).len() == n,
        json_list(xs, n, false).len() == n,
        forall|k: int|
            0 <= k < n ==> {
                &&& #[trigger] bash_words(xs, n)[k] == flag_text(xs[k]->Scalar_0->Bool_0)
                &&& raw_words(xs, n)[k] == flag_text(xs[k]->Scalar_0->Bool_0)
                &&& json_list(xs, n, false)[k] == Json::Bool(xs[k]->Scalar_0->Bool_0)
            },
    decreases n,
{
    if n > 0 {
        law_booleans_in_arrays(xs, (n - 1) as nat);
        let x = xs[n - 1];
        assert(x matches Tree::Scalar(Leaf::Bool(_), _, _));
        let b = x->Scalar_0->Bool_0;
        lemma_flag_trimmed(b);
        let m = (n - 1) as nat;
        assert(is_value(x));
        assert(bash_value(x) == flag_text(b));
        assert(raw_value(x) == flag_text(b));
        assert(bash_words(xs, n) == bash_words(xs, m).push(trimmed(bash_value(x))));
        assert(bash_words(xs, n) == bash_words(xs, m).push(flag_text(b)));
        assert(raw_words(xs, n) == raw_words(xs, m).push(flag_text(b)));
        assert(json_list(xs, n, false) == json_list(xs, m, false).push(Json::Bool(b)));
        assert forall|k: int| 0 <= k < n implies {
            &&& #[trigger] bash_words(xs, n)[k] == flag_text(xs[k]->Scalar_0->Bool_0)
            &&& raw_words(xs, n)[k] == flag_text(xs[k]->Scalar_0->Bool_0)
            &&& json_list(xs, n, false)[k] == Json::Bool(xs[k]->Scalar_0->Bool_0)
        } by {
            if k < m {
                assert(bash_words(xs, m)[k] == flag_text(xs[k]->Scalar_0->Bool_0));
            }
        }
    }
}

} // verus!
