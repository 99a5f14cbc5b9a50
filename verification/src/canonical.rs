use vstd::prelude::*;
use crate::diff::leaf_eq;
use crate::json::Json;
use crate::debug_spec::{JsonView, view_of, items_rel, entries_rel};
use crate::text::{str_eq, string_of};

verus! {

/// The fields of a parse tree that carry no meaning for a comparison.
pub open spec fn is_non_semantic(key: Seq<char>) -> bool {
    key == "loc"@
}

/// Whether `r` is `e` without its non-semantic fields, at every depth:
/// objects keep their other entries in order, arrays their elements, and
/// leaves stay as they are.
pub open spec fn without_non_semantic(e: Json, r: Json) -> bool
    decreases e, 1nat, 0nat,
{
    match (e, r) {
        (Json::Object(ev), Json::Object(rv)) => kept_entries(e, r, 0, 0),
        (Json::Array(ev), Json::Array(rv)) => ev@.len() == rv@.len() && kept_items(e, r, 0),
        (Json::Object(_), _) => false,
        (Json::Array(_), _) => false,
        (_, Json::Object(_)) => false,
        (_, Json::Array(_)) => false,
        _ => leaf_eq(e, r),
    }
}

/// The entries of `e` from position `i` that are kept are those of `r`
/// from position `j`, in order.
pub open spec fn kept_entries(e: Json, r: Json, i: nat, j: nat) -> bool
    decreases e, 0nat, (match e { Json::Object(ev) => if i < ev@.len() { (ev@.len() - i) as nat } else { 0 }, _ => 0 }),
{
    match (e, r) {
        (Json::Object(ev), Json::Object(rv)) => {
            if i >= ev@.len() {
                j >= rv@.len()
            } else if is_non_semantic(ev@[i as int].0@) {
                kept_entries(e, r, i + 1, j)
            } else {
                proof {
                    assert(decreases_to!(e => ev));
                    assert(decreases_to!(ev => ev@));
                    assert(decreases_to!(ev@ => ev@[i as int]));
                    assert(decreases_to!(ev@[i as int] => ev@[i as int].1));
                }
                &&& j < rv@.len()
                &&& rv@[j as int].0@ == ev@[i as int].0@
                &&& without_non_semantic(ev@[i as int].1, rv@[j as int].1)
                &&& kept_entries(e, r, i + 1, j + 1)
            }
        },
        _ => true,
    }
}

/// The elements of `e` from position `i` on, stripped, are those of `r`.
pub open spec fn kept_items(e: Json, r: Json, i: nat) -> bool
    decreases e, 0nat, (match e { Json::Array(ev) => if i < ev@.len() { (ev@.len() - i) as nat } else { 0 }, _ => 0 }),
{
    match (e, r) {
        (Json::Array(ev), Json::Array(rv)) => {
            if i < ev@.len() && i < rv@.len() {
                proof {
                    assert(decreases_to!(e => ev));
                    assert(decreases_to!(ev => ev@));
                    assert(decreases_to!(ev@ => ev@[i as int]));
                }
                without_non_semantic(ev@[i as int], rv@[i as int]) && kept_items(e, r, i + 1)
            } else {
                true
            }
        },
        _ => true,
    }
}

fn copy_leaf(j: &Json) -> (r: Json)
    requires
        !(*j is Object) && !(*j is Array),
    ensures
        leaf_eq(*j, r),
{
    match j {
        Json::Null => Json::Null,
        Json::Bool(b) => Json::Bool(*b),
        Json::PosInt(n) => Json::PosInt(*n),
        Json::NegInt(n) => Json::NegInt(*n),
        Json::Float(t) => Json::Float(string_of(t.as_str())),
        Json::Str(t) => Json::Str(string_of(t.as_str())),
        _ => Json::Null,
    }
}

/// How many of the first `i` entries are kept.
pub open spec fn kept_count(ev: Seq<(String, Json)>, i: int) -> nat
    decreases i,
{
    if i <= 0 {
        0
    } else if is_non_semantic(ev[i - 1].0@) {
        kept_count(ev, i - 1)
    } else {
        kept_count(ev, i - 1) + 1
    }
}

proof fn lemma_kept_count_mono(ev: Seq<(String, Json)>, a: int, b: int)
    requires
        0 <= a <= b,
    ensures
        kept_count(ev, a) <= kept_count(ev, b),
    decreases b - a,
{
    if a < b {
        lemma_kept_count_mono(ev, a, b - 1);
    }
}

/// The entry at position `k` of `ev`, where it is kept, is at its place in
/// `rv`, stripped.
pub open spec fn entry_kept_at(ev: Seq<(String, Json)>, rv: Seq<(String, Json)>, k: int) -> bool {
    !is_non_semantic(ev[k].0@) ==> {
        &&& rv[kept_count(ev, k) as int].0@ == ev[k].0@
        &&& without_non_semantic(ev[k].1, rv[kept_count(ev, k) as int].1)
    }
}

proof fn lemma_kept_entries(e: Json, r: Json, ev: Seq<(String, Json)>, rv: Seq<(String, Json)>, i: nat)
    requires
        e matches Json::Object(x) && x@ == ev,
        r matches Json::Object(y) && y@ == rv,
        i <= ev.len(),
        rv.len() == kept_count(ev, ev.len() as int),
        forall|k: int| i <= k < ev.len() ==> #[trigger] entry_kept_at(ev, rv, k),
    ensures
        kept_entries(e, r, i, kept_count(ev, i as int)),
    decreases ev.len() - i,
{
    if i < ev.len() {
        assert(entry_kept_at(ev, rv, i as int));
        lemma_kept_entries(e, r, ev, rv, i + 1);
        lemma_kept_count_mono(ev, (i + 1) as int, ev.len() as int);
    }
}

proof fn lemma_kept_items(e: Json, r: Json, i: nat)
    requires
        e matches Json::Array(ev) && r matches Json::Array(rv) && ev@.len() == rv@.len() && i <= ev@.len()
            && forall|k: int| i <= k < ev@.len() ==> without_non_semantic(ev@[k], #[trigger] rv@[k]),
    ensures
        kept_items(e, r, i),
    decreases (match e { Json::Array(ev) => ev@.len() - i, _ => 0 }),
{
    match (e, r) {
        (Json::Array(ev), Json::Array(rv)) => {
            if i < ev@.len() {
                lemma_kept_items(e, r, i + 1);
            }
        },
        _ => {},
    }
}

/// Drops the fields that carry no meaning (`loc`) from a parse tree, at
/// every depth; everything else stays as it is.
pub fn drop_non_semantic_fields(tree: &Json) -> (r: Json)
    ensures
        without_non_semantic(*tree, r),
    decreases tree,
{
    match tree {
        Json::Object(entries) => {
            let ghost ev = entries@;
            let mut out: Vec<(String, Json)> = Vec::new();
            let mut i: usize = 0;
            while i < entries.len()
                invariant
                    ev == entries@,
                    *tree == Json::Object(*entries),
                    i <= ev.len(),
                    out@.len() == kept_count(ev, i as int),
                    forall|k: int| 0 <= k < i ==> #[trigger] entry_kept_at(ev, out@, k),
                decreases entries.len() - i,
            {
                proof {
                    assert(*entries == tree->Object_0);
                    assert(decreases_to!(*tree => tree->Object_0));
                    assert(decreases_to!(*entries => entries@));
                    assert(decreases_to!(entries@ => entries@[i as int]));
                    assert(decreases_to!(entries@[i as int] => entries@[i as int].1));
                }
                let ghost before = out@;
                if !str_eq(entries[i].0.as_str(), "loc") {
                    let value = drop_non_semantic_fields(&entries[i].1);
                    out.push((string_of(entries[i].0.as_str()), value));
                }
                proof {
                    assert forall|k: int| 0 <= k < i + 1 implies #[trigger] entry_kept_at(ev, out@, k) by {
                        if k < i {
                            assert(entry_kept_at(ev, before, k));
                            if !is_non_semantic(ev[k].0@) {
                                lemma_kept_count_mono(ev, k + 1, i as int);
                                assert(out@[kept_count(ev, k) as int] == before[kept_count(ev, k) as int]);
                            }
                        }
                    }
                }
                i = i + 1;
            }
            let ghost rv = out@;
            let r = Json::Object(out);
            proof { lemma_kept_entries(*tree, r, ev, rv, 0); }
            r
        },
        Json::Array(items) => {
            let mut out: Vec<Json> = Vec::new();
            let mut i: usize = 0;
            while i < items.len()
                invariant
                    *tree == Json::Array(*items),
                    i <= items@.len(),
                    out@.len() == i,
                    forall|k: int| 0 <= k < i ==> without_non_semantic(items@[k], #[trigger] out@[k]),
                decreases items.len() - i,
            {
                proof {
                    assert(*items == tree->Array_0);
                    assert(decreases_to!(*tree => tree->Array_0));
                    assert(decreases_to!(*items => items@));
                    assert(decreases_to!(items@ => items@[i as int]));
                }
                let value = drop_non_semantic_fields(&items[i]);
                out.push(value);
                i = i + 1;
            }
            let r = Json::Array(out);
            proof { lemma_kept_items(*tree, r, 0); }
            r
        },
        _ => copy_leaf(tree),
    }
}


/// A tree as plain values without its non-semantic fields, at every depth.
pub open spec fn strip_view(v: JsonView) -> JsonView
    decreases v,
{
    match v {
        JsonView::Array(s) => JsonView::Array(strip_items(s)),
        JsonView::Object(s) => JsonView::Object(strip_entries(s)),
        _ => v,
    }
}

/// The elements of an array, each stripped.
pub open spec fn strip_items(s: Seq<JsonView>) -> Seq<JsonView>
    decreases s,
{
    if s.len() == 0 {
        Seq::empty()
    } else {
        seq![strip_view(s[0])] + strip_items(s.subrange(1, s.len() as int))
    }
}

/// The entries of an object that are kept, each value stripped.
pub open spec fn strip_entries(s: Seq<(Seq<char>, JsonView)>) -> Seq<(Seq<char>, JsonView)>
    decreases s,
{
    if s.len() == 0 {
        Seq::empty()
    } else if is_non_semantic(s[0].0) {
        strip_entries(s.subrange(1, s.len() as int))
    } else {
        proof { assert(decreases_to!(s[0] => s[0].1)); }
        seq![(s[0].0, strip_view(s[0].1))] + strip_entries(s.subrange(1, s.len() as int))
    }
}

proof fn lemma_strip_view_twice(v: JsonView)
    ensures
        strip_view(strip_view(v)) == strip_view(v),
    decreases v,
{
    match v {
        JsonView::Array(s) => lemma_strip_items_twice(s),
        JsonView::Object(s) => lemma_strip_entries_twice(s),
        _ => {},
    }
}

proof fn lemma_strip_items_twice(s: Seq<JsonView>)
    ensures
        strip_items(strip_items(s)) == strip_items(s),
    decreases s,
{
    if s.len() > 0 {
        let t = strip_items(s.subrange(1, s.len() as int));
        let h = strip_view(s[0]);
        lemma_strip_view_twice(s[0]);
        lemma_strip_items_twice(s.subrange(1, s.len() as int));
        let u = seq![h] + t;
        assert(u[0] == h);
        assert(u.subrange(1, u.len() as int) =~= t);
        assert(strip_items(u) =~= seq![strip_view(h)] + strip_items(t));
    }
}

proof fn lemma_strip_entries_twice(s: Seq<(Seq<char>, JsonView)>)
    ensures
        strip_entries(strip_entries(s)) == strip_entries(s),
    decreases s,
{
    if s.len() > 0 {
        let rest = s.subrange(1, s.len() as int);
        lemma_strip_entries_twice(rest);
        if !is_non_semantic(s[0].0) {
            assert(decreases_to!(s[0] => s[0].1));
            lemma_strip_view_twice(s[0].1);
            let t = strip_entries(rest);
            let h = (s[0].0, strip_view(s[0].1));
            let u = seq![h] + t;
            assert(u[0] == h);
            assert(u.subrange(1, u.len() as int) =~= t);
            assert(strip_entries(u) =~= seq![(h.0, strip_view(h.1))] + strip_entries(t));
        }
    }
}

proof fn lemma_stripped_view(e: Json, r: Json, v: JsonView, w: JsonView)
    requires
        without_non_semantic(e, r),
        view_of(e, v),
        view_of(r, w),
    ensures
        w == strip_view(v),
    decreases e, 1nat, 0nat,
{
    match (e, r) {
        (Json::Object(ev), Json::Object(rv)) => {
            let vs = v->Object_0;
            let ws = w->Object_0;
            lemma_stripped_entries(e, r, vs, ws, 0, 0);
            assert(vs.subrange(0, vs.len() as int) =~= vs);
            assert(ws.subrange(0, ws.len() as int) =~= ws);
        },
        (Json::Array(ev), Json::Array(rv)) => {
            let vs = v->Array_0;
            let ws = w->Array_0;
            lemma_stripped_items(e, r, vs, ws, 0);
            assert(vs.subrange(0, vs.len() as int) =~= vs);
            assert(ws.subrange(0, ws.len() as int) =~= ws);
        },
        _ => {},
    }
}

proof fn lemma_stripped_items(e: Json, r: Json, vs: Seq<JsonView>, ws: Seq<JsonView>, i: nat)
    requires
        e matches Json::Array(ev) && r matches Json::Array(rv) && ev@.len() == rv@.len()
            && vs.len() == ev@.len() && ws.len() == rv@.len() && i <= ev@.len(),
        kept_items(e, r, i),
        items_rel(e, vs, i),
        items_rel(r, ws, i),
    ensures
        ws.subrange(i as int, ws.len() as int) == strip_items(vs.subrange(i as int, vs.len() as int)),
    decreases e, 0nat, (match e { Json::Array(ev) => if i < ev@.len() { (ev@.len() - i) as nat } else { 0 }, _ => 0 }),
{
    let ev = e->Array_0;
    let rv = r->Array_0;
    let a = vs.subrange(i as int, vs.len() as int);
    let b = ws.subrange(i as int, ws.len() as int);
    if i < ev@.len() {
        assert(decreases_to!(e => ev));
        assert(decreases_to!(ev => ev@));
        assert(decreases_to!(ev@ => ev@[i as int]));
        lemma_stripped_view(ev@[i as int], rv@[i as int], vs[i as int], ws[i as int]);
        lemma_stripped_items(e, r, vs, ws, i + 1);
        assert(a[0] == vs[i as int]);
        assert(a.subrange(1, a.len() as int) =~= vs.subrange((i + 1) as int, vs.len() as int));
        assert(b =~= seq![ws[i as int]] + ws.subrange((i + 1) as int, ws.len() as int));
    } else {
        assert(a =~= Seq::<JsonView>::empty());
        assert(b =~= Seq::<JsonView>::empty());
    }
}

proof fn lemma_stripped_entries(e: Json, r: Json, vs: Seq<(Seq<char>, JsonView)>, ws: Seq<(Seq<char>, JsonView)>, i: nat, j: nat)
    requires
        e matches Json::Object(ev) && r matches Json::Object(rv)
            && vs.len() == ev@.len() && ws.len() == rv@.len() && i <= ev@.len() && j <= rv@.len(),
        kept_entries(e, r, i, j),
        entries_rel(e, vs, i),
        entries_rel(r, ws, j),
    ensures
        ws.subrange(j as int, ws.len() as int) == strip_entries(vs.subrange(i as int, vs.len() as int)),
    decreases e, 0nat, (match e { Json::Object(ev) => if i < ev@.len() { (ev@.len() - i) as nat } else { 0 }, _ => 0 }),
{
    let ev = e->Object_0;
    let rv = r->Object_0;
    let a = vs.subrange(i as int, vs.len() as int);
    let b = ws.subrange(j as int, ws.len() as int);
    if i < ev@.len() {
        assert(a[0] == vs[i as int]);
        assert(a.subrange(1, a.len() as int) =~= vs.subrange((i + 1) as int, vs.len() as int));
        if is_non_semantic(ev@[i as int].0@) {
            lemma_stripped_entries(e, r, vs, ws, i + 1, j);
        } else {
            assert(decreases_to!(e => ev));
            assert(decreases_to!(ev => ev@));
            assert(decreases_to!(ev@ => ev@[i as int]));
            assert(decreases_to!(ev@[i as int] => ev@[i as int].1));
            lemma_stripped_view(ev@[i as int].1, rv@[j as int].1, vs[i as int].1, ws[j as int].1);
            lemma_stripped_entries(e, r, vs, ws, i + 1, j + 1);
            assert(b =~= seq![ws[j as int]] + ws.subrange((j + 1) as int, ws.len() as int));
        }
    } else {
        assert(a =~= Seq::<(Seq<char>, JsonView)>::empty());
        assert(b =~= Seq::<(Seq<char>, JsonView)>::empty());
    }
}

/// Dropping the non-semantic fields is idempotent: a tree stripped once is
/// the stripped view of the input, and stripping it again gives a tree with
/// the same view.
pub proof fn law_dropping_fields_is_idempotent(e: Json, r: Json, s: Json, u: JsonView, v: JsonView, w: JsonView)
    requires
        without_non_semantic(e, r),
        without_non_semantic(r, s),
        view_of(e, u),
        view_of(r, v),
        view_of(s, w),
    ensures
        v == strip_view(u),
        w == v,
{
    lemma_stripped_view(e, r, u, v);
    lemma_stripped_view(r, s, v, w);
    lemma_strip_view_twice(u);
}

/// No object in a stripped tree, at any depth, has a non-semantic field.
pub open spec fn has_no_non_semantic(v: JsonView) -> bool
    decreases v,
{
    match v {
        JsonView::Array(s) => forall|k: int| 0 <= k < s.len() ==> has_no_non_semantic(#[trigger] s[k]),
        JsonView::Object(s) => forall|k: int| 0 <= k < s.len() ==>
            !is_non_semantic((#[trigger] s[k]).0) && has_no_non_semantic(s[k].1),
        _ => true,
    }
}


proof fn lemma_strip_view_clean(v: JsonView)
    ensures
        has_no_non_semantic(strip_view(v)),
    decreases v,
{
    match v {
        JsonView::Array(s) => {
            lemma_strip_items_clean(s);
            let t = strip_items(s);
            assert(strip_view(v) == JsonView::Array(t));
            assert forall|k: int| 0 <= k < t.len() implies has_no_non_semantic(#[trigger] t[k]) by {}
        },
        JsonView::Object(s) => {
            lemma_strip_entries_clean(s);
            let t = strip_entries(s);
            assert(strip_view(v) == JsonView::Object(t));
            assert forall|k: int| 0 <= k < t.len() implies
                !is_non_semantic((#[trigger] t[k]).0) && has_no_non_semantic(t[k].1) by {}
        },
        _ => {},
    }
}

proof fn lemma_strip_items_clean(s: Seq<JsonView>)
    ensures
        strip_items(s).len() == s.len(),
        forall|k: int| 0 <= k < s.len() ==> has_no_non_semantic(#[trigger] strip_items(s)[k]),
    decreases s,
{
    if s.len() > 0 {
        let rest = s.subrange(1, s.len() as int);
        lemma_strip_view_clean(s[0]);
        lemma_strip_items_clean(rest);
        let t = strip_items(s);
        assert forall|k: int| 0 <= k < s.len() implies has_no_non_semantic(#[trigger] t[k]) by {
            if k > 0 {
                assert(t[k] == strip_items(rest)[k - 1]);
            }
        }
    }
}

proof fn lemma_strip_entries_clean(s: Seq<(Seq<char>, JsonView)>)
    ensures
        forall|k: int| 0 <= k < strip_entries(s).len() ==>
            !is_non_semantic((#[trigger] strip_entries(s)[k]).0) && has_no_non_semantic(strip_entries(s)[k].1),
    decreases s,
{
    if s.len() > 0 {
        let rest = s.subrange(1, s.len() as int);
        lemma_strip_entries_clean(rest);
        if is_non_semantic(s[0].0) {
            assert(strip_entries(s) == strip_entries(rest));
        } else {
            assert(decreases_to!(s[0] => s[0].1));
            lemma_strip_view_clean(s[0].1);
            let t = strip_entries(s);
            let tr = strip_entries(rest);
            assert forall|k: int| 0 <= k < t.len() implies
                !is_non_semantic((#[trigger] t[k]).0) && has_no_non_semantic(t[k].1) by {
                if k > 0 {
                    assert(t[k] == tr[k - 1]);
                }
            }
        }
    }
}

/// A tree without its non-semantic fields has none left at any depth, and
/// its view is the stripped view of the input: objects keep their other
/// entries in order, arrays their length and order, and leaves their value.
pub proof fn law_dropped_fields_are_gone(e: Json, r: Json, v: JsonView, w: JsonView)
    requires
        without_non_semantic(e, r),
        view_of(e, v),
        view_of(r, w),
    ensures
        w == strip_view(v),
        has_no_non_semantic(w),
{
    lemma_stripped_view(e, r, v, w);
    lemma_strip_view_clean(v);
}


/// The keys of a list of object entries.
pub open spec fn keys_of(s: Seq<(Seq<char>, JsonView)>) -> Seq<Seq<char>> {
    s.map_values(|p: (Seq<char>, JsonView)| p.0)
}

proof fn lemma_keys_of_cons(h: (Seq<char>, JsonView), t: Seq<(Seq<char>, JsonView)>)
    ensures
        keys_of(seq![h] + t) == seq![h.0] + keys_of(t),
{
    assert(keys_of(seq![h] + t) =~= seq![h.0] + keys_of(t));
}

proof fn lemma_strip_entries_keys(s: Seq<(Seq<char>, JsonView)>, k: Seq<char>)
    ensures
        keys_of(strip_entries(s)).contains(k) <==> (k != "loc"@ && keys_of(s).contains(k)),
    decreases s.len(),
{
    if s.len() > 0 {
        let rest = s.subrange(1, s.len() as int);
        lemma_strip_entries_keys(rest, k);
        assert(s =~= seq![s[0]] + rest);
        lemma_keys_of_cons(s[0], rest);
        let ks = keys_of(s);
        let kr = keys_of(rest);
        assert(ks =~= seq![s[0].0] + kr);
        assert(ks.contains(k) <==> (s[0].0 == k || kr.contains(k))) by {
            if ks.contains(k) {
                let j = choose|j: int| 0 <= j < ks.len() && ks[j] == k;
                if j > 0 { assert(kr[j - 1] == k); }
            }
            if kr.contains(k) {
                let j = choose|j: int| 0 <= j < kr.len() && kr[j] == k;
                assert(ks[j + 1] == k);
            }
            if s[0].0 == k { assert(ks[0] == k); }
        }
        if !is_non_semantic(s[0].0) {
            let h = (s[0].0, strip_view(s[0].1));
            let tr = strip_entries(rest);
            lemma_keys_of_cons(h, tr);
            let kt = keys_of(seq![h] + tr);
            let ktr = keys_of(tr);
            assert(kt.contains(k) <==> (h.0 == k || ktr.contains(k))) by {
                if kt.contains(k) {
                    let j = choose|j: int| 0 <= j < kt.len() && kt[j] == k;
                    if j > 0 { assert(ktr[j - 1] == k); }
                }
                if ktr.contains(k) {
                    let j = choose|j: int| 0 <= j < ktr.len() && ktr[j] == k;
                    assert(kt[j + 1] == k);
                }
                if h.0 == k { assert(kt[0] == k); }
            }
        }
    }
}

/// Canonicalization drops exactly the key `loc`: an object of the stripped
/// tree has a key exactly where the object it comes from has it and the key
/// is not `loc`, so every other key (`mode`, `type`, ...) is kept.
pub proof fn law_only_loc_is_dropped(e: Json, r: Json, v: JsonView, w: JsonView, k: Seq<char>)
    requires
        without_non_semantic(e, r),
        view_of(e, v),
        view_of(r, w),
        v is Object,
    ensures
        w is Object,
        keys_of(w->Object_0).contains(k) <==> (k != "loc"@ && keys_of(v->Object_0).contains(k)),
{
    lemma_stripped_view(e, r, v, w);
    lemma_strip_entries_keys(v->Object_0, k);
}

} // verus!
