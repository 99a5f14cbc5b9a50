use vstd::prelude::*;
use crate::json::{Json, json_text, truncated, truncation_ok, try_truncate_json, str_lt, str_less, json_wf, lemma_str_lt_total};
use crate::debug_spec::{JsonView, view_of, items_rel, entries_rel};
use crate::text::{decimal, string_of, concat_str, prefixed_decimal, push_decimal};

verus! {

/// One difference between an expected and an actual parse tree: where it
/// is (a path from `$`), the type of the node it is in, what it is, and the
/// JSON of the two sides (cut after 200 bytes).
#[derive(Debug)]
pub struct AstDiff {
    pub path: String,
    pub node_type: Option<String>,
    pub description: String,
    pub expected: Option<String>,
    pub actual: Option<String>,
}

/// A difference as plain values.
pub struct DiffView {
    pub path: Seq<char>,
    pub node_type: Option<Seq<char>>,
    pub description: Seq<char>,
    pub expected: Option<Seq<char>>,
    pub actual: Option<Seq<char>>,
}

pub open spec fn opt_str_view(o: Option<String>) -> Option<Seq<char>> {
    match o {
        Some(s) => Some(s@),
        None => None,
    }
}

impl View for AstDiff {
    type V = DiffView;

    open spec fn view(&self) -> DiffView {
        DiffView {
            path: self.path@,
            node_type: opt_str_view(self.node_type),
            description: self.description@,
            expected: opt_str_view(self.expected),
            actual: opt_str_view(self.actual),
        }
    }
}

pub open spec fn diffs_view(v: Seq<AstDiff>) -> Seq<DiffView> {
    v.map_values(|d: AstDiff| d@)
}

/// The `type` of an object: the string value of its `type` key, if any.
pub open spec fn object_type(v: Seq<(String, Json)>) -> Option<Seq<char>>
    decreases v.len(),
{
    if v.len() == 0 {
        None
    } else if v[0].0@ == "type"@ {
        match v[0].1 {
            Json::Str(s) => Some(s@),
            _ => None,
        }
    } else {
        object_type(v.drop_first())
    }
}

/// Whether two values that are not both objects or both arrays are equal.
pub open spec fn leaf_eq(e: Json, a: Json) -> bool {
    match (e, a) {
        (Json::Null, Json::Null) => true,
        (Json::Bool(x), Json::Bool(y)) => x == y,
        (Json::PosInt(x), Json::PosInt(y)) => x == y,
        (Json::NegInt(x), Json::NegInt(y)) => x == y,
        (Json::Float(x), Json::Float(y)) => x@ == y@,
        (Json::Str(x), Json::Str(y)) => x@ == y@,
        _ => false,
    }
}

pub open spec fn field_path(path: Seq<char>, key: Seq<char>) -> Seq<char> {
    path + "."@ + key
}

pub open spec fn index_path(path: Seq<char>, i: nat) -> Seq<char> {
    path + "["@ + decimal(i) + "]"@
}

pub open spec fn missing_diff(path: Seq<char>, nt: Option<Seq<char>>, v: Json) -> DiffView {
    DiffView { path, node_type: nt, description: "missing field in actual"@, expected: Some(truncated(json_text(v))), actual: None }
}

pub open spec fn extra_diff(path: Seq<char>, nt: Option<Seq<char>>, v: Json) -> DiffView {
    DiffView { path, node_type: nt, description: "extra field in actual"@, expected: None, actual: Some(truncated(json_text(v))) }
}

pub open spec fn length_diff(path: Seq<char>, n: nat, m: nat) -> DiffView {
    DiffView {
        path,
        node_type: None,
        description: "array length mismatch: expected "@ + decimal(n) + " vs actual "@ + decimal(m),
        expected: Some("length "@ + decimal(n)),
        actual: Some("length "@ + decimal(m)),
    }
}

pub open spec fn value_diff(path: Seq<char>, e: Json, a: Json) -> DiffView {
    DiffView {
        path,
        node_type: None,
        description: "value mismatch"@,
        expected: Some(truncated(json_text(e))),
        actual: Some(truncated(json_text(a))),
    }
}

/// The differences of an expected and an actual value at `path`, and
/// whether every text that they cut has a character boundary at its 200th
/// byte. Objects are compared key by key in the order of the keys (a key on
/// one side only is a missing or extra field), arrays element by element
/// (after a length mismatch, as far as the shorter one goes), anything else
/// by equality.
pub open spec fn spec_diff(e: Json, a: Json, path: Seq<char>) -> (Seq<DiffView>, bool)
    decreases e, 1nat, 0nat,
{
    match (e, a) {
        (Json::Object(ev), Json::Object(av)) => diff_entries(e, a, 0, 0, path, object_type(ev@)),
        (Json::Array(ev), Json::Array(av)) => {
            let head = if ev@.len() != av@.len() { seq![length_diff(path, ev@.len(), av@.len())] } else { Seq::empty() };
            let rest = diff_items(e, a, 0, path);
            (head + rest.0, rest.1)
        },
        _ => if leaf_eq(e, a) {
            (Seq::empty(), true)
        } else {
            (seq![value_diff(path, e, a)], truncation_ok(json_text(e)) && truncation_ok(json_text(a)))
        },
    }
}

/// How many entries of an object are left from position `i`.
pub open spec fn entries_left(o: Json, i: nat) -> nat {
    match o {
        Json::Object(v) => if i < v@.len() { (v@.len() - i) as nat } else { 0 },
        _ => 0,
    }
}

/// The differences of two objects' entries from positions `i` and `j`.
pub open spec fn diff_entries(e: Json, a: Json, i: nat, j: nat, path: Seq<char>, nt: Option<Seq<char>>) -> (Seq<DiffView>, bool)
    decreases e, 0nat, entries_left(e, i) + entries_left(a, j),
{
    match (e, a) {
        (Json::Object(ev), Json::Object(av)) => {
            if i >= ev@.len() && j >= av@.len() {
                (Seq::empty(), true)
            } else if i < ev@.len() && (j >= av@.len() || str_lt(ev@[i as int].0@, av@[j as int].0@)) {
                let k = ev@[i as int].0@;
                let rest = diff_entries(e, a, i + 1, j, path, nt);
                (seq![missing_diff(field_path(path, k), nt, ev@[i as int].1)] + rest.0,
                    truncation_ok(json_text(ev@[i as int].1)) && rest.1)
            } else if j < av@.len() && (i >= ev@.len() || str_lt(av@[j as int].0@, ev@[i as int].0@)) {
                let k = av@[j as int].0@;
                let rest = diff_entries(e, a, i, j + 1, path, nt);
                (seq![extra_diff(field_path(path, k), nt, av@[j as int].1)] + rest.0,
                    truncation_ok(json_text(av@[j as int].1)) && rest.1)
            } else {
                proof {
                    assert(decreases_to!(e => ev));
                    assert(decreases_to!(ev => ev@));
                    assert(decreases_to!(ev@ => ev@[i as int]));
                    assert(decreases_to!(ev@[i as int] => ev@[i as int].1));
                }
                let k = ev@[i as int].0@;
                let child = spec_diff(ev@[i as int].1, av@[j as int].1, field_path(path, k));
                let rest = diff_entries(e, a, i + 1, j + 1, path, nt);
                (child.0 + rest.0, child.1 && rest.1)
            }
        },
        _ => (Seq::empty(), true),
    }
}

/// The differences of two arrays' elements from position `i`, as far as the
/// shorter one goes.
pub open spec fn diff_items(e: Json, a: Json, i: nat, path: Seq<char>) -> (Seq<DiffView>, bool)
    decreases e, 0nat, (match e { Json::Array(ev) => if i < ev@.len() { (ev@.len() - i) as nat } else { 0 }, _ => 0 }),
{
    match (e, a) {
        (Json::Array(ev), Json::Array(av)) => {
            if i < ev@.len() && i < av@.len() {
                proof {
                    assert(decreases_to!(e => ev));
                    assert(decreases_to!(ev => ev@));
                    assert(decreases_to!(ev@ => ev@[i as int]));
                }
                let child = spec_diff(ev@[i as int], av@[i as int], index_path(path, i));
                let rest = diff_items(e, a, i + 1, path);
                (child.0 + rest.0, child.1 && rest.1)
            } else {
                (Seq::empty(), true)
            }
        },
        _ => (Seq::empty(), true),
    }
}


fn object_type_exec(v: &Vec<(String, Json)>) -> (r: Option<String>)
    ensures
        opt_str_view(r) == object_type(v@),
{
    let mut i: usize = 0;
    assert(v@.skip(0) =~= v@);
    while i < v.len()
        invariant
            i <= v@.len(),
            object_type(v@) == object_type(v@.skip(i as int)),
        decreases v.len() - i,
    {
        assert(v@.skip(i as int)[0] == v@[i as int]);
        if crate::text::str_eq(v[i].0.as_str(), "type") {
            return match &v[i].1 {
                Json::Str(s) => Some(s.clone()),
                _ => None,
            };
        }
        assert(v@.skip(i as int).drop_first() =~= v@.skip(i + 1));
        i = i + 1;
    }
    None
}

fn leaf_eq_exec(e: &Json, a: &Json) -> (b: bool)
    ensures
        b == leaf_eq(*e, *a),
{
    match (e, a) {
        (Json::Null, Json::Null) => true,
        (Json::Bool(x), Json::Bool(y)) => *x == *y,
        (Json::PosInt(x), Json::PosInt(y)) => *x == *y,
        (Json::NegInt(x), Json::NegInt(y)) => *x == *y,
        (Json::Float(x), Json::Float(y)) => crate::text::str_eq(x.as_str(), y.as_str()),
        (Json::Str(x), Json::Str(y)) => crate::text::str_eq(x.as_str(), y.as_str()),
        _ => false,
    }
}

fn push_diff(diffs: &mut Vec<AstDiff>, d: AstDiff)
    ensures
        diffs_view(final(diffs)@) == diffs_view(old(diffs)@).push(d@),
{
    diffs.push(d);
    assert(diffs_view(diffs@) =~= diffs_view(old(diffs)@).push(d@));
}

fn clone_opt(o: &Option<String>) -> (r: Option<String>)
    ensures
        opt_str_view(r) == opt_str_view(*o),
{
    match o {
        Some(s) => Some(s.clone()),
        None => None,
    }
}

/// Appends the differences of an expected and an actual value at `path`;
/// false, with nothing promised of what was appended, where a text that a
/// difference shows would have to be cut inside a character.
pub fn diff_recursive(expected: &Json, actual: &Json, path: String, diffs: &mut Vec<AstDiff>) -> (ok: bool)
    ensures
        ok == spec_diff(*expected, *actual, path@).1,
        ok ==> diffs_view(final(diffs)@) == diffs_view(old(diffs)@) + spec_diff(*expected, *actual, path@).0,
    decreases expected,
{
    match (expected, actual) {
        (Json::Object(ev), Json::Object(av)) => {
            let nt = object_type_exec(ev);
            let ghost ntv = object_type(ev@);
            let mut i: usize = 0;
            let mut j: usize = 0;
            let mut ok = true;
            assert(diffs_view(diffs@) + diff_entries(*expected, *actual, 0, 0, path@, ntv).0
                =~= diffs_view(old(diffs)@) + diff_entries(*expected, *actual, 0, 0, path@, ntv).0);
            loop
                invariant_except_break
                    ok,
                    i <= ev@.len(),
                    j <= av@.len(),
                    diff_entries(*expected, *actual, i as nat, j as nat, path@, ntv).1
                        == diff_entries(*expected, *actual, 0, 0, path@, ntv).1,
                    diffs_view(diffs@) + diff_entries(*expected, *actual, i as nat, j as nat, path@, ntv).0
                        == diffs_view(old(diffs)@) + diff_entries(*expected, *actual, 0, 0, path@, ntv).0,
                invariant
                    *expected == Json::Object(*ev),
                    *actual == Json::Object(*av),
                    opt_str_view(nt) == ntv,
                ensures
                    ok == diff_entries(*expected, *actual, 0, 0, path@, ntv).1,
                    ok ==> diffs_view(diffs@) == diffs_view(old(diffs)@) + diff_entries(*expected, *actual, 0, 0, path@, ntv).0,
                decreases (ev.len() - i) + (av.len() - j),
            {
                let ghost before = diffs_view(diffs@);
                if i >= ev.len() && j >= av.len() {
                    assert(before + Seq::<DiffView>::empty() =~= before);
                    break;
                }
                let take_expected = i < ev.len() && (j >= av.len() || str_less(ev[i].0.as_str(), av[j].0.as_str()));
                let take_actual = !take_expected && j < av.len() && (i >= ev.len() || str_less(av[j].0.as_str(), ev[i].0.as_str()));
                if take_expected {
                    let p1 = concat_str(path.as_str(), ".");
                    let child_path = concat_str(p1.as_str(), ev[i].0.as_str());
                    match try_truncate_json(&ev[i].1) {
                        Some(t) => {
                            push_diff(diffs, AstDiff {
                                path: child_path,
                                node_type: clone_opt(&nt),
                                description: string_of("missing field in actual"),
                                expected: Some(t),
                                actual: None,
                            });
                            i = i + 1;
                        },
                        None => {
                            ok = false;
                            break;
                        },
                    }
                } else if take_actual {
                    let p1 = concat_str(path.as_str(), ".");
                    let child_path = concat_str(p1.as_str(), av[j].0.as_str());
                    match try_truncate_json(&av[j].1) {
                        Some(t) => {
                            push_diff(diffs, AstDiff {
                                path: child_path,
                                node_type: clone_opt(&nt),
                                description: string_of("extra field in actual"),
                                expected: None,
                                actual: Some(t),
                            });
                            j = j + 1;
                        },
                        None => {
                            ok = false;
                            break;
                        },
                    }
                } else {
                    let p1 = concat_str(path.as_str(), ".");
                    let child_path = concat_str(p1.as_str(), ev[i].0.as_str());
                    proof {
                        assert(decreases_to!(*expected => *ev));
                        assert(decreases_to!(*ev => ev@));
                        assert(decreases_to!(ev@ => ev@[i as int]));
                        assert(decreases_to!(ev@[i as int] => ev@[i as int].1));
                    }
                    let child_ok = diff_recursive(&ev[i].1, &av[j].1, child_path, diffs);
                    if !child_ok {
                        ok = false;
                        break;
                    }
                    i = i + 1;
                    j = j + 1;
                }
            }
            ok
        },
        (Json::Array(ev), Json::Array(av)) => {
            if ev.len() != av.len() {
                let mut desc = prefixed_decimal("array length mismatch: expected ", ev.len());
                desc.append(" vs actual ");
                push_decimal(&mut desc, av.len());
                push_diff(diffs, AstDiff {
                    path: path.clone(),
                    node_type: None,
                    description: desc,
                    expected: Some(prefixed_decimal("length ", ev.len())),
                    actual: Some(prefixed_decimal("length ", av.len())),
                });
            }
            let ghost start = diffs_view(diffs@);
            let mut i: usize = 0;
            assert(start + diff_items(*expected, *actual, 0, path@).0 =~= start + diff_items(*expected, *actual, 0, path@).0);
            while i < ev.len() && i < av.len()
                invariant
                    *expected == Json::Array(*ev),
                    *actual == Json::Array(*av),
                    diff_items(*expected, *actual, i as nat, path@).1 == diff_items(*expected, *actual, 0, path@).1,
                    diffs_view(diffs@) + diff_items(*expected, *actual, i as nat, path@).0
                        == start + diff_items(*expected, *actual, 0, path@).0,
                decreases ev.len() - i,
            {
                let p1 = concat_str(path.as_str(), "[");
                let mut child_path = p1;
                push_decimal(&mut child_path, i);
                child_path.append("]");
                proof {
                    assert(decreases_to!(*expected => *ev));
                    assert(decreases_to!(*ev => ev@));
                    assert(decreases_to!(ev@ => ev@[i as int]));
                }
                let ghost before = diffs_view(diffs@);
                let child_ok = diff_recursive(&ev[i], &av[i], child_path, diffs);
                if !child_ok {
                    return false;
                }
                assert(diffs_view(diffs@) + diff_items(*expected, *actual, (i + 1) as nat, path@).0
                    =~= before + diff_items(*expected, *actual, i as nat, path@).0);
                i = i + 1;
            }
            assert(diffs_view(diffs@) =~= diffs_view(diffs@) + diff_items(*expected, *actual, i as nat, path@).0);
            true
        },
        _ => {
            if !leaf_eq_exec(expected, actual) {
                let te = match try_truncate_json(expected) { Some(t) => t, None => { return false; } };
                let ta = match try_truncate_json(actual) { Some(t) => t, None => { return false; } };
                push_diff(diffs, AstDiff {
                    path,
                    node_type: None,
                    description: string_of("value mismatch"),
                    expected: Some(te),
                    actual: Some(ta),
                });
            }
            true
        },
    }
}

/// The differences between an expected and an actual parse tree, from the
/// root `$`.
pub fn diff_ast(expected: &Json, actual: &Json) -> (r: Vec<AstDiff>)
    requires
        spec_diff(*expected, *actual, "$"@).1,
    ensures
        diffs_view(r@) == spec_diff(*expected, *actual, "$"@).0,
{
    let mut diffs: Vec<AstDiff> = Vec::new();
    diff_recursive(expected, actual, string_of("$"), &mut diffs);
    assert(diffs_view(Seq::<AstDiff>::empty()) =~= Seq::<DiffView>::empty());
    assert(diffs_view(diffs@) =~= spec_diff(*expected, *actual, "$"@).0);
    diffs
}

/// The differences between an expected and an actual parse tree, from the
/// root `$`; `None` where a text that a difference shows would have to be
/// cut inside a character.
pub fn diff_ast_checked(expected: &Json, actual: &Json) -> (r: Option<Vec<AstDiff>>)
    ensures
        r is Some <==> spec_diff(*expected, *actual, "$"@).1,
        match r {
            Some(d) => diffs_view(d@) == spec_diff(*expected, *actual, "$"@).0,
            None => true,
        },
{
    let mut diffs: Vec<AstDiff> = Vec::new();
    let ok = diff_recursive(expected, actual, string_of("$"), &mut diffs);
    if !ok {
        return None;
    }
    assert(diffs_view(Seq::<AstDiff>::empty()) =~= Seq::<DiffView>::empty());
    assert(diffs_view(diffs@) =~= spec_diff(*expected, *actual, "$"@).0);
    Some(diffs)
}

/// The text of a difference: its path, the node type if known, what it is,
/// and the two sides on lines of their own.
pub open spec fn diff_text(d: DiffView) -> Seq<char> {
    "path="@ + d.path
        + (match d.node_type { Some(t) => " node_type="@ + t, None => Seq::empty() })
        + " "@ + d.description
        + (match d.expected { Some(e) => "\n  expected: "@ + e, None => Seq::empty() })
        + (match d.actual { Some(a) => "\n  actual:   "@ + a, None => Seq::empty() })
}

impl AstDiff {
    /// The text of the difference (what its `Display` form shows).
    pub fn fmt(&self) -> (r: String)
        ensures
            r@ == diff_text(self@),
    {
        let mut r = concat_str("path=", self.path.as_str());
        match &self.node_type {
            Some(t) => {
                r.append(" node_type=");
                r.append(t.as_str());
            },
            None => {},
        }
        r.append(" ");
        r.append(self.description.as_str());
        match &self.expected {
            Some(e) => {
                r.append("\n  expected: ");
                r.append(e.as_str());
            },
            None => {},
        }
        match &self.actual {
            Some(a) => {
                r.append("\n  actual:   ");
                r.append(a.as_str());
            },
            None => {},
        }
        assert(r@ =~= diff_text(self@));
        r
    }
}

proof fn lemma_str_lt_irreflexive(a: Seq<char>)
    ensures
        !str_lt(a, a),
    decreases a.len(),
{
    if a.len() > 0 {
        lemma_str_lt_irreflexive(a.drop_first());
    }
}

proof fn lemma_diff_self(e: Json, path: Seq<char>)
    ensures
        spec_diff(e, e, path) == (Seq::<DiffView>::empty(), true),
    decreases e, 1nat, 0nat,
{
    match e {
        Json::Object(ev) => {
            lemma_entries_self(e, 0, path, object_type(ev@));
        },
        Json::Array(ev) => {
            lemma_items_self(e, 0, path);
            assert(Seq::<DiffView>::empty() + Seq::<DiffView>::empty() =~= Seq::<DiffView>::empty());
        },
        _ => {},
    }
}

proof fn lemma_entries_self(e: Json, i: nat, path: Seq<char>, nt: Option<Seq<char>>)
    ensures
        diff_entries(e, e, i, i, path, nt) == (Seq::<DiffView>::empty(), true),
    decreases e, 0nat, entries_left(e, i) + entries_left(e, i),
{
    match e {
        Json::Object(ev) => {
            if i < ev@.len() {
                lemma_str_lt_irreflexive(ev@[i as int].0@);
                assert(decreases_to!(e => ev));
                assert(decreases_to!(ev => ev@));
                assert(decreases_to!(ev@ => ev@[i as int]));
                assert(decreases_to!(ev@[i as int] => ev@[i as int].1));
                lemma_diff_self(ev@[i as int].1, field_path(path, ev@[i as int].0@));
                lemma_entries_self(e, i + 1, path, nt);
                assert(Seq::<DiffView>::empty() + Seq::<DiffView>::empty() =~= Seq::<DiffView>::empty());
            }
        },
        _ => {},
    }
}

proof fn lemma_items_self(e: Json, i: nat, path: Seq<char>)
    ensures
        diff_items(e, e, i, path) == (Seq::<DiffView>::empty(), true),
    decreases e, 0nat, (match e { Json::Array(ev) => if i < ev@.len() { (ev@.len() - i) as nat } else { 0 }, _ => 0 }),
{
    match e {
        Json::Array(ev) => {
            if i < ev@.len() {
                assert(decreases_to!(e => ev));
                assert(decreases_to!(ev => ev@));
                assert(decreases_to!(ev@ => ev@[i as int]));
                lemma_diff_self(ev@[i as int], index_path(path, i));
                lemma_items_self(e, i + 1, path);
                assert(Seq::<DiffView>::empty() + Seq::<DiffView>::empty() =~= Seq::<DiffView>::empty());
            }
        },
        _ => {},
    }
}

/// A tree compared with itself has no differences (and nothing is cut).
pub proof fn law_diff_of_same_tree_is_empty(tree: Json)
    ensures
        spec_diff(tree, tree, "$"@) == (Seq::<DiffView>::empty(), true),
{
    lemma_diff_self(tree, "$"@);
}

/// Whether two values are the same tree: objects with the same keys in the
/// same order and the same values under them, arrays of the same length with
/// the same elements, and equal leaves.
pub open spec fn same_tree(e: Json, a: Json) -> bool
    decreases e, 1nat, 0nat,
{
    match (e, a) {
        (Json::Object(_), Json::Object(_)) => same_entries(e, a, 0, 0),
        (Json::Array(ev), Json::Array(av)) => ev@.len() == av@.len() && same_items(e, a, 0),
        (Json::Object(_), _) => false,
        (Json::Array(_), _) => false,
        (_, Json::Object(_)) => false,
        (_, Json::Array(_)) => false,
        _ => leaf_eq(e, a),
    }
}

/// Whether two objects' entries from positions `i` and `j` pair up: equal
/// keys with the same values, to the end of both.
pub open spec fn same_entries(e: Json, a: Json, i: nat, j: nat) -> bool
    decreases e, 0nat, entries_left(e, i) + entries_left(a, j),
{
    match (e, a) {
        (Json::Object(ev), Json::Object(av)) => {
            if i >= ev@.len() && j >= av@.len() {
                true
            } else if i < ev@.len() && j < av@.len() && ev@[i as int].0@ == av@[j as int].0@ {
                proof {
                    assert(decreases_to!(e => ev));
                    assert(decreases_to!(ev => ev@));
                    assert(decreases_to!(ev@ => ev@[i as int]));
                    assert(decreases_to!(ev@[i as int] => ev@[i as int].1));
                }
                same_tree(ev@[i as int].1, av@[j as int].1) && same_entries(e, a, i + 1, j + 1)
            } else {
                false
            }
        },
        _ => true,
    }
}

/// Whether two arrays' elements from position `i` on are the same trees, as
/// far as the shorter one goes.
pub open spec fn same_items(e: Json, a: Json, i: nat) -> bool
    decreases e, 0nat, (match e { Json::Array(ev) => if i < ev@.len() { (ev@.len() - i) as nat } else { 0 }, _ => 0 }),
{
    match (e, a) {
        (Json::Array(ev), Json::Array(av)) => {
            if i < ev@.len() && i < av@.len() {
                proof {
                    assert(decreases_to!(e => ev));
                    assert(decreases_to!(ev => ev@));
                    assert(decreases_to!(ev@ => ev@[i as int]));
                }
                same_tree(ev@[i as int], av@[i as int]) && same_items(e, a, i + 1)
            } else {
                true
            }
        },
        _ => true,
    }
}

/// The paths of a list of differences, in order.
pub open spec fn diff_paths(d: Seq<DiffView>) -> Seq<Seq<char>> {
    d.map_values(|x: DiffView| x.path)
}

proof fn lemma_diff_paths_add(a: Seq<DiffView>, b: Seq<DiffView>)
    ensures
        diff_paths(a + b) == diff_paths(a) + diff_paths(b),
{
    assert(diff_paths(a + b) =~= diff_paths(a) + diff_paths(b));
}

proof fn lemma_diff_empty_iff_same(e: Json, a: Json, path: Seq<char>)
    ensures
        (spec_diff(e, a, path).0.len() == 0) == same_tree(e, a),
    decreases e, 1nat, 0nat,
{
    match (e, a) {
        (Json::Object(_), Json::Object(_)) => {
            lemma_entries_empty_iff_same(e, a, 0, 0, path, object_type(match e { Json::Object(ev) => ev@, _ => Seq::empty() }));
        },
        (Json::Array(ev), Json::Array(av)) => {
            lemma_items_empty_iff_same(e, a, 0, path);
        },
        _ => {},
    }
}

proof fn lemma_entries_empty_iff_same(e: Json, a: Json, i: nat, j: nat, path: Seq<char>, nt: Option<Seq<char>>)
    ensures
        (diff_entries(e, a, i, j, path, nt).0.len() == 0) == same_entries(e, a, i, j),
    decreases e, 0nat, entries_left(e, i) + entries_left(a, j),
{
    match (e, a) {
        (Json::Object(ev), Json::Object(av)) => {
            if i >= ev@.len() && j >= av@.len() {
            } else if i < ev@.len() && (j >= av@.len() || str_lt(ev@[i as int].0@, av@[j as int].0@)) {
                if j < av@.len() {
                    lemma_str_lt_irreflexive(ev@[i as int].0@);
                }
            } else if j < av@.len() && (i >= ev@.len() || str_lt(av@[j as int].0@, ev@[i as int].0@)) {
                if i < ev@.len() {
                    lemma_str_lt_irreflexive(av@[j as int].0@);
                }
            } else {
                lemma_str_lt_total(ev@[i as int].0@, av@[j as int].0@);
                assert(decreases_to!(e => ev));
                assert(decreases_to!(ev => ev@));
                assert(decreases_to!(ev@ => ev@[i as int]));
                assert(decreases_to!(ev@[i as int] => ev@[i as int].1));
                let k = ev@[i as int].0@;
                lemma_diff_empty_iff_same(ev@[i as int].1, av@[j as int].1, field_path(path, k));
                lemma_entries_empty_iff_same(e, a, i + 1, j + 1, path, nt);
            }
        },
        _ => {},
    }
}

proof fn lemma_items_empty_iff_same(e: Json, a: Json, i: nat, path: Seq<char>)
    ensures
        (diff_items(e, a, i, path).0.len() == 0) == same_items(e, a, i),
    decreases e, 0nat, (match e { Json::Array(ev) => if i < ev@.len() { (ev@.len() - i) as nat } else { 0 }, _ => 0 }),
{
    match (e, a) {
        (Json::Array(ev), Json::Array(av)) => {
            if i < ev@.len() && i < av@.len() {
                assert(decreases_to!(e => ev));
                assert(decreases_to!(ev => ev@));
                assert(decreases_to!(ev@ => ev@[i as int]));
                lemma_diff_empty_iff_same(ev@[i as int], av@[i as int], index_path(path, i));
                lemma_items_empty_iff_same(e, a, i + 1, path);
            }
        },
        _ => {},
    }
}

proof fn lemma_diff_paths_symmetric(e: Json, a: Json, path: Seq<char>)
    ensures
        diff_paths(spec_diff(e, a, path).0) == diff_paths(spec_diff(a, e, path).0),
    decreases e, 1nat, 0nat,
{
    match (e, a) {
        (Json::Object(ev), Json::Object(av)) => {
            lemma_entries_paths_symmetric(e, a, 0, 0, path, object_type(ev@), object_type(av@));
        },
        (Json::Array(ev), Json::Array(av)) => {
            lemma_items_paths_symmetric(e, a, 0, path);
            let h1: Seq<DiffView> = if ev@.len() != av@.len() { seq![length_diff(path, ev@.len(), av@.len())] } else { Seq::empty() };
            let h2: Seq<DiffView> = if ev@.len() != av@.len() { seq![length_diff(path, av@.len(), ev@.len())] } else { Seq::empty() };
            lemma_diff_paths_add(h1, diff_items(e, a, 0, path).0);
            lemma_diff_paths_add(h2, diff_items(a, e, 0, path).0);
            assert(diff_paths(h1) =~= diff_paths(h2));
        },
        _ => {
            assert(leaf_eq(e, a) == leaf_eq(a, e));
            assert(diff_paths(spec_diff(e, a, path).0) =~= diff_paths(spec_diff(a, e, path).0));
        },
    }
}

proof fn lemma_entries_paths_symmetric(e: Json, a: Json, i: nat, j: nat, path: Seq<char>, nt: Option<Seq<char>>, nt2: Option<Seq<char>>)
    ensures
        diff_paths(diff_entries(e, a, i, j, path, nt).0) == diff_paths(diff_entries(a, e, j, i, path, nt2).0),
    decreases e, 0nat, entries_left(e, i) + entries_left(a, j),
{
    match (e, a) {
        (Json::Object(ev), Json::Object(av)) => {
            if i >= ev@.len() && j >= av@.len() {
            } else if i < ev@.len() && (j >= av@.len() || str_lt(ev@[i as int].0@, av@[j as int].0@)) {
                if j < av@.len() {
                    lemma_str_lt_total(ev@[i as int].0@, av@[j as int].0@);
                }
                let k = ev@[i as int].0@;
                lemma_entries_paths_symmetric(e, a, i + 1, j, path, nt, nt2);
                lemma_diff_paths_add(seq![missing_diff(field_path(path, k), nt, ev@[i as int].1)], diff_entries(e, a, i + 1, j, path, nt).0);
                lemma_diff_paths_add(seq![extra_diff(field_path(path, k), nt2, ev@[i as int].1)], diff_entries(a, e, j, i + 1, path, nt2).0);
                assert(diff_paths(seq![missing_diff(field_path(path, k), nt, ev@[i as int].1)])
                    =~= diff_paths(seq![extra_diff(field_path(path, k), nt2, ev@[i as int].1)]));
            } else if j < av@.len() && (i >= ev@.len() || str_lt(av@[j as int].0@, ev@[i as int].0@)) {
                if i < ev@.len() {
                    lemma_str_lt_total(ev@[i as int].0@, av@[j as int].0@);
                }
                let k = av@[j as int].0@;
                lemma_entries_paths_symmetric(e, a, i, j + 1, path, nt, nt2);
                lemma_diff_paths_add(seq![extra_diff(field_path(path, k), nt, av@[j as int].1)], diff_entries(e, a, i, j + 1, path, nt).0);
                lemma_diff_paths_add(seq![missing_diff(field_path(path, k), nt2, av@[j as int].1)], diff_entries(a, e, j + 1, i, path, nt2).0);
                assert(diff_paths(seq![extra_diff(field_path(path, k), nt, av@[j as int].1)])
                    =~= diff_paths(seq![missing_diff(field_path(path, k), nt2, av@[j as int].1)]));
            } else {
                lemma_str_lt_total(ev@[i as int].0@, av@[j as int].0@);
                assert(decreases_to!(e => ev));
                assert(decreases_to!(ev => ev@));
                assert(decreases_to!(ev@ => ev@[i as int]));
                assert(decreases_to!(ev@[i as int] => ev@[i as int].1));
                let k = ev@[i as int].0@;
                lemma_diff_paths_symmetric(ev@[i as int].1, av@[j as int].1, field_path(path, k));
                lemma_entries_paths_symmetric(e, a, i + 1, j + 1, path, nt, nt2);
                lemma_diff_paths_add(spec_diff(ev@[i as int].1, av@[j as int].1, field_path(path, k)).0, diff_entries(e, a, i + 1, j + 1, path, nt).0);
                lemma_diff_paths_add(spec_diff(av@[j as int].1, ev@[i as int].1, field_path(path, k)).0, diff_entries(a, e, j + 1, i + 1, path, nt2).0);
            }
        },
        _ => {},
    }
}

proof fn lemma_items_paths_symmetric(e: Json, a: Json, i: nat, path: Seq<char>)
    ensures
        diff_paths(diff_items(e, a, i, path).0) == diff_paths(diff_items(a, e, i, path).0),
    decreases e, 0nat, (match e { Json::Array(ev) => if i < ev@.len() { (ev@.len() - i) as nat } else { 0 }, _ => 0 }),
{
    match (e, a) {
        (Json::Array(ev), Json::Array(av)) => {
            if i < ev@.len() && i < av@.len() {
                assert(decreases_to!(e => ev));
                assert(decreases_to!(ev => ev@));
                assert(decreases_to!(ev@ => ev@[i as int]));
                lemma_diff_paths_symmetric(ev@[i as int], av@[i as int], index_path(path, i));
                lemma_items_paths_symmetric(e, a, i + 1, path);
                lemma_diff_paths_add(spec_diff(ev@[i as int], av@[i as int], index_path(path, i)).0, diff_items(e, a, i + 1, path).0);
                lemma_diff_paths_add(spec_diff(av@[i as int], ev@[i as int], index_path(path, i)).0, diff_items(a, e, i + 1, path).0);
            }
        },
        _ => {},
    }
}

/// Two trees have no differences exactly when they are the same tree; and
/// comparing them either way round reports differences at the same paths,
/// in the same order (a field missing one way is an extra field the other
/// way, and a value or length mismatch is reported at the same place).
pub proof fn law_diff_empty_iff_same_and_symmetric(e: Json, a: Json)
    ensures
        (spec_diff(e, a, "$"@).0.len() == 0) == same_tree(e, a),
        diff_paths(spec_diff(e, a, "$"@).0) == diff_paths(spec_diff(a, e, "$"@).0),
{
    lemma_diff_empty_iff_same(e, a, "$"@);
    lemma_diff_paths_symmetric(e, a, "$"@);
}

proof fn lemma_same_iff_views(e: Json, a: Json, v: JsonView, w: JsonView)
    requires
        view_of(e, v),
        view_of(a, w),
    ensures
        same_tree(e, a) == (v == w),
    decreases e, 1nat, 0nat,
{
    match (e, a) {
        (Json::Object(ev), Json::Object(av)) => {
            let sv = v->Object_0;
            let sw = w->Object_0;
            lemma_same_entries_views(e, a, sv, sw, 0);
            if sv == sw {
                assert(ev@.len() == av@.len());
            } else {
                if ev@.len() == av@.len() {
                    assert(!(forall|k: int| 0 <= k < ev@.len() ==> sv[k] == sw[k])) by {
                        if forall|k: int| 0 <= k < ev@.len() ==> sv[k] == sw[k] {
                            assert(sv =~= sw);
                        }
                    }
                }
            }
        },
        (Json::Array(ev), Json::Array(av)) => {
            let sv = v->Array_0;
            let sw = w->Array_0;
            lemma_same_items_views(e, a, sv, sw, 0);
            if ev@.len() == av@.len() {
                if forall|k: int| 0 <= k < ev@.len() ==> sv[k] == sw[k] {
                    assert(sv =~= sw);
                }
            }
        },
        _ => {},
    }
}

proof fn lemma_same_entries_views(e: Json, a: Json, sv: Seq<(Seq<char>, JsonView)>, sw: Seq<(Seq<char>, JsonView)>, i: nat)
    requires
        e matches Json::Object(ev) && ev@.len() == sv.len() && i <= ev@.len(),
        a matches Json::Object(av) && av@.len() == sw.len() && i <= av@.len(),
        entries_rel(e, sv, i),
        entries_rel(a, sw, i),
    ensures
        same_entries(e, a, i, i) == (sv.len() == sw.len() && forall|k: int| i <= k < sv.len() ==> sv[k] == sw[k]),
    decreases e, 0nat, entries_left(e, i) + entries_left(a, i),
{
    match (e, a) {
        (Json::Object(ev), Json::Object(av)) => {
            if i < ev@.len() && i < av@.len() {
                assert(decreases_to!(e => ev));
                assert(decreases_to!(ev => ev@));
                assert(decreases_to!(ev@ => ev@[i as int]));
                assert(decreases_to!(ev@[i as int] => ev@[i as int].1));
                lemma_same_iff_views(ev@[i as int].1, av@[i as int].1, sv[i as int].1, sw[i as int].1);
                lemma_same_entries_views(e, a, sv, sw, i + 1);
                if sv.len() == sw.len() && (forall|k: int| i + 1 <= k < sv.len() ==> sv[k] == sw[k]) && sv[i as int] == sw[i as int] {
                    assert forall|k: int| i <= k < sv.len() implies sv[k] == sw[k] by {
                        if k > i {}
                    }
                }
            }
        },
        _ => {},
    }
}

proof fn lemma_same_items_views(e: Json, a: Json, sv: Seq<JsonView>, sw: Seq<JsonView>, i: nat)
    requires
        e matches Json::Array(ev) && ev@.len() == sv.len() && i <= ev@.len(),
        a matches Json::Array(av) && av@.len() == sw.len() && i <= av@.len(),
        items_rel(e, sv, i),
        items_rel(a, sw, i),
    ensures
        sv.len() == sw.len() ==> (same_items(e, a, i) == forall|k: int| i <= k < sv.len() ==> sv[k] == sw[k]),
    decreases e, 0nat, (match e { Json::Array(ev) => if i < ev@.len() { (ev@.len() - i) as nat } else { 0 }, _ => 0 }),
{
    match (e, a) {
        (Json::Array(ev), Json::Array(av)) => {
            if i < ev@.len() && i < av@.len() {
                assert(decreases_to!(e => ev));
                assert(decreases_to!(ev => ev@));
                assert(decreases_to!(ev@ => ev@[i as int]));
                lemma_same_iff_views(ev@[i as int], av@[i as int], sv[i as int], sw[i as int]);
                lemma_same_items_views(e, a, sv, sw, i + 1);
                if sv.len() == sw.len() && (forall|k: int| i + 1 <= k < sv.len() ==> sv[k] == sw[k]) && sv[i as int] == sw[i as int] {
                    assert forall|k: int| i <= k < sv.len() implies sv[k] == sw[k] by {
                        if k > i {}
                    }
                }
            }
        },
        _ => {},
    }
}

/// Two values have no differences exactly when they are equal: when their
/// views (their texts as character sequences) are the same.
pub proof fn law_diff_empty_iff_equal(e: Json, a: Json, v: JsonView, w: JsonView)
    requires
        view_of(e, v),
        view_of(a, w),
    ensures
        (spec_diff(e, a, "$"@).0.len() == 0) == (v == w),
{
    lemma_diff_empty_iff_same(e, a, "$"@);
    lemma_same_iff_views(e, a, v, w);
}

} // verus!
