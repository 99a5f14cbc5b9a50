use vstd::prelude::*;
use crate::json::{Json, str_lt};
use crate::text::{is_digit, parses_unsigned, digits_value, unsigned_digits, seq_starts_with};
use crate::debug_parser::{
    is_space, is_ident_char, run_end, lemma_run_end, scan_string, number_end, is_number_json, lemma_scan_string, lemma_number_end,
    looks_fractional, float_ok, i64_value, hyphenated,
};

verus! {

/// A JSON value with its texts as character sequences.
pub enum JsonView {
    Null,
    Bool(bool),
    PosInt(u64),
    NegInt(i64),
    Float(Seq<char>),
    Str(Seq<char>),
    Array(Seq<JsonView>),
    Object(Seq<(Seq<char>, JsonView)>),
}

/// `v` is the view of `j`.
pub open spec fn view_of(j: Json, v: JsonView) -> bool
    decreases j, 1nat, 0nat,
{
    match j {
        Json::Null => v == JsonView::Null,
        Json::Bool(b) => v == JsonView::Bool(b),
        Json::PosInt(n) => v == JsonView::PosInt(n),
        Json::NegInt(n) => v == JsonView::NegInt(n),
        Json::Float(f) => v == JsonView::Float(f@),
        Json::Str(s) => v == JsonView::Str(s@),
        Json::Array(a) => match v {
            JsonView::Array(s) => a@.len() == s.len() && items_rel(j, s, 0),
            _ => false,
        },
        Json::Object(e) => match v {
            JsonView::Object(s) => e@.len() == s.len() && entries_rel(j, s, 0),
            _ => false,
        },
    }
}

/// The items of the array `j` from the `i`-th on have the views `s`.
pub open spec fn items_rel(j: Json, s: Seq<JsonView>, i: nat) -> bool
    decreases j, 0nat, match j { Json::Array(a) => if i < a@.len() { (a@.len() - i) as nat } else { 0nat }, _ => 0nat },
{
    match j {
        Json::Array(a) => if i < a@.len() {
            proof {
                assert(decreases_to!(j => a));
                assert(decreases_to!(a => a@));
                assert(decreases_to!(a@ => a@[i as int]));
            }
            view_of(a@[i as int], s[i as int]) && items_rel(j, s, i + 1)
        } else {
            true
        },
        _ => true,
    }
}

/// The entries of the object `j` from the `i`-th on have the views `s`.
pub open spec fn entries_rel(j: Json, s: Seq<(Seq<char>, JsonView)>, i: nat) -> bool
    decreases j, 0nat, match j { Json::Object(e) => if i < e@.len() { (e@.len() - i) as nat } else { 0nat }, _ => 0nat },
{
    match j {
        Json::Object(e) => if i < e@.len() {
            proof {
                assert(decreases_to!(j => e));
                assert(decreases_to!(e => e@));
                assert(decreases_to!(e@ => e@[i as int]));
                assert(decreases_to!(e@[i as int] => e@[i as int].1));
            }
            e@[i as int].0@ == s[i as int].0 && view_of(e@[i as int].1, s[i as int].1) && entries_rel(j, s, i + 1)
        } else {
            true
        },
        _ => true,
    }
}

pub proof fn lemma_items_rel(a: Vec<Json>, s: Seq<JsonView>, i: nat)
    requires
        a@.len() == s.len(),
        i <= a@.len(),
        forall|k: int| i <= k < a@.len() ==> view_of(#[trigger] a@[k], s[k]),
    ensures
        items_rel(Json::Array(a), s, i),
    decreases a@.len() - i,
{
    if i < a@.len() {
        lemma_items_rel(a, s, i + 1);
    }
}

pub proof fn lemma_entries_rel(e: Vec<(String, Json)>, s: Seq<(Seq<char>, JsonView)>, i: nat)
    requires
        e@.len() == s.len(),
        i <= e@.len(),
        forall|k: int| i <= k < e@.len() ==> (#[trigger] e@[k]).0@ == s[k].0 && view_of(e@[k].1, s[k].1),
    ensures
        entries_rel(Json::Object(e), s, i),
    decreases e@.len() - i,
{
    if i < e@.len() {
        lemma_entries_rel(e, s, i + 1);
    }
}

/// The view of a number's text, as `is_number_json` reads it.
pub open spec fn number_view(t: Seq<char>) -> JsonView {
    if looks_fractional(t) && float_ok(t) {
        JsonView::Float(t)
    } else if i64_value(t) is Some {
        let v = i64_value(t)->0;
        if v >= 0 { JsonView::PosInt(v as u64) } else { JsonView::NegInt(v as i64) }
    } else if parses_unsigned(t, 0xFFFF_FFFF_FFFF_FFFF) {
        JsonView::PosInt(digits_value(unsigned_digits(t)) as u64)
    } else {
        JsonView::Str(t)
    }
}

pub proof fn lemma_number_view(r: Json, t: Seq<char>)
    requires
        is_number_json(r, t),
    ensures
        view_of(r, number_view(t)),
{
}

/// Where the spaces from `p` end.
pub open spec fn ws(t: Seq<char>, p: int) -> int {
    run_end(t, p, |c: char| is_space(c))
}

/// Where the identifier at `p` ends.
pub open spec fn ident_end(t: Seq<char>, p: int) -> int {
    run_end(t, p, |c: char| is_ident_char(c))
}

/// Where an object's entries with increasing keys take the key `k`.
pub open spec fn view_position(s: Seq<(Seq<char>, JsonView)>, k: Seq<char>, i: int) -> int
    decreases s.len() - i,
{
    if 0 <= i < s.len() && str_lt(s[i].0, k) { view_position(s, k, i + 1) } else { i }
}

/// An object's entries with `k` set to `v`: the entry with the key replaced,
/// or a new one where the key belongs.
pub open spec fn view_insert(s: Seq<(Seq<char>, JsonView)>, k: Seq<char>, v: JsonView) -> Seq<(Seq<char>, JsonView)> {
    let i = view_position(s, k, 0);
    if 0 <= i < s.len() && s[i].0 == k { s.update(i, (k, v)) } else { s.insert(i, (k, v)) }
}

/// The value that the text from `p` reads as, and where the reading stops:
/// after spaces, an array, a string, a number, `true`, `false`, `None`
/// (null), `Some(..)` (the value inside), or a struct or enum variant; null
/// at the end of the text.
pub open spec fn sv_value(t: Seq<char>, p: int) -> (JsonView, int)
    decreases t.len() - p, 1nat,
{
    if p < 0 || p > t.len() {
        (JsonView::Null, p)
    } else {
        let p1 = ws(t, p);
        proof {
            lemma_run_end(t, p, |c: char| is_space(c));
        }
        if p1 >= t.len() {
            (JsonView::Null, p1)
        } else if t[p1] == '[' {
            sv_array(t, p1)
        } else if t[p1] == '"' {
            let r = scan_string(t, p1 + 1);
            (JsonView::Str(r.0), r.1)
        } else if is_digit(t[p1]) || t[p1] == '-' {
            let e = number_end(t, p1, p1);
            (number_view(t.subrange(p1, e)), e)
        } else if seq_starts_with(t.skip(p1), "true"@) {
            (JsonView::Bool(true), p1 + 4)
        } else if seq_starts_with(t.skip(p1), "false"@) {
            (JsonView::Bool(false), p1 + 5)
        } else if seq_starts_with(t.skip(p1), "None"@) {
            (JsonView::Null, p1 + 4)
        } else if seq_starts_with(t.skip(p1), "Some("@) {
            proof {
                reveal_strlit("Some(");
            }
            let inner = sv_value(t, p1 + 5);
            let p3 = ws(t, inner.1);
            (inner.0, if 0 <= p3 < t.len() && t[p3] == ')' { p3 + 1 } else { p3 })
        } else {
            sv_struct(t, p1)
        }
    }
}

/// The values of a list (an array's or a tuple variant's), from `q`, after
/// the values `acc`: separated by commas, up to `close`; the list also ends
/// at the end of the text, or before a value that cannot be read.
pub open spec fn sv_items(t: Seq<char>, q: int, acc: Seq<JsonView>, close: char) -> (Seq<JsonView>, int)
    decreases t.len() - q, 2nat,
{
    if q < 0 || q > t.len() {
        (acc, q)
    } else {
        let p1 = ws(t, q);
        proof {
            lemma_run_end(t, q, |c: char| is_space(c));
        }
        if p1 < t.len() && t[p1] == close {
            (acc, p1 + 1)
        } else {
            let p2 = if acc.len() > 0 && p1 < t.len() && t[p1] == ',' { p1 + 1 } else { p1 };
            let p3 = ws(t, p2);
            proof {
                lemma_run_end(t, p2, |c: char| is_space(c));
            }
            if p3 < t.len() && t[p3] == close {
                (acc, p3 + 1)
            } else if p3 >= t.len() {
                (acc, p3)
            } else {
                let item = sv_value(t, p3);
                if item.1 <= p3 || item.1 > t.len() {
                    (acc, p3)
                } else {
                    sv_items(t, item.1, acc.push(item.0), close)
                }
            }
        }
    }
}

/// The array whose `[` is at `p`, and where the reading stops.
pub open spec fn sv_array(t: Seq<char>, p: int) -> (JsonView, int)
    decreases t.len() - p, 0nat,
{
    if p < 0 || p >= t.len() {
        (JsonView::Array(Seq::empty()), p)
    } else {
        let r = sv_items(t, p + 1, Seq::empty(), ']');
        (JsonView::Array(r.0), r.1)
    }
}

/// The fields of a struct, from `q`, after the entries `acc`: names with
/// values, separated by commas, up to `}`; a character that cannot start a
/// name is passed over; the fields also end at the end of the text.
pub open spec fn sv_fields(t: Seq<char>, q: int, acc: Seq<(Seq<char>, JsonView)>) -> (Seq<(Seq<char>, JsonView)>, int)
    decreases t.len() - q, 2nat,
{
    if q < 0 || q > t.len() {
        (acc, q)
    } else {
        let p1 = ws(t, q);
        proof {
            lemma_run_end(t, q, |c: char| is_space(c));
        }
        if p1 < t.len() && t[p1] == '}' {
            (acc, p1 + 1)
        } else {
            let p2 = if acc.len() > 0 && p1 < t.len() && t[p1] == ',' { p1 + 1 } else { p1 };
            let p3 = ws(t, p2);
            proof {
                lemma_run_end(t, p2, |c: char| is_space(c));
            }
            if p3 < t.len() && t[p3] == '}' {
                (acc, p3 + 1)
            } else if p3 >= t.len() {
                (acc, p3)
            } else {
                let e = ident_end(t, p3);
                proof {
                    lemma_run_end(t, p3, |c: char| is_ident_char(c));
                }
                if e == p3 {
                    sv_fields(t, p3 + 1, acc)
                } else {
                    let name = t.subrange(p3, e);
                    let p4 = ws(t, e);
                    proof {
                        lemma_run_end(t, e, |c: char| is_space(c));
                    }
                    let p5 = if p4 < t.len() && t[p4] == ':' { p4 + 1 } else { p4 };
                    let p6 = ws(t, p5);
                    proof {
                        lemma_run_end(t, p5, |c: char| is_space(c));
                    }
                    let item = sv_value(t, p6);
                    if item.1 <= q || item.1 > t.len() {
                        (view_insert(acc, name, item.0), item.1)
                    } else {
                        sv_fields(t, item.1, view_insert(acc, name, item.0))
                    }
                }
            }
        }
    }
}

/// A struct (`name { field: value, .. }`, an object with the name,
/// hyphenated, as its `type`), a tuple variant (`name(..)`, an object with
/// the name as its one key, holding the one value or the array of values),
/// or a bare name (a string), read from `p`; and where the reading stops.
pub open spec fn sv_struct(t: Seq<char>, p: int) -> (JsonView, int)
    decreases t.len() - p, 0nat,
{
    if p < 0 || p > t.len() {
        (JsonView::Null, p)
    } else {
        let e = ident_end(t, p);
        proof {
            lemma_run_end(t, p, |c: char| is_ident_char(c));
        }
        let name = t.subrange(p, e);
        let p1 = ws(t, e);
        proof {
            lemma_run_end(t, e, |c: char| is_space(c));
        }
        if p1 < t.len() && t[p1] == '{' {
            let r = sv_fields(t, p1 + 1, seq![("type"@, JsonView::Str(hyphenated(name)))]);
            (JsonView::Object(r.0), r.1)
        } else if p1 < t.len() && t[p1] == '(' {
            let r = sv_items(t, p1 + 1, Seq::empty(), ')');
            let value = if r.0.len() == 1 { r.0[0] } else { JsonView::Array(r.0) };
            (JsonView::Object(seq![(name, value)]), r.1)
        } else {
            (JsonView::Str(name), p1)
        }
    }
}

pub proof fn lemma_value_bounds(t: Seq<char>, p: int)
    requires
        0 <= p <= t.len(),
    ensures
        p <= sv_value(t, p).1 <= t.len(),
    decreases t.len() - p, 1nat,
{
    let p1 = ws(t, p);
    lemma_run_end(t, p, |c: char| is_space(c));
    reveal_strlit("true");
    reveal_strlit("false");
    reveal_strlit("None");
    reveal_strlit("Some(");
    if p1 < t.len() {
        if t[p1] == '[' {
            lemma_array_bounds(t, p1);
        } else if t[p1] == '"' {
            lemma_scan_string(t, p1 + 1);
        } else if is_digit(t[p1]) || t[p1] == '-' {
            lemma_number_end(t, p1, p1);
        } else if seq_starts_with(t.skip(p1), "true"@) {
        } else if seq_starts_with(t.skip(p1), "false"@) {
        } else if seq_starts_with(t.skip(p1), "None"@) {
        } else if seq_starts_with(t.skip(p1), "Some("@) {
            lemma_value_bounds(t, p1 + 5);
            lemma_run_end(t, sv_value(t, p1 + 5).1, |c: char| is_space(c));
        } else {
            lemma_struct_bounds(t, p1);
        }
    }
}

pub proof fn lemma_items_bounds(t: Seq<char>, q: int, acc: Seq<JsonView>, close: char)
    requires
        0 <= q <= t.len(),
    ensures
        q <= sv_items(t, q, acc, close).1 <= t.len(),
    decreases t.len() - q, 2nat,
{
    let p1 = ws(t, q);
    lemma_run_end(t, q, |c: char| is_space(c));
    if !(p1 < t.len() && t[p1] == close) {
        let p2 = if acc.len() > 0 && p1 < t.len() && t[p1] == ',' { p1 + 1 } else { p1 };
        let p3 = ws(t, p2);
        lemma_run_end(t, p2, |c: char| is_space(c));
        if !(p3 < t.len() && t[p3] == close) && p3 < t.len() {
            lemma_value_bounds(t, p3);
            let item = sv_value(t, p3);
            if !(item.1 <= p3 || item.1 > t.len()) {
                lemma_items_bounds(t, item.1, acc.push(item.0), close);
            }
        }
    }
}

pub proof fn lemma_array_bounds(t: Seq<char>, p: int)
    requires
        0 <= p < t.len(),
    ensures
        p < sv_array(t, p).1 <= t.len(),
    decreases t.len() - p, 0nat,
{
    lemma_items_bounds(t, p + 1, Seq::empty(), ']');
}

pub proof fn lemma_fields_bounds(t: Seq<char>, q: int, acc: Seq<(Seq<char>, JsonView)>)
    requires
        0 <= q <= t.len(),
    ensures
        q <= sv_fields(t, q, acc).1 <= t.len(),
    decreases t.len() - q, 2nat,
{
    let p1 = ws(t, q);
    lemma_run_end(t, q, |c: char| is_space(c));
    if !(p1 < t.len() && t[p1] == '}') {
        let p2 = if acc.len() > 0 && p1 < t.len() && t[p1] == ',' { p1 + 1 } else { p1 };
        let p3 = ws(t, p2);
        lemma_run_end(t, p2, |c: char| is_space(c));
        if !(p3 < t.len() && t[p3] == '}') && p3 < t.len() {
            let e = ident_end(t, p3);
            lemma_run_end(t, p3, |c: char| is_ident_char(c));
            if e == p3 {
                lemma_fields_bounds(t, p3 + 1, acc);
            } else {
                let p4 = ws(t, e);
                lemma_run_end(t, e, |c: char| is_space(c));
                let p5 = if p4 < t.len() && t[p4] == ':' { p4 + 1 } else { p4 };
                let p6 = ws(t, p5);
                lemma_run_end(t, p5, |c: char| is_space(c));
                lemma_value_bounds(t, p6);
                let item = sv_value(t, p6);
                if !(item.1 <= q || item.1 > t.len()) {
                    lemma_fields_bounds(t, item.1, view_insert(acc, t.subrange(p3, e), item.0));
                }
            }
        }
    }
}

pub proof fn lemma_struct_bounds(t: Seq<char>, p: int)
    requires
        0 <= p <= t.len(),
    ensures
        p <= sv_struct(t, p).1 <= t.len(),
    decreases t.len() - p, 0nat,
{
    let e = ident_end(t, p);
    lemma_run_end(t, p, |c: char| is_ident_char(c));
    let p1 = ws(t, e);
    lemma_run_end(t, e, |c: char| is_space(c));
    let name = t.subrange(p, e);
    if p1 < t.len() && t[p1] == '{' {
        lemma_fields_bounds(t, p1 + 1, seq![("type"@, JsonView::Str(hyphenated(name)))]);
    } else if p1 < t.len() && t[p1] == '(' {
        lemma_items_bounds(t, p1 + 1, Seq::empty(), ')');
    }
}

} // verus!
