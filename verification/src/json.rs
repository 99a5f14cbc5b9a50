use vstd::prelude::*;
use crate::text::{decimal, string_of, push_char, push_decimal_u64};

verus! {

/// A JSON value as the parse trees are compared in: null, a boolean, a
/// non-negative or a negative integer, a float (kept as the text its JSON
/// form has), a string, an array, or an object whose keys are in increasing
/// order.
#[derive(Debug, PartialEq)]
pub enum Json {
    Null,
    Bool(bool),
    PosInt(u64),
    NegInt(i64),
    Float(String),
    Str(String),
    Array(Vec<Json>),
    Object(Vec<(String, Json)>),
}

/// The order of strings: by their characters' code points, a prefix first.
pub open spec fn str_lt(a: Seq<char>, b: Seq<char>) -> bool
    decreases a.len(),
{
    if a.len() == 0 {
        b.len() > 0
    } else if b.len() == 0 {
        false
    } else if a[0] != b[0] {
        a[0] < b[0]
    } else {
        str_lt(a.drop_first(), b.drop_first())
    }
}

/// Whether `a` comes before `b` in the order of strings.
pub fn str_less(a: &str, b: &str) -> (r: bool)
    ensures
        r == str_lt(a@, b@),
{
    let x = crate::text::str_chars(a);
    let y = crate::text::str_chars(b);
    let mut i: usize = 0;
    assert(x@.skip(0) =~= x@ && y@.skip(0) =~= y@);
    while i < x.len() && i < y.len() && x[i] == y[i]
        invariant
            x@ == a@,
            y@ == b@,
            i <= x@.len(),
            i <= y@.len(),
            str_lt(a@, b@) == str_lt(x@.skip(i as int), y@.skip(i as int)),
        decreases x.len() - i,
    {
        assert(x@.skip(i as int).drop_first() =~= x@.skip(i + 1));
        assert(y@.skip(i as int).drop_first() =~= y@.skip(i + 1));
        i = i + 1;
    }
    if i == x.len() {
        i < y.len()
    } else if i == y.len() {
        false
    } else {
        x[i] < y[i]
    }
}


/// The JSON escape of one character of a string, as serde_json writes it:
/// quote and backslash escaped, control characters by name or as `\u00XX`.
pub open spec fn escape_char(c: char) -> Seq<char> {
    if c == '"' {
        "\\\""@
    } else if c == '\\' {
        "\\\\"@
    } else if c == '\u{8}' {
        "\\b"@
    } else if c == '\t' {
        "\\t"@
    } else if c == '\n' {
        "\\n"@
    } else if c == '\u{c}' {
        "\\f"@
    } else if c == '\r' {
        "\\r"@
    } else if (c as u32) < 0x20 {
        "\\u00"@ + seq![hex_digit((c as u32) / 16), hex_digit((c as u32) % 16)]
    } else {
        seq![c]
    }
}

/// A lowercase hexadecimal digit.
pub open spec fn hex_digit(d: u32) -> char {
    if d < 10 { ((d + 48) as u8) as char } else { ((d + 87) as u8) as char }
}

/// The characters of a string, escaped.
pub open spec fn escape_str(s: Seq<char>) -> Seq<char>
    decreases s.len(),
{
    if s.len() == 0 { Seq::empty() } else { escape_str(s.drop_last()) + escape_char(s.last()) }
}

/// A string in JSON: quoted and escaped.
pub open spec fn quote(s: Seq<char>) -> Seq<char> {
    "\""@ + escape_str(s) + "\""@
}

/// The compact JSON text of a value, as `serde_json::to_string` writes it.
pub open spec fn json_text(j: Json) -> Seq<char>
    decreases j, 1nat, 0nat,
{
    match j {
        Json::Null => "null"@,
        Json::Bool(b) => if b { "true"@ } else { "false"@ },
        Json::PosInt(n) => decimal(n as nat),
        Json::NegInt(n) => if n < 0 { "-"@ + decimal((-n) as nat) } else { decimal(n as nat) },
        Json::Float(t) => t@,
        Json::Str(s) => quote(s@),
        Json::Array(v) => "["@ + items_text(j, 0) + "]"@,
        Json::Object(v) => "{"@ + entries_text(j, 0) + "}"@,
    }
}

/// The elements of an array from position `i`, separated by commas.
pub open spec fn items_text(parent: Json, i: nat) -> Seq<char>
    decreases parent, 0nat, (match parent { Json::Array(v) => v@.len(), _ => 0 }) - i,
{
    match parent {
        Json::Array(v) => if i < v@.len() {
            proof {
                assert(decreases_to!(parent => v));
                assert(decreases_to!(v => v@));
                assert(decreases_to!(v@ => v@[i as int]));
            }
            (if i > 0 { ","@ } else { Seq::empty() }) + json_text(v@[i as int]) + items_text(parent, i + 1)
        } else {
            Seq::empty()
        },
        _ => Seq::empty(),
    }
}

/// The entries of an object from position `i`, as `"key":value`, separated
/// by commas.
pub open spec fn entries_text(parent: Json, i: nat) -> Seq<char>
    decreases parent, 0nat, (match parent { Json::Object(v) => v@.len(), _ => 0 }) - i,
{
    match parent {
        Json::Object(v) => if i < v@.len() {
            proof {
                assert(decreases_to!(parent => v));
                assert(decreases_to!(v => v@));
                assert(decreases_to!(v@ => v@[i as int]));
                assert(decreases_to!(v@[i as int] => v@[i as int].1));
            }
            (if i > 0 { ","@ } else { Seq::empty() }) + quote(v@[i as int].0@) + ":"@
                + json_text(v@[i as int].1) + entries_text(parent, i + 1)
        } else {
            Seq::empty()
        },
        _ => Seq::empty(),
    }
}


fn exec_hex_digit(d: u32) -> (c: char)
    requires
        d < 16,
    ensures
        c == hex_digit(d),
{
    if d < 10 { ((d + 48) as u8) as char } else { ((d + 87) as u8) as char }
}

/// Appends `s` escaped as in a JSON string.
fn push_escaped(out: &mut String, s: &str)
    ensures
        final(out)@ == old(out)@ + escape_str(s@),
{
    let cs = crate::text::str_chars(s);
    let mut i: usize = 0;
    assert(cs@.take(0) =~= Seq::<char>::empty());
    while i < cs.len()
        invariant
            cs@ == s@,
            i <= cs@.len(),
            out@ == old(out)@ + escape_str(cs@.take(i as int)),
        decreases cs.len() - i,
    {
        let c = cs[i];
        let ghost before = out@;
        if c == '"' {
            out.append("\\\"");
        } else if c == '\\' {
            out.append("\\\\");
        } else if c == '\u{8}' {
            out.append("\\b");
        } else if c == '\t' {
            out.append("\\t");
        } else if c == '\n' {
            out.append("\\n");
        } else if c == '\u{c}' {
            out.append("\\f");
        } else if c == '\r' {
            out.append("\\r");
        } else if (c as u32) < 0x20 {
            out.append("\\u00");
            push_char(out, exec_hex_digit((c as u32) / 16));
            push_char(out, exec_hex_digit((c as u32) % 16));
        } else {
            push_char(out, c);
        }
        proof {
            assert(cs@.take(i + 1).drop_last() =~= cs@.take(i as int));
            assert(out@ =~= before + escape_char(c));
        }
        i = i + 1;
    }
    assert(cs@.take(i as int) =~= cs@);
}

/// Appends `s` as a JSON string.
fn push_quoted(out: &mut String, s: &str)
    ensures
        final(out)@ == old(out)@ + quote(s@),
{
    out.append("\"");
    push_escaped(out, s);
    out.append("\"");
    assert(final(out)@ =~= old(out)@ + quote(s@));
}

/// Appends the compact JSON text of a value.
pub fn write_json(out: &mut String, j: &Json)
    ensures
        final(out)@ == old(out)@ + json_text(*j),
    decreases j,
{
    match j {
        Json::Null => {
            out.append("null");
        },
        Json::Bool(b) => if *b { out.append("true") } else { out.append("false") },
        Json::PosInt(n) => push_decimal_u64(out, *n),
        Json::NegInt(n) => {
            if *n < 0 {
                out.append("-");
                let m: i128 = -(*n as i128);
                push_decimal_u64(out, m as u64);
                assert(final(out)@ =~= old(out)@ + json_text(*j));
            } else {
                push_decimal_u64(out, *n as u64);
            }
        },
        Json::Float(t) => out.append(t.as_str()),
        Json::Str(s) => push_quoted(out, s.as_str()),
        Json::Array(v) => {
            out.append("[");
            let ghost start = out@;
            let mut i: usize = 0;
            while i < v.len()
                invariant
                    *j == Json::Array(*v),
                    i <= v@.len(),
                    out@ + items_text(*j, i as nat) == start + items_text(*j, 0),
                decreases v.len() - i,
            {
                let ghost before = out@;
                if i > 0 {
                    out.append(",");
                }
                proof {
                    assert(decreases_to!(*j => *v));
                    assert(decreases_to!(*v => v@));
                    assert(decreases_to!(v@ => v@[i as int]));
                }
                write_json(out, &v[i]);
                assert(out@ + items_text(*j, (i + 1) as nat) =~= before + items_text(*j, i as nat));
                i = i + 1;
            }
            out.append("]");
        },
        Json::Object(v) => {
            out.append("{");
            let ghost start = out@;
            let mut i: usize = 0;
            while i < v.len()
                invariant
                    *j == Json::Object(*v),
                    i <= v@.len(),
                    out@ + entries_text(*j, i as nat) == start + entries_text(*j, 0),
                decreases v.len() - i,
            {
                let ghost before = out@;
                if i > 0 {
                    out.append(",");
                }
                push_quoted(out, v[i].0.as_str());
                out.append(":");
                proof {
                    assert(decreases_to!(*j => *v));
                    assert(decreases_to!(*v => v@));
                    assert(decreases_to!(v@ => v@[i as int]));
                    assert(decreases_to!(v@[i as int] => v@[i as int].1));
                }
                write_json(out, &v[i].1);
                assert(out@ + entries_text(*j, (i + 1) as nat) =~= before + entries_text(*j, i as nat));
                i = i + 1;
            }
            out.append("}");
        },
    }
}


/// The compact JSON text of a value.
pub fn to_json_string(j: &Json) -> (r: String)
    ensures
        r@ == json_text(*j),
{
    let mut out = String::new();
    write_json(&mut out, j);
    out
}

/// Whether the keys of an object's entries, from position `i`, increase.
pub open spec fn keys_increase(v: Seq<(String, Json)>) -> bool {
    forall|a: int, b: int| 0 <= a < b < v.len() ==> str_lt(#[trigger] v[a].0@, #[trigger] v[b].0@)
}

/// Whether a value is well formed: the keys of each object increase (as in
/// the sorted maps of serde_json), and each negative integer is negative.
pub open spec fn json_wf(j: Json) -> bool
    decreases j, 1nat, 0nat,
{
    match j {
        Json::NegInt(n) => n < 0,
        Json::Array(v) => items_wf(j, 0),
        Json::Object(v) => keys_increase(v@) && entries_wf(j, 0),
        _ => true,
    }
}

pub open spec fn items_wf(parent: Json, i: nat) -> bool
    decreases parent, 0nat, (match parent { Json::Array(v) => v@.len(), _ => 0 }) - i,
{
    match parent {
        Json::Array(v) => if i < v@.len() {
            proof {
                assert(decreases_to!(parent => v));
                assert(decreases_to!(v => v@));
                assert(decreases_to!(v@ => v@[i as int]));
            }
            json_wf(v@[i as int]) && items_wf(parent, i + 1)
        } else {
            true
        },
        _ => true,
    }
}

pub open spec fn entries_wf(parent: Json, i: nat) -> bool
    decreases parent, 0nat, (match parent { Json::Object(v) => v@.len(), _ => 0 }) - i,
{
    match parent {
        Json::Object(v) => if i < v@.len() {
            proof {
                assert(decreases_to!(parent => v));
                assert(decreases_to!(v => v@));
                assert(decreases_to!(v@ => v@[i as int]));
                assert(decreases_to!(v@[i as int] => v@[i as int].1));
            }
            json_wf(v@[i as int].1) && entries_wf(parent, i + 1)
        } else {
            true
        },
        _ => true,
    }
}

/// The number of bytes of a character in UTF-8.
pub open spec fn utf8_len(c: char) -> nat {
    if (c as u32) < 0x80 { 1 } else if (c as u32) < 0x800 { 2 } else if (c as u32) < 0x10000 { 3 } else { 4 }
}

/// The number of bytes of a text in UTF-8.
pub open spec fn byte_len(t: Seq<char>) -> nat
    decreases t.len(),
{
    if t.len() == 0 { 0 } else { utf8_len(t[0]) + byte_len(t.drop_first()) }
}

/// How many characters of `t`, from the start, fit in `n` bytes.
pub open spec fn chars_within(t: Seq<char>, n: nat) -> nat
    decreases t.len(),
{
    if t.len() == 0 || utf8_len(t[0]) > n { 0 } else { 1 + chars_within(t.drop_first(), (n - utf8_len(t[0])) as nat) }
}

/// Whether a text of more than 200 bytes has a character boundary at byte
/// 200, where it is cut.
pub open spec fn truncation_ok(t: Seq<char>) -> bool {
    byte_len(t) <= 200 || byte_len(t.take(chars_within(t, 200) as int)) == 200
}

/// A text cut to its first 200 bytes, with `...` after it.
pub open spec fn truncated(t: Seq<char>) -> Seq<char> {
    if byte_len(t) > 200 { t.take(chars_within(t, 200) as int) + "..."@ } else { t }
}

fn utf8_len_exec(c: char) -> (n: usize)
    ensures
        n == utf8_len(c),
{
    if (c as u32) < 0x80 { 1 } else if (c as u32) < 0x800 { 2 } else if (c as u32) < 0x10000 { 3 } else { 4 }
}

proof fn lemma_byte_len_take(t: Seq<char>, k: int)
    requires
        0 <= k < t.len(),
    ensures
        byte_len(t.take(k + 1)) == byte_len(t.take(k)) + utf8_len(t[k]),
    decreases k,
{
    if k == 0 {
        assert(t.take(1).drop_first() =~= Seq::<char>::empty());
        assert(t.take(0) =~= Seq::<char>::empty());
    } else {
        lemma_byte_len_take(t.drop_first(), k - 1);
        assert(t.take(k + 1).drop_first() =~= t.drop_first().take(k));
        assert(t.take(k).drop_first() =~= t.drop_first().take(k - 1));
    }
}

proof fn lemma_byte_len_prefix(t: Seq<char>, m: int)
    requires
        0 <= m <= t.len(),
    ensures
        byte_len(t.take(m)) <= byte_len(t),
    decreases t.len() - m,
{
    if m < t.len() {
        lemma_byte_len_take(t, m);
        lemma_byte_len_prefix(t, m + 1);
    } else {
        assert(t.take(m) =~= t);
    }
}

/// The JSON text of a value, cut after 200 bytes.
pub fn truncate_json(value: &Json) -> (r: String)
    requires
        truncation_ok(json_text(*value)),
    ensures
        r@ == truncated(json_text(*value)),
{
    match try_truncate_json(value) {
        Some(r) => r,
        None => {
            proof {
                assert(false);
            }
            String::new()
        },
    }
}

/// The JSON text of a value, cut after 200 bytes; `None` where byte 200
/// falls inside a character, so that the text cannot be cut there.
pub fn try_truncate_json(value: &Json) -> (r: Option<String>)
    ensures
        r is Some <==> truncation_ok(json_text(*value)),
        match r {
            Some(t) => t@ == truncated(json_text(*value)),
            None => true,
        },
{
    let text = to_json_string(value);
    let cs = crate::text::str_chars(text.as_str());
    let ghost t = cs@;
    let mut bytes: usize = 0;
    let mut k: usize = 0;
    let mut over = false;
    assert(t.take(0) =~= Seq::<char>::empty());
    assert(t.skip(0) =~= t);
    if cs.len() == 0 {
        assert(t =~= t.take(0));
    }
    while k < cs.len()
        invariant_except_break
            !over,
            bytes == byte_len(t.take(k as int)),
            k == t.len() ==> byte_len(t) == bytes,
            bytes <= 200,
            chars_within(t, 200) == k + chars_within(t.skip(k as int), (200 - bytes) as nat),
        invariant
            t == cs@,
            k <= cs@.len(),
        ensures
            over ==> byte_len(t) > 200 && k == chars_within(t, 200) && bytes == byte_len(t.take(k as int)),
            !over ==> byte_len(t) <= 200,
        decreases cs.len() - k,
    {
        let n = utf8_len_exec(cs[k]);
        proof { lemma_byte_len_take(t, k as int); }
        let ghost s = t.skip(k as int);
        assert(s[0] == t[k as int]);
        if bytes + n > 200 {
            over = true;
            proof { lemma_byte_len_prefix(t, k + 1); }
            break;
        }
        assert(s.drop_first() =~= t.skip(k + 1));
        bytes = bytes + n;
        k = k + 1;
        if k == cs.len() {
            assert(t.take(k as int) =~= t);
        }
    }
    if k == cs.len() && !over {
        assert(t.take(k as int) =~= t);
    }
    if over {
        if bytes != 200 {
            return None;
        }
        let mut r = crate::text::string_from_chars(&cs, 0, k);
        r.append("...");
        assert(cs@.subrange(0, k as int) =~= t.take(k as int));
        Some(r)
    } else {
        Some(text)
    }
}


pub proof fn lemma_str_lt_total(a: Seq<char>, b: Seq<char>)
    ensures
        a != b ==> str_lt(a, b) || str_lt(b, a),
        !(str_lt(a, b) && str_lt(b, a)),
    decreases a.len(),
{
    if a.len() > 0 && b.len() > 0 && a[0] == b[0] {
        lemma_str_lt_total(a.drop_first(), b.drop_first());
        if a != b {
            assert(a.drop_first() != b.drop_first()) by {
                if a.drop_first() == b.drop_first() {
                    assert(a =~= seq![a[0]] + a.drop_first());
                    assert(b =~= seq![b[0]] + b.drop_first());
                }
            }
        }
    } else if a.len() == 0 && b.len() == 0 {
        assert(a =~= b);
    }
}

pub proof fn lemma_str_lt_trans(a: Seq<char>, b: Seq<char>, c: Seq<char>)
    requires
        str_lt(a, b),
        str_lt(b, c),
    ensures
        str_lt(a, c),
    decreases a.len(),
{
    if a.len() > 0 && b.len() > 0 && c.len() > 0 && a[0] == b[0] && b[0] == c[0] {
        lemma_str_lt_trans(a.drop_first(), b.drop_first(), c.drop_first());
    }
}

/// The value stored under a key among an object's entries, if any.
pub open spec fn entry_value(v: Seq<(String, Json)>, k: Seq<char>) -> Option<Json>
    decreases v.len(),
{
    if v.len() == 0 {
        None
    } else if v[0].0@ == k {
        Some(v[0].1)
    } else {
        entry_value(v.drop_first(), k)
    }
}


/// Sets `key` to `value` among an object's entries, keeping the keys in
/// increasing order (as a sorted map does): the entry of an equal key is
/// replaced, else a new one goes where it belongs.
pub fn object_insert(entries: &mut Vec<(String, Json)>, key: String, value: Json)
    requires
        keys_increase(old(entries)@),
    ensures
        keys_increase(final(entries)@),
        ({
            let i = insert_position(old(entries)@, key@);
            &&& 0 <= i <= old(entries)@.len()
            &&& if i < old(entries)@.len() && old(entries)@[i].0@ == key@ {
                final(entries)@ == old(entries)@.update(i, (key, value))
            } else {
                final(entries)@ == old(entries)@.insert(i, (key, value))
            }
        }),
{
    let ghost v = entries@;
    let mut i: usize = 0;
    while i < entries.len() && str_less(entries[i].0.as_str(), key.as_str())
        invariant
            entries@ == v,
            i <= v.len(),
            forall|j: int| 0 <= j < i ==> str_lt(#[trigger] v[j].0@, key@),
            insert_position(v, key@) == insert_position_from(v, key@, i as int),
        decreases entries.len() - i,
    {
        i = i + 1;
    }
    proof {
        if i < v.len() {
            lemma_str_lt_total(v[i as int].0@, key@);
        }
    }
    if i < entries.len() && crate::text::str_eq(entries[i].0.as_str(), key.as_str()) {
        let ghost k = key@;
        entries.set(i, (key, value));
        proof {
            assert forall|a: int, b: int| 0 <= a < b < entries@.len() implies
                str_lt(#[trigger] entries@[a].0@, #[trigger] entries@[b].0@) by {
                assert(entries@[i as int].0@ == v[i as int].0@);
            }
        }
    } else {
        let ghost k = key@;
        entries.insert(i, (key, value));
        proof {
            assert forall|a: int, b: int| 0 <= a < b < entries@.len() implies
                str_lt(#[trigger] entries@[a].0@, #[trigger] entries@[b].0@) by {
                if a < i && b == i {
                } else if a < i && b > i {
                    assert(entries@[b] == v[b - 1]);
                    if i < v.len() {
                        assert(str_lt(k, v[i as int].0@));
                        if b - 1 > i {
                            lemma_str_lt_trans(k, v[i as int].0@, v[b - 1].0@);
                        }
                        lemma_str_lt_trans(v[a].0@, k, v[b - 1].0@);
                    }
                } else if a == i {
                    assert(entries@[b] == v[b - 1]);
                    assert(str_lt(k, v[i as int].0@));
                    if b - 1 > i {
                        lemma_str_lt_trans(k, v[i as int].0@, v[b - 1].0@);
                    }
                } else if a > i {
                    assert(entries@[a] == v[a - 1] && entries@[b] == v[b - 1]);
                } else {
                    assert(entries@[a] == v[a] && entries@[b] == v[b]);
                }
            }
        }
    }
}

/// Where a key goes among an object's entries: before the first key that
/// is not smaller.
pub open spec fn insert_position(v: Seq<(String, Json)>, k: Seq<char>) -> int {
    insert_position_from(v, k, 0)
}

pub open spec fn insert_position_from(v: Seq<(String, Json)>, k: Seq<char>, i: int) -> int
    decreases v.len() - i,
{
    if 0 <= i < v.len() && str_lt(v[i].0@, k) { insert_position_from(v, k, i + 1) } else { i }
}

} // verus!
