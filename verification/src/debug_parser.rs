use vstd::prelude::*;
use crate::json::{Json, str_lt};
use crate::debug_spec::{
    JsonView, view_of, sv_value, sv_array, sv_items, sv_struct, sv_fields, view_insert, view_position,
    lemma_number_view, lemma_items_rel, lemma_entries_rel, lemma_value_bounds,
};
use crate::text::{
    str_chars, string_from_chars, string_of, push_char, is_digit, parse_unsigned, parses_unsigned,
    digits_value, unsigned_digits,
};

verus! {

/// A reader of the `{:?}` form of a parse tree, which turns it into JSON.
#[derive(Debug)]
pub struct DebugParser {
    input: Vec<char>,
    pos: usize,
}

/// The space characters that separate items.
pub open spec fn is_space(c: char) -> bool {
    c == ' ' || c == '\n' || c == '\r' || c == '\t'
}

/// The characters of an identifier: ASCII letters and digits, and `_`.
pub open spec fn is_ident_char(c: char) -> bool {
    ('a' <= c && c <= 'z') || ('A' <= c && c <= 'Z') || ('0' <= c && c <= '9') || c == '_'
}

/// Where the run of characters from `i` for which `p` holds ends.
pub open spec fn run_end(s: Seq<char>, i: int, p: spec_fn(char) -> bool) -> int
    decreases s.len() - i,
{
    if 0 <= i < s.len() && p(s[i]) { run_end(s, i + 1, p) } else { i }
}

pub proof fn lemma_run_end(s: Seq<char>, i: int, p: spec_fn(char) -> bool)
    requires
        0 <= i <= s.len(),
    ensures
        i <= run_end(s, i, p) <= s.len(),
        forall|k: int| i <= k < run_end(s, i, p) ==> p(#[trigger] s[k]),
        run_end(s, i, p) < s.len() ==> !p(s[run_end(s, i, p)]),
    decreases s.len() - i,
{
    if i < s.len() && p(s[i]) {
        lemma_run_end(s, i + 1, p);
    }
}

fn ident_char(c: char) -> (b: bool)
    ensures
        b == is_ident_char(c),
{
    ('a' <= c && c <= 'z') || ('A' <= c && c <= 'Z') || ('0' <= c && c <= '9') || c == '_'
}

impl DebugParser {
    /// The characters being read.
    pub closed spec fn text(&self) -> Seq<char> {
        self.input@
    }

    /// How far the reading has got.
    pub closed spec fn position(&self) -> int {
        self.pos as int
    }

    pub closed spec fn wf(&self) -> bool {
        self.pos <= self.input@.len()
    }

    /// A reader at the start of `input`.
    pub fn new(input: &str) -> (p: DebugParser)
        ensures
            p.wf(),
            p.text() == input@,
            p.position() == 0,
    {
        DebugParser { input: str_chars(input), pos: 0 }
    }

    /// The text not yet read.
    pub fn remaining(&self) -> (r: String)
        requires
            self.wf(),
        ensures
            r@ == self.text().skip(self.position()),
    {
        let r = string_from_chars(&self.input, self.pos, self.input.len());
        assert(self.input@.subrange(self.pos as int, self.input@.len() as int) =~= self.input@.skip(self.pos as int));
        r
    }

    /// Reads spaces, tabs and line breaks.
    pub fn skip_whitespace(&mut self)
        requires
            old(self).wf(),
        ensures
            final(self).wf(),
            final(self).text() == old(self).text(),
            final(self).position() == run_end(old(self).text(), old(self).position(), |c: char| is_space(c)),
            old(self).position() <= final(self).position(),
    {
        proof { lemma_run_end(self.input@, self.pos as int, |c: char| is_space(c)); }
        while self.pos < self.input.len() && (self.input[self.pos] == ' ' || self.input[self.pos] == '\n'
            || self.input[self.pos] == '\r' || self.input[self.pos] == '\t')
            invariant
                self.input@ == old(self).input@,
                old(self).pos <= self.pos <= self.input@.len(),
                run_end(self.input@, self.pos as int, |c: char| is_space(c))
                    == run_end(self.input@, old(self).pos as int, |c: char| is_space(c)),
            decreases self.input.len() - self.pos,
        {
            self.pos = self.pos + 1;
        }
    }

    /// The next character, if any, left in place.
    pub fn peek(&self) -> (r: Option<char>)
        requires
            self.wf(),
        ensures
            self.position() < self.text().len() ==> r == Some(self.text()[self.position()]),
            self.position() >= self.text().len() ==> r is None,
    {
        if self.pos < self.input.len() { Some(self.input[self.pos]) } else { None }
    }

    /// Reads the next character, if any.
    pub fn consume_char(&mut self) -> (r: Option<char>)
        requires
            old(self).wf(),
        ensures
            final(self).wf(),
            final(self).text() == old(self).text(),
            old(self).position() < old(self).text().len() ==> r == Some(old(self).text()[old(self).position()])
                && final(self).position() == old(self).position() + 1,
            old(self).position() >= old(self).text().len() ==> r is None && final(self).position() == old(self).position(),
    {
        if self.pos < self.input.len() {
            let c = self.input[self.pos];
            self.pos = self.pos + 1;
            Some(c)
        } else {
            None
        }
    }

    /// Whether the text not yet read begins with `prefix`.
    pub fn starts_with(&self, prefix: &str) -> (b: bool)
        requires
            self.wf(),
        ensures
            b == crate::text::seq_starts_with(self.text().skip(self.position()), prefix@),
    {
        let p = str_chars(prefix);
        let rest = self.input.len() - self.pos;
        if p.len() > rest {
            return false;
        }
        let mut i: usize = 0;
        while i < p.len()
            invariant
                self.wf(),
                p@ == prefix@,
                p.len() <= self.input.len() - self.pos,
                i <= p@.len(),
                forall|k: int| 0 <= k < i ==> self.input@[self.pos + k] == p@[k],
            decreases p.len() - i,
        {
            if self.input[self.pos + i] != p[i] {
                assert(self.input@.skip(self.pos as int).take(p@.len() as int)[i as int] != p@[i as int]);
                return false;
            }
            i = i + 1;
        }
        assert(self.input@.skip(self.pos as int).take(p@.len() as int) =~= p@);
        true
    }

    /// Reads an identifier: the run of ASCII letters, digits and `_`.
    pub fn parse_identifier(&mut self) -> (r: String)
        requires
            old(self).wf(),
        ensures
            final(self).wf(),
            final(self).text() == old(self).text(),
            final(self).position() == run_end(old(self).text(), old(self).position(), |c: char| is_ident_char(c)),
            old(self).position() <= final(self).position(),
            r@ == old(self).text().subrange(old(self).position(), final(self).position()),
    {
        let start = self.pos;
        proof { lemma_run_end(self.input@, self.pos as int, |c: char| is_ident_char(c)); }
        while self.pos < self.input.len() && ident_char(self.input[self.pos])
            invariant
                self.input@ == old(self).input@,
                start == old(self).pos,
                start <= self.pos <= self.input@.len(),
                run_end(self.input@, self.pos as int, |c: char| is_ident_char(c))
                    == run_end(self.input@, start as int, |c: char| is_ident_char(c)),
            decreases self.input.len() - self.pos,
        {
            self.pos = self.pos + 1;
        }
        string_from_chars(&self.input, start, self.pos)
    }
}


/// What an escape `\d` in a string stands for: the named character, or the
/// backslash and the character as they are.
pub open spec fn unescape(d: char) -> Seq<char> {
    if d == '"' { seq!['"'] }
    else if d == '\\' { seq!['\\'] }
    else if d == 'n' { seq!['\n'] }
    else if d == 't' { seq!['\t'] }
    else if d == 'r' { seq!['\r'] }
    else { seq!['\\', d] }
}

/// The characters of a quoted string whose text starts at `i`, and where
/// the reading stops: after the closing quote, or at the end of the input.
pub open spec fn scan_string(s: Seq<char>, i: int) -> (Seq<char>, int)
    decreases s.len() - i,
{
    if i < 0 || i >= s.len() {
        (Seq::empty(), i)
    } else if s[i] == '\\' {
        if i + 1 >= s.len() {
            (Seq::empty(), i + 1)
        } else {
            let (rest, j) = scan_string(s, i + 2);
            (unescape(s[i + 1]) + rest, j)
        }
    } else if s[i] == '"' {
        (Seq::empty(), i + 1)
    } else {
        let (rest, j) = scan_string(s, i + 1);
        (seq![s[i]] + rest, j)
    }
}

pub proof fn lemma_scan_string(s: Seq<char>, i: int)
    requires
        0 <= i <= s.len(),
    ensures
        i <= scan_string(s, i).1 <= s.len(),
    decreases s.len() - i,
{
    if i < s.len() {
        if s[i] == '\\' {
            if i + 1 < s.len() {
                lemma_scan_string(s, i + 2);
            }
        } else if s[i] != '"' {
            lemma_scan_string(s, i + 1);
        }
    }
}

/// The characters a number may be written with.
pub open spec fn is_number_char(c: char) -> bool {
    is_digit(c) || c == '.' || c == 'e' || c == 'E' || c == '+' || c == '-'
}

/// Where a number that starts at `start` ends, reading from `i`: a sign is
/// part of it only right after an exponent mark.
pub open spec fn number_end(s: Seq<char>, start: int, i: int) -> int
    decreases s.len() - i,
{
    if 0 <= i < s.len() && is_number_char(s[i])
        && !((s[i] == '+' || s[i] == '-') && i > start && !(s[i - 1] == 'e' || s[i - 1] == 'E')) {
        number_end(s, start, i + 1)
    } else {
        i
    }
}

pub proof fn lemma_number_end(s: Seq<char>, start: int, i: int)
    requires
        0 <= i <= s.len(),
    ensures
        i <= number_end(s, start, i) <= s.len(),
    decreases s.len() - i,
{
    if 0 <= i < s.len() && is_number_char(s[i])
        && !((s[i] == '+' || s[i] == '-') && i > start && !(s[i - 1] == 'e' || s[i - 1] == 'E')) {
        lemma_number_end(s, start, i + 1);
    }
}

pub open spec fn all_digit_chars(t: Seq<char>) -> bool {
    forall|k: int| 0 <= k < t.len() ==> is_digit(#[trigger] t[k])
}

/// A mantissa: digits with at most one point, and at least one digit.
pub open spec fn mantissa_ok(m: Seq<char>) -> bool {
    &&& forall|k: int| 0 <= k < m.len() ==> is_digit(#[trigger] m[k]) || m[k] == '.'
    &&& forall|a: int, b: int| 0 <= a < b < m.len() ==> !(#[trigger] m[a] == '.' && #[trigger] m[b] == '.')
    &&& exists|k: int| 0 <= k < m.len() && is_digit(#[trigger] m[k])
}

/// An exponent after its mark: an optional sign, then at least one digit.
pub open spec fn exponent_ok(x: Seq<char>) -> bool {
    let d = if x.len() > 0 && (x[0] == '+' || x[0] == '-') { x.skip(1) } else { x };
    d.len() > 0 && all_digit_chars(d)
}

/// Where the first exponent mark of `b` is (its length if there is none).
pub open spec fn exp_mark(b: Seq<char>, i: int) -> int
    decreases b.len() - i,
{
    if 0 <= i < b.len() && !(b[i] == 'e' || b[i] == 'E') { exp_mark(b, i + 1) } else { i }
}

/// Whether `t` is a decimal float as `f64::from_str` reads one: an optional
/// sign, digits with at most one point (at least one digit), and an
/// optional exponent (`e` or `E`, an optional sign, digits).
pub open spec fn float_ok(t: Seq<char>) -> bool {
    let b = if t.len() > 0 && (t[0] == '+' || t[0] == '-') { t.skip(1) } else { t };
    let k = exp_mark(b, 0);
    mantissa_ok(b.take(k)) && (k >= b.len() || exponent_ok(b.skip(k + 1)))
}

/// Whether `t` holds a point or an exponent mark.
pub open spec fn looks_fractional(t: Seq<char>) -> bool {
    t.contains('.') || t.contains('e') || t.contains('E')
}

/// The value of `t` as `i64::from_str` reads it, if it reads it.
pub open spec fn i64_value(t: Seq<char>) -> Option<int> {
    if t.len() > 0 && t[0] == '-' {
        if t.len() > 1 && all_digit_chars(t.skip(1)) && digits_value(t.skip(1)) <= 0x8000_0000_0000_0000 {
            Some(-(digits_value(t.skip(1)) as int))
        } else {
            None
        }
    } else if parses_unsigned(t, 0x7FFF_FFFF_FFFF_FFFF) {
        Some(digits_value(unsigned_digits(t)) as int)
    } else {
        None
    }
}

/// The JSON value of a number's text: a float where it holds a point or an
/// exponent and reads as one; else an integer where it reads as an `i64`
/// (or, non-negative, as a `u64`); else the text as a string.
pub open spec fn is_number_json(r: Json, t: Seq<char>) -> bool {
    if looks_fractional(t) && float_ok(t) {
        r matches Json::Float(f) && f@ == t
    } else if i64_value(t) is Some {
        let v = i64_value(t)->0;
        if v >= 0 { r == Json::PosInt(v as u64) } else { r == Json::NegInt(v as i64) }
    } else if parses_unsigned(t, 0xFFFF_FFFF_FFFF_FFFF) {
        r == Json::PosInt(digits_value(unsigned_digits(t)) as u64)
    } else {
        r matches Json::Str(x) && x@ == t
    }
}


fn is_digit_exec(c: char) -> (b: bool)
    ensures
        b == is_digit(c),
{
    '0' <= c && c <= '9'
}

/// Whether `t[lo..hi]` is a mantissa.
fn mantissa_ok_exec(t: &Vec<char>, lo: usize, hi: usize) -> (b: bool)
    requires
        lo <= hi <= t@.len(),
    ensures
        b == mantissa_ok(t@.subrange(lo as int, hi as int)),
{
    let ghost m = t@.subrange(lo as int, hi as int);
    let mut i = lo;
    let mut dot = false;
    let mut digit = false;
    while i < hi
        invariant
            lo <= i <= hi <= t@.len(),
            m == t@.subrange(lo as int, hi as int),
            forall|k: int| 0 <= k < i - lo ==> is_digit(#[trigger] m[k]) || m[k] == '.',
            forall|a: int, c: int| 0 <= a < c < i - lo ==> !(#[trigger] m[a] == '.' && #[trigger] m[c] == '.'),
            dot <==> exists|k: int| 0 <= k < i - lo && #[trigger] m[k] == '.',
            digit <==> exists|k: int| 0 <= k < i - lo && is_digit(#[trigger] m[k]),
        decreases hi - i,
    {
        let c = t[i];
        assert(m[i - lo] == c);
        if c == '.' {
            if dot {
                proof {
                    let k = choose|k: int| 0 <= k < i - lo && #[trigger] m[k] == '.';
                    assert(m[k] == '.' && m[i - lo] == '.');
                }
                return false;
            }
            dot = true;
        } else if is_digit_exec(c) {
            digit = true;
        } else {
            assert(!(is_digit(m[i - lo]) || m[i - lo] == '.'));
            return false;
        }
        i = i + 1;
    }
    digit
}

/// Whether `t[lo..hi]` is an exponent after its mark.
fn exponent_ok_exec(t: &Vec<char>, lo: usize, hi: usize) -> (b: bool)
    requires
        lo <= hi <= t@.len(),
    ensures
        b == exponent_ok(t@.subrange(lo as int, hi as int)),
{
    let ghost x = t@.subrange(lo as int, hi as int);
    let mut i = lo;
    if i < hi && (t[i] == '+' || t[i] == '-') {
        i = i + 1;
        assert(x.skip(1) =~= t@.subrange(i as int, hi as int));
    } else {
        assert(x =~= t@.subrange(i as int, hi as int));
    }
    if i >= hi {
        return false;
    }
    let start = i;
    assert(exponent_ok(x) == (hi > start && all_digit_chars(t@.subrange(start as int, hi as int))));
    while i < hi
        invariant
            start <= i <= hi <= t@.len(),
            x == t@.subrange(lo as int, hi as int),
            exponent_ok(x) == (hi > start && all_digit_chars(t@.subrange(start as int, hi as int))),
            forall|k: int| start <= k < i ==> is_digit(#[trigger] t@[k]),
        decreases hi - i,
    {
        if !is_digit_exec(t[i]) {
            assert(t@.subrange(start as int, hi as int)[i - start] == t@[i as int]);
            return false;
        }
        i = i + 1;
    }
    assert(all_digit_chars(t@.subrange(start as int, hi as int)));
    true
}

/// Whether the text is a float as `f64::from_str` reads one.
fn float_ok_exec(t: &Vec<char>) -> (b: bool)
    ensures
        b == float_ok(t@),
{
    let lo: usize = if t.len() > 0 && (t[0] == '+' || t[0] == '-') { 1 } else { 0 };
    let ghost bseq = if t@.len() > 0 && (t@[0] == '+' || t@[0] == '-') { t@.skip(1) } else { t@ };
    assert(bseq =~= t@.subrange(lo as int, t@.len() as int));
    let mut k = lo;
    assert(bseq.skip(0) =~= bseq);
    while k < t.len() && !(t[k] == 'e' || t[k] == 'E')
        invariant
            lo <= k <= t@.len(),
            bseq == t@.subrange(lo as int, t@.len() as int),
            exp_mark(bseq, 0) == exp_mark(bseq, k - lo),
        decreases t.len() - k,
    {
        k = k + 1;
    }
    assert(bseq.take(k - lo) =~= t@.subrange(lo as int, k as int));
    if !mantissa_ok_exec(t, lo, k) {
        return false;
    }
    if k >= t.len() {
        return true;
    }
    assert(bseq.skip(k - lo + 1) =~= t@.subrange(k + 1, t@.len() as int));
    exponent_ok_exec(t, k + 1, t.len())
}

fn has_char(t: &Vec<char>, c: char) -> (b: bool)
    ensures
        b == t@.contains(c),
{
    let mut i: usize = 0;
    while i < t.len()
        invariant
            i <= t@.len(),
            forall|k: int| 0 <= k < i ==> t@[k] != c,
        decreases t.len() - i,
    {
        if t[i] == c {
            assert(t@[i as int] == c);
            return true;
        }
        i = i + 1;
    }
    false
}

/// The JSON value of a number's text.
fn number_json(t: &Vec<char>) -> (r: Json)
    ensures
        is_number_json(r, t@),
{
    let text = string_from_chars(t, 0, t.len());
    assert(t@.subrange(0, t@.len() as int) =~= t@);
    if (has_char(t, '.') || has_char(t, 'e') || has_char(t, 'E')) && float_ok_exec(t) {
        return Json::Float(text);
    }
    if t.len() > 0 && t[0] == '-' {
        let rest = string_from_chars(t, 1, t.len());
        assert(t@.subrange(1, t@.len() as int) =~= t@.skip(1));
        if t.len() > 1 {
            match parse_unsigned(rest.as_str(), 0x8000_0000_0000_0000) {
                Some(v) => {
                    if t[1] != '+' {
                        assert(rest@[0] == t@[1]);
                        proof {
                            assert(unsigned_digits(rest@) == rest@);
                            assert forall|k: int| 0 <= k < rest@.len() implies is_digit(#[trigger] rest@[k]) by {
                                assert(crate::text::all_digits(unsigned_digits(rest@)));
                            }
                        }
                        if v == 0 {
                            return Json::PosInt(0);
                        }
                        let n: i64 = if v == 0x8000_0000_0000_0000 { i64::MIN } else { -(v as i64) };
                        return Json::NegInt(n);
                    }
                },
                None => {},
            }
        }
        proof {
            assert(!is_digit('-'));
            assert(unsigned_digits(t@) == t@);
            assert(!crate::text::all_digits(unsigned_digits(t@)) || unsigned_digits(t@)[0] != '-');
        }
        return Json::Str(text);
    }
    match parse_unsigned(text.as_str(), 0xFFFF_FFFF_FFFF_FFFF) {
        Some(v) => Json::PosInt(v),
        None => Json::Str(text),
    }
}


/// The name of a node type in JSON: its underscores written as hyphens.
pub open spec fn hyphenated(name: Seq<char>) -> Seq<char> {
    name.map_values(|c: char| if c == '_' { '-' } else { c })
}

fn hyphenate(name: &String) -> (r: String)
    ensures
        r@ == hyphenated(name@),
{
    let cs = str_chars(name.as_str());
    let mut r = String::new();
    let mut i: usize = 0;
    while i < cs.len()
        invariant
            cs@ == name@,
            i <= cs@.len(),
            r@ == hyphenated(cs@.take(i as int)),
        decreases cs.len() - i,
    {
        let c = cs[i];
        push_char(&mut r, if c == '_' { '-' } else { c });
        i = i + 1;
        assert(r@ =~= hyphenated(cs@.take(i as int)));
    }
    assert(cs@.take(i as int) =~= cs@);
    r
}

impl DebugParser {
    /// Reads a quoted string (the reader is at its opening quote): `\"`,
    /// `\\`, `\n`, `\t` and `\r` stand for their characters, any other
    /// escape for itself; the string ends at the closing quote or at the end
    /// of the input.
    pub fn parse_string(&mut self) -> (r: Json)
        requires
            old(self).wf(),
        ensures
            final(self).wf(),
            final(self).text() == old(self).text(),
            ({
                let i0 = if old(self).position() < old(self).text().len() { old(self).position() + 1 } else { old(self).position() };
                &&& r matches Json::Str(s) && s@ == scan_string(old(self).text(), i0).0
                &&& final(self).position() == scan_string(old(self).text(), i0).1
            }),
            old(self).position() <= final(self).position(),
    {
        self.consume_char();
        let ghost i0 = self.pos as int;
        let ghost t = self.input@;
        let mut result = String::new();
        proof { lemma_scan_string(t, i0); }
        assert(result@ + scan_string(t, i0).0 =~= scan_string(t, i0).0);
        loop
            invariant_except_break
                result@ + scan_string(t, self.pos as int).0 == scan_string(t, i0).0,
                scan_string(t, self.pos as int).1 == scan_string(t, i0).1,
            invariant
                self.input@ == t,
                self.wf(),
                i0 <= self.pos,
            ensures
                self.input@ == t,
                self.wf(),
                result@ == scan_string(t, i0).0,
                self.pos == scan_string(t, i0).1,
            decreases self.input.len() - self.pos,
        {
            let p = self.pos;
            proof { lemma_scan_string(t, p as int); }
            match self.consume_char() {
                Some(c) => {
                    if c == '\\' {
                        match self.consume_char() {
                            Some(d) => {
                                let ghost before = result@;
                                if d == '"' {
                                    push_char(&mut result, '"');
                                } else if d == '\\' {
                                    push_char(&mut result, '\\');
                                } else if d == 'n' {
                                    push_char(&mut result, '\n');
                                } else if d == 't' {
                                    push_char(&mut result, '\t');
                                } else if d == 'r' {
                                    push_char(&mut result, '\r');
                                } else {
                                    push_char(&mut result, '\\');
                                    push_char(&mut result, d);
                                }
                                assert(result@ =~= before + unescape(d));
                                assert(result@ + scan_string(t, self.pos as int).0 =~= before + scan_string(t, p as int).0);
                            },
                            None => {
                                assert(scan_string(t, p as int).0 =~= Seq::<char>::empty());
                                assert(result@ =~= result@ + scan_string(t, p as int).0);
                                break;
                            },
                        }
                    } else if c == '"' {
                        assert(result@ =~= result@ + scan_string(t, p as int).0);
                        break;
                    } else {
                        let ghost before = result@;
                        push_char(&mut result, c);
                        assert(result@ + scan_string(t, self.pos as int).0 =~= before + scan_string(t, p as int).0);
                    }
                },
                None => {
                    assert(result@ =~= result@ + scan_string(t, p as int).0);
                    break;
                },
            }
        }
        Json::Str(result)
    }

    /// Reads a number (the reader is at its first character, a digit or
    /// `-`): the characters of a number, where a sign only follows an
    /// exponent mark, and their JSON value.
    pub fn parse_number(&mut self) -> (r: Json)
        requires
            old(self).wf(),
        ensures
            final(self).wf(),
            final(self).text() == old(self).text(),
            final(self).position() == number_end(old(self).text(), old(self).position(), old(self).position()),
            old(self).position() <= final(self).position(),
            is_number_json(r, old(self).text().subrange(old(self).position(), final(self).position())),
    {
        let start = self.pos;
        proof { lemma_number_end(self.input@, start as int, start as int); }
        while self.pos < self.input.len()
            invariant
                self.input@ == old(self).input@,
                start == old(self).pos,
                start <= self.pos <= self.input@.len(),
                number_end(self.input@, start as int, self.pos as int) == number_end(self.input@, start as int, start as int),
            ensures
                self.input@ == old(self).input@,
                start <= self.pos <= self.input@.len(),
                self.pos == number_end(self.input@, start as int, start as int),
            decreases self.input.len() - self.pos,
        {
            let c = self.input[self.pos];
            let sign = c == '+' || c == '-';
            if !(is_digit_exec(c) || c == '.' || c == 'e' || c == 'E' || sign) {
                break;
            }
            if sign && self.pos > start {
                let prev = self.input[self.pos - 1];
                if prev != 'e' && prev != 'E' {
                    break;
                }
            }
            self.pos = self.pos + 1;
        }
        let ghost text = self.input@.subrange(start as int, self.pos as int);
        let mut num: Vec<char> = Vec::new();
        let mut k = start;
        while k < self.pos
            invariant
                start <= k <= self.pos <= self.input@.len(),
                num@ == self.input@.subrange(start as int, k as int),
            decreases self.pos - k,
        {
            num.push(self.input[k]);
            k = k + 1;
            assert(num@ =~= self.input@.subrange(start as int, k as int));
        }
        number_json(&num)
    }
}


impl DebugParser {
    /// Reads a value: after spaces, an array, a string, a number, `true`,
    /// `false`, `None` (null), `Some(..)` (the value inside), or a struct
    /// or enum variant; null at the end of the input.
    pub fn parse_value(&mut self) -> (r: Json)
        requires
            old(self).wf(),
        ensures
            final(self).wf(),
            final(self).text() == old(self).text(),
            view_of(r, sv_value(old(self).text(), old(self).position()).0),
            final(self).position() == sv_value(old(self).text(), old(self).position()).1,
        decreases old(self).text().len() - old(self).position(), 1nat,
    {
        let ghost t = self.input@;
        let ghost p = self.pos as int;
        proof {
            reveal_strlit("true");
            reveal_strlit("false");
            reveal_strlit("None");
            reveal_strlit("Some(");
        }
        self.skip_whitespace();
        if self.pos >= self.input.len() {
            return Json::Null;
        }
        let c = self.input[self.pos];
        if c == '[' {
            self.parse_array()
        } else if c == '"' {
            self.parse_string()
        } else if is_digit_exec(c) || c == '-' {
            let start = self.pos;
            let r = self.parse_number();
            proof {
                lemma_number_view(r, t.subrange(start as int, self.pos as int));
            }
            r
        } else if self.starts_with("true") {
            self.pos = self.pos + 4;
            Json::Bool(true)
        } else if self.starts_with("false") {
            self.pos = self.pos + 5;
            Json::Bool(false)
        } else if self.starts_with("None") {
            self.pos = self.pos + 4;
            Json::Null
        } else if self.starts_with("Some(") {
            self.pos = self.pos + 5;
            let val = self.parse_value();
            self.skip_whitespace();
            if self.pos < self.input.len() && self.input[self.pos] == ')' {
                self.pos = self.pos + 1;
            }
            val
        } else {
            self.parse_struct_or_enum()
        }
    }

    /// Reads an array (the reader is at its `[`): values separated by
    /// commas, up to `]`. It also ends at the end of the input, or before an
    /// element that cannot be read.
    pub fn parse_array(&mut self) -> (r: Json)
        requires
            old(self).wf(),
            old(self).position() < old(self).text().len(),
        ensures
            final(self).wf(),
            final(self).text() == old(self).text(),
            view_of(r, sv_array(old(self).text(), old(self).position()).0),
            final(self).position() == sv_array(old(self).text(), old(self).position()).1,
        decreases old(self).text().len() - old(self).position(), 0nat,
    {
        let ghost t = self.input@;
        let start = self.pos;
        assert(self.pos < self.input.len());
        self.pos = self.pos + 1;
        let (items, Ghost(acc)) = self.parse_list(']');
        proof {
            lemma_items_rel(items, acc, 0);
        }
        Json::Array(items)
    }

    /// Reads the values of a list up to `close`, separated by commas.
    fn parse_list(&mut self, close: char) -> (r: (Vec<Json>, Ghost<Seq<JsonView>>))
        requires
            old(self).wf(),
        ensures
            final(self).wf(),
            final(self).text() == old(self).text(),
            r.0@.len() == r.1@.len(),
            forall|k: int| 0 <= k < r.0@.len() ==> view_of(#[trigger] r.0@[k], r.1@[k]),
            r.1@ == sv_items(old(self).text(), old(self).position(), Seq::empty(), close).0,
            final(self).position() == sv_items(old(self).text(), old(self).position(), Seq::empty(), close).1,
        decreases old(self).text().len() - old(self).position(), 2nat,
    {
        let ghost t = self.input@;
        let ghost res = sv_items(t, self.pos as int, Seq::empty(), close);
        let ghost mut acc: Seq<JsonView> = Seq::empty();
        let mut items: Vec<Json> = Vec::new();
        loop
            invariant_except_break
                sv_items(t, self.pos as int, acc, close) == res,
            invariant
                self.wf(),
                self.input@ == t,
                t == old(self).text(),
                old(self).position() <= self.pos,
                res == sv_items(t, old(self).position(), Seq::empty(), close),
                items@.len() == acc.len(),
                forall|k: int| 0 <= k < items@.len() ==> view_of(#[trigger] items@[k], acc[k]),
            ensures
                acc == res.0,
                self.pos == res.1,
            decreases self.input.len() - self.pos,
        {
            let ghost q = self.pos as int;
            proof {
                lemma_run_end(t, q, |c: char| is_space(c));
            }
            self.skip_whitespace();
            if self.pos < self.input.len() && self.input[self.pos] == close {
                self.pos = self.pos + 1;
                break;
            }
            if items.len() > 0 && self.pos < self.input.len() && self.input[self.pos] == ',' {
                self.pos = self.pos + 1;
            }
            self.skip_whitespace();
            if self.pos < self.input.len() && self.input[self.pos] == close {
                self.pos = self.pos + 1;
                break;
            }
            if self.pos >= self.input.len() {
                break;
            }
            let before = self.pos;
            proof {
                lemma_value_bounds(t, before as int);
            }
            let item = self.parse_value();
            if self.pos == before {
                break;
            }
            let ghost iv = sv_value(t, before as int).0;
            let ghost prior = items@;
            items.push(item);
            proof {
                acc = acc.push(iv);
                assert forall|k: int| 0 <= k < items@.len() implies view_of(#[trigger] items@[k], acc[k]) by {
                    if k < items@.len() - 1 {
                        assert(items@[k] == prior[k]);
                    }
                }
            }
        }
        (items, Ghost(acc))
    }

    /// Reads a struct (`name { field: value, .. }`, an object with the name,
    /// hyphenated, as its `type`), a tuple variant (`name(..)`, an object
    /// with the name as its one key, holding the one value or the array of
    /// values), or a bare name (a string).
    pub fn parse_struct_or_enum(&mut self) -> (r: Json)
        requires
            old(self).wf(),
        ensures
            final(self).wf(),
            final(self).text() == old(self).text(),
            view_of(r, sv_struct(old(self).text(), old(self).position()).0),
            final(self).position() == sv_struct(old(self).text(), old(self).position()).1,
        decreases old(self).text().len() - old(self).position(), 0nat,
    {
        let ghost t = self.input@;
        let ghost p = self.pos as int;
        proof {
            lemma_run_end(t, p, |c: char| is_ident_char(c));
        }
        let name = self.parse_identifier();
        proof {
            lemma_run_end(t, self.pos as int, |c: char| is_space(c));
        }
        self.skip_whitespace();
        if self.pos < self.input.len() && self.input[self.pos] == '{' {
            self.pos = self.pos + 1;
            let mut map: Vec<(String, Json)> = Vec::new();
            let tname = hyphenate(&name);
            let ghost tv = tname@;
            crate::json::object_insert(&mut map, string_of("type"), Json::Str(tname));
            proof {
                reveal_strlit("type");
            }
            let ghost init = seq![("type"@, JsonView::Str(hyphenated(name@)))];
            assert(map@.len() == 1);
            let ghost res = sv_fields(t, self.pos as int, init);
            let ghost mut acc = init;
            loop
                invariant_except_break
                    sv_fields(t, self.pos as int, acc) == res,
                invariant
                    self.wf(),
                    self.input@ == t,
                    t == old(self).text(),
                    old(self).pos < self.pos,
                    crate::json::keys_increase(map@),
                    map@.len() == acc.len(),
                    map@.len() > 0,
                    forall|k: int| 0 <= k < map@.len() ==> (#[trigger] map@[k]).0@ == acc[k].0 && view_of(map@[k].1, acc[k].1),
                ensures
                    acc == res.0,
                    self.pos == res.1,
                decreases self.input.len() - self.pos,
            {
                let ghost q = self.pos as int;
                proof {
                    lemma_run_end(t, q, |c: char| is_space(c));
                }
                self.skip_whitespace();
                if self.pos < self.input.len() && self.input[self.pos] == '}' {
                    self.pos = self.pos + 1;
                    break;
                }
                if map.len() > 0 && self.pos < self.input.len() && self.input[self.pos] == ',' {
                    self.pos = self.pos + 1;
                }
                proof {
                    lemma_run_end(t, self.pos as int, |c: char| is_space(c));
                }
                self.skip_whitespace();
                if self.pos < self.input.len() && self.input[self.pos] == '}' {
                    self.pos = self.pos + 1;
                    break;
                }
                if self.pos >= self.input.len() {
                    break;
                }
                let before_name = self.pos;
                proof {
                    lemma_run_end(t, before_name as int, |c: char| is_ident_char(c));
                }
                let field_name = self.parse_identifier();
                if self.pos == before_name {
                    self.pos = self.pos + 1;
                    continue;
                }
                proof {
                    lemma_run_end(t, self.pos as int, |c: char| is_space(c));
                }
                self.skip_whitespace();
                if self.pos < self.input.len() && self.input[self.pos] == ':' {
                    self.pos = self.pos + 1;
                }
                proof {
                    lemma_run_end(t, self.pos as int, |c: char| is_space(c));
                }
                self.skip_whitespace();
                let vstart = self.pos;
                proof {
                    lemma_value_bounds(t, vstart as int);
                }
                let field_value = self.parse_value();
                let ghost fv = sv_value(t, vstart as int).0;
                let ghost fname = field_name@;
                let ghost old_map = map@;
                crate::json::object_insert(&mut map, field_name, field_value);
                proof {
                    lemma_insert_view(old_map, map@, acc, fname, fv);
                    acc = view_insert(acc, fname, fv);
                }
            }
            proof {
                lemma_entries_rel(map, acc, 0);
            }
            Json::Object(map)
        } else if self.pos < self.input.len() && self.input[self.pos] == '(' {
            self.pos = self.pos + 1;
            let (mut items, Ghost(acc)) = self.parse_list(')');
            let value = if items.len() == 1 {
                let v = items.pop().unwrap();
                assert(view_of(v, acc[0]));
                v
            } else {
                proof {
                    lemma_items_rel(items, acc, 0);
                }
                Json::Array(items)
            };
            let ghost vv = if acc.len() == 1 { acc[0] } else { JsonView::Array(acc) };
            let ghost nv = name@;
            let mut map: Vec<(String, Json)> = Vec::new();
            crate::json::object_insert(&mut map, name, value);
            assert(map@.len() == 1);
            proof {
                lemma_entries_rel(map, seq![(nv, vv)], 0);
            }
            Json::Object(map)
        } else {
            Json::Str(name)
        }
    }
}

proof fn lemma_position_agrees(v: Seq<(String, Json)>, s: Seq<(Seq<char>, JsonView)>, k: Seq<char>, i: int)
    requires
        v.len() == s.len(),
        forall|j: int| 0 <= j < v.len() ==> (#[trigger] v[j]).0@ == s[j].0,
        0 <= i <= v.len(),
    ensures
        crate::json::insert_position_from(v, k, i) == view_position(s, k, i),
    decreases v.len() - i,
{
    if i < v.len() {
        assert(v[i].0@ == s[i].0);
        lemma_position_agrees(v, s, k, i + 1);
    }
}

/// Setting a key in an object's entries and in their views keeps them
/// related.
proof fn lemma_insert_view(
    old_e: Seq<(String, Json)>, new_e: Seq<(String, Json)>, s: Seq<(Seq<char>, JsonView)>, k: Seq<char>, vv: JsonView,
)
    requires
        old_e.len() == s.len(),
        forall|j: int| 0 <= j < old_e.len() ==> (#[trigger] old_e[j]).0@ == s[j].0 && view_of(old_e[j].1, s[j].1),
        ({
            let i = crate::json::insert_position(old_e, k);
            &&& 0 <= i <= old_e.len()
            &&& if i < old_e.len() && old_e[i].0@ == k {
                new_e.len() == old_e.len() && new_e[i].0@ == k && view_of(new_e[i].1, vv)
                    && forall|j: int| 0 <= j < old_e.len() && j != i ==> new_e[j] == old_e[j]
            } else {
                new_e.len() == old_e.len() + 1 && new_e[i].0@ == k && view_of(new_e[i].1, vv)
                    && (forall|j: int| 0 <= j < i ==> new_e[j] == old_e[j])
                    && (forall|j: int| i < j < new_e.len() ==> new_e[j] == old_e[j - 1])
            }
        }),
    ensures
        new_e.len() == view_insert(s, k, vv).len(),
        forall|j: int| 0 <= j < new_e.len() ==> (#[trigger] new_e[j]).0@ == view_insert(s, k, vv)[j].0
            && view_of(new_e[j].1, view_insert(s, k, vv)[j].1),
{
    lemma_position_agrees(old_e, s, k, 0);
    let i = crate::json::insert_position(old_e, k);
    let vi = view_insert(s, k, vv);
    if i < old_e.len() && old_e[i].0@ == k {
        assert(s[i].0 == k);
        assert forall|j: int| 0 <= j < new_e.len() implies (#[trigger] new_e[j]).0@ == vi[j].0 && view_of(new_e[j].1, vi[j].1) by {
            if j != i {
                assert(new_e[j] == old_e[j]);
            }
        }
    } else {
        assert(!(i < s.len() && s[i].0 == k)) by {
            if i < s.len() {
                assert(old_e[i].0@ == s[i].0);
            }
        }
        assert forall|j: int| 0 <= j < new_e.len() implies (#[trigger] new_e[j]).0@ == vi[j].0 && view_of(new_e[j].1, vi[j].1) by {
            if j < i {
                assert(new_e[j] == old_e[j]);
            } else if j > i {
                assert(new_e[j] == old_e[j - 1]);
            }
        }
    }
}

/// The JSON form of a parse tree's `{:?}` text: the value that the text,
/// trimmed, reads as.
pub fn parse_rust_debug(input: &str) -> (r: Json)
    ensures
        view_of(r, sv_value(crate::text::trim(input@), 0).0),
{
    let trimmed = crate::text::trim_str(input);
    let mut parser = DebugParser::new(trimmed.as_str());
    parser.parse_value()
}

} // verus!
