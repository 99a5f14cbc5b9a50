use vstd::prelude::*;
use vstd::string::StringExecFns;
use crate::text::{is_alpha, is_ws, str_chars, char_is_alpha, char_is_whitespace, string_from_chars};

verus! {

/// End of the run of ASCII letters that starts at `j`.
pub open spec fn alpha_end(s: Seq<char>, j: int) -> int
    decreases s.len() - j,
{
    if 0 <= j < s.len() && is_alpha(s[j]) {
        alpha_end(s, j + 1)
    } else {
        j
    }
}

/// End of the run of whitespace that starts at `j`.
pub open spec fn ws_end(s: Seq<char>, j: int) -> int
    decreases s.len() - j,
{
    if 0 <= j < s.len() && is_ws(s[j]) {
        ws_end(s, j + 1)
    } else {
        j
    }
}

/// End of the token that starts at `i`: a backslash with the letters after it
/// (or with the one character after it when no letter follows), a run of
/// whitespace, or a single character.
pub open spec fn token_end(s: Seq<char>, i: int) -> int {
    if s[i] == '\\' {
        let j = alpha_end(s, i + 1);
        if j == i + 1 && j < s.len() {
            j + 1
        } else {
            j
        }
    } else if is_ws(s[i]) {
        ws_end(s, i)
    } else {
        i + 1
    }
}

pub proof fn lemma_alpha_end(s: Seq<char>, j: int)
    requires
        0 <= j <= s.len(),
    ensures
        j <= alpha_end(s, j) <= s.len(),
    decreases s.len() - j,
{
    if 0 <= j < s.len() && is_alpha(s[j]) {
        lemma_alpha_end(s, j + 1);
    }
}

pub proof fn lemma_ws_end(s: Seq<char>, j: int)
    requires
        0 <= j <= s.len(),
    ensures
        j <= ws_end(s, j) <= s.len(),
    decreases s.len() - j,
{
    if 0 <= j < s.len() && is_ws(s[j]) {
        lemma_ws_end(s, j + 1);
    }
}

pub proof fn lemma_token_end(s: Seq<char>, i: int)
    requires
        0 <= i < s.len(),
    ensures
        i < token_end(s, i) <= s.len(),
{
    lemma_alpha_end(s, i + 1);
    lemma_ws_end(s, i + 1);
}

/// The tokens of `s` from position `i` on.
pub open spec fn tokens_from(s: Seq<char>, i: int) -> Seq<Seq<char>>
    decreases s.len() - i,
{
    if 0 <= i < s.len() {
        let e = token_end(s, i);
        proof {
            lemma_token_end(s, i);
        }
        seq![s.subrange(i, e)] + tokens_from(s, e)
    } else {
        Seq::empty()
    }
}

/// The tokens of a whole input.
pub open spec fn spec_tokenize(s: Seq<char>) -> Seq<Seq<char>> {
    tokens_from(s, 0)
}

pub open spec fn string_views(v: Seq<String>) -> Seq<Seq<char>> {
    v.map_values(|t: String| t@)
}

/// Splits LaTeX source into tokens: control sequences, whitespace runs and
/// single characters.
pub fn tokenize_latex(input: &str) -> (tokens: Vec<String>)
    ensures
        string_views(tokens@) == spec_tokenize(input@),
{
    let chars = str_chars(input);
    let ghost s = input@;
    let n = chars.len();
    let mut tokens: Vec<String> = Vec::new();
    let mut i: usize = 0;
    while i < n
        invariant
            chars@ == s,
            n == s.len(),
            i <= n,
            string_views(tokens@) + tokens_from(s, i as int) == spec_tokenize(s),
        decreases n - i,
    {
        let start = i;
        let ghost e = token_end(s, start as int);
        proof {
            lemma_token_end(s, start as int);
            lemma_alpha_end(s, start + 1);
            lemma_ws_end(s, start as int);
        }
        if chars[i] == '\\' {
            i = i + 1;
            while i < n && char_is_alpha(chars[i])
                invariant
                    chars@ == s,
                    n == s.len(),
                    start < i <= n,
                    s[start as int] == '\\',
                    alpha_end(s, i as int) == alpha_end(s, start + 1),
                decreases n - i,
            {
                i = i + 1;
            }
            if i == start + 1 && i < n {
                i = i + 1;
            }
        } else if char_is_whitespace(chars[i]) {
            while i < n && char_is_whitespace(chars[i])
                invariant
                    chars@ == s,
                    n == s.len(),
                    start <= i <= n,
                    !(s[start as int] == '\\'),
                    is_ws(s[start as int]),
                    ws_end(s, i as int) == ws_end(s, start as int),
                decreases n - i,
            {
                i = i + 1;
            }
        } else {
            i = i + 1;
        }
        assert(i == e);
        let t = string_from_chars(&chars, start, i);
        let ghost old_tokens = tokens@;
        tokens.push(t);
        assert(string_views(tokens@) =~= string_views(old_tokens).push(s.subrange(start as int, e)));
        assert(tokens_from(s, start as int) == seq![s.subrange(start as int, e)] + tokens_from(s, e));
        assert(string_views(tokens@) + tokens_from(s, i as int) =~= string_views(old_tokens)
            + tokens_from(s, start as int));
    }
    assert(tokens_from(s, i as int) =~= Seq::<Seq<char>>::empty());
    assert(string_views(tokens@) =~= string_views(tokens@) + tokens_from(s, i as int));
    tokens
}


/// The concatenation of the tokens `t[k]`, `k < n`, that `skip` does not mark.
pub open spec fn kept_prefix(t: Seq<Seq<char>>, skip: Seq<bool>, n: int) -> Seq<char>
    decreases n,
{
    if n <= 0 {
        Seq::empty()
    } else {
        kept_prefix(t, skip, n - 1) + (if skip[n - 1] {
            Seq::<char>::empty()
        } else {
            t[n - 1]
        })
    }
}

/// Tokens and skip marks are paired up to the shorter of the two.
pub open spec fn spec_reassemble(t: Seq<Seq<char>>, skip: Seq<bool>) -> Seq<char> {
    kept_prefix(t, skip, if t.len() <= skip.len() { t.len() as int } else { skip.len() as int })
}

/// Joins the tokens whose skip mark is false, in order.
pub fn reassemble(tokens: &[String], skip: &[bool]) -> (r: String)
    ensures
        r@ == spec_reassemble(string_views(tokens@), skip@),
{
    let n = if tokens.len() <= skip.len() { tokens.len() } else { skip.len() };
    let ghost t = string_views(tokens@);
    let mut r = String::new();
    let mut i: usize = 0;
    while i < n
        invariant
            t == string_views(tokens@),
            n <= tokens@.len(),
            n <= skip@.len(),
            n == (if tokens@.len() <= skip@.len() { tokens@.len() } else { skip@.len() }),
            i <= n,
            r@ == kept_prefix(t, skip@, i as int),
        decreases n - i,
    {
        if !skip[i] {
            r.append(tokens[i].as_str());
        }
        i = i + 1;
        assert(r@ =~= kept_prefix(t, skip@, i as int));
    }
    r
}

proof fn lemma_tokens_from_flatten(s: Seq<char>, i: int)
    requires
        0 <= i <= s.len(),
    ensures
        tokens_from(s, i).flatten() == s.subrange(i, s.len() as int),
    decreases s.len() - i,
{
    if i < s.len() {
        let e = token_end(s, i);
        lemma_token_end(s, i);
        lemma_tokens_from_flatten(s, e);
        let rest = tokens_from(s, e);
        let all = seq![s.subrange(i, e)] + rest;
        assert(all.drop_first() =~= rest);
        assert(all.first() == s.subrange(i, e));
        assert(s.subrange(i, e) + s.subrange(e, s.len() as int) =~= s.subrange(i, s.len() as int));
    } else {
        assert(s.subrange(i, s.len() as int) =~= Seq::<char>::empty());
    }
}

/// Tokenizing loses nothing: the tokens of an input, joined in order, give
/// back the input.
pub proof fn law_tokens_concatenate_to_input(s: Seq<char>)
    ensures
        spec_tokenize(s).flatten() == s,
{
    lemma_tokens_from_flatten(s, 0);
    assert(s.subrange(0, s.len() as int) =~= s);
}

proof fn lemma_kept_prefix_all(t: Seq<Seq<char>>, skip: Seq<bool>, n: int)
    requires
        0 <= n <= t.len(),
        n <= skip.len(),
        forall|k: int| 0 <= k < skip.len() ==> !skip[k],
    ensures
        kept_prefix(t, skip, n) == t.take(n).flatten(),
    decreases n,
{
    if n > 0 {
        lemma_kept_prefix_all(t, skip, n - 1);
        assert(t.take(n) =~= t.take(n - 1).push(t[n - 1]));
        t.take(n - 1).lemma_flatten_push(t[n - 1]);
    } else {
        assert(t.take(0) =~= Seq::<Seq<char>>::empty());
    }
}

proof fn lemma_kept_prefix_none(t: Seq<Seq<char>>, skip: Seq<bool>, n: int)
    requires
        0 <= n <= skip.len(),
        forall|k: int| 0 <= k < skip.len() ==> skip[k],
    ensures
        kept_prefix(t, skip, n) == Seq::<char>::empty(),
    decreases n,
{
    if n > 0 {
        lemma_kept_prefix_none(t, skip, n - 1);
        assert(kept_prefix(t, skip, n) =~= Seq::<char>::empty());
    }
}

proof fn lemma_tokens_from_non_empty(s: Seq<char>, i: int)
    requires
        0 <= i <= s.len(),
    ensures
        forall|k: int| 0 <= k < tokens_from(s, i).len() ==> #[trigger] tokens_from(s, i)[k].len() > 0,
    decreases s.len() - i,
{
    if i < s.len() {
        let e = token_end(s, i);
        lemma_token_end(s, i);
        lemma_tokens_from_non_empty(s, e);
        let rest = tokens_from(s, e);
        let all = seq![s.subrange(i, e)] + rest;
        assert forall|k: int| 0 <= k < all.len() implies #[trigger] all[k].len() > 0 by {
            if k > 0 {
                assert(all[k] == rest[k - 1]);
            }
        }
    }
}

/// No token is empty.
pub proof fn law_tokens_are_non_empty(s: Seq<char>)
    ensures
        forall|k: int| 0 <= k < spec_tokenize(s).len() ==> #[trigger] spec_tokenize(s)[k].len() > 0,
{
    lemma_tokens_from_non_empty(s, 0);
}

/// Joining tokens with none skipped gives their concatenation, in order.
pub proof fn law_reassemble_joins_all_tokens(t: Seq<Seq<char>>, skip: Seq<bool>)
    requires
        skip.len() == t.len(),
        forall|k: int| 0 <= k < skip.len() ==> !skip[k],
    ensures
        spec_reassemble(t, skip) == t.flatten(),
{
    lemma_kept_prefix_all(t, skip, t.len() as int);
    assert(t.take(t.len() as int) =~= t);
}

/// Reassembling the tokens of an input with no token skipped gives back the
/// input.
pub proof fn law_reassemble_without_skips(s: Seq<char>, skip: Seq<bool>)
    requires
        skip.len() == spec_tokenize(s).len(),
        forall|k: int| 0 <= k < skip.len() ==> !skip[k],
    ensures
        spec_reassemble(spec_tokenize(s), skip) == s,
{
    law_reassemble_joins_all_tokens(spec_tokenize(s), skip);
    law_tokens_concatenate_to_input(s);
}

/// Skipping every token leaves nothing.
pub proof fn law_reassemble_all_skipped(t: Seq<Seq<char>>, skip: Seq<bool>)
    requires
        forall|k: int| 0 <= k < skip.len() ==> skip[k],
    ensures
        spec_reassemble(t, skip) == Seq::<char>::empty(),
{
    let n = if t.len() <= skip.len() { t.len() as int } else { skip.len() as int };
    lemma_kept_prefix_none(t, skip, n);
}

/// The forms a token takes, given the character after it (`None` at the end
/// of the input): a backslash and a run of ASCII letters that the next
/// character does not continue; a backslash and one character that is not a
/// letter; a lone backslash ending the input; a run of whitespace that the
/// next character does not continue; or one other character.
pub open spec fn token_form(t: Seq<char>, next: Option<char>) -> bool {
    ||| (t.len() >= 2 && t[0] == '\\' && (forall|j: int| 1 <= j < t.len() ==> is_alpha(#[trigger] t[j]))
            && !(next matches Some(c) && is_alpha(c)))
    ||| (t.len() == 2 && t[0] == '\\' && !is_alpha(t[1]))
    ||| (t == seq!['\\'] && next is None)
    ||| (t.len() >= 1 && (forall|j: int| 0 <= j < t.len() ==> is_ws(#[trigger] t[j]))
            && !(next matches Some(c) && is_ws(c)))
    ||| (t.len() == 1 && t[0] != '\\' && !is_ws(t[0]))
}

proof fn lemma_alpha_run(s: Seq<char>, j: int)
    requires
        0 <= j <= s.len(),
    ensures
        forall|k: int| j <= k < alpha_end(s, j) ==> is_alpha(#[trigger] s[k]),
        alpha_end(s, j) < s.len() ==> !is_alpha(s[alpha_end(s, j)]),
    decreases s.len() - j,
{
    if 0 <= j < s.len() && is_alpha(s[j]) {
        lemma_alpha_run(s, j + 1);
    }
}

proof fn lemma_ws_run(s: Seq<char>, j: int)
    requires
        0 <= j <= s.len(),
    ensures
        forall|k: int| j <= k < ws_end(s, j) ==> is_ws(#[trigger] s[k]),
        ws_end(s, j) < s.len() ==> !is_ws(s[ws_end(s, j)]),
    decreases s.len() - j,
{
    if 0 <= j < s.len() && is_ws(s[j]) {
        lemma_ws_run(s, j + 1);
    }
}

proof fn lemma_token_forms_from(s: Seq<char>, i: int)
    requires
        0 <= i <= s.len(),
    ensures
        ({
            let t = tokens_from(s, i);
            &&& t.len() > 0 ==> t[0].len() > 0 && t[0][0] == s[i]
            &&& forall|k: int| 0 <= k < t.len() ==> token_form(#[trigger] t[k],
                    if k + 1 < t.len() { Some(t[k + 1][0]) } else { None })
        }),
    decreases s.len() - i,
{
    if i < s.len() {
        let e = token_end(s, i);
        lemma_token_end(s, i);
        lemma_alpha_end(s, i + 1);
        lemma_alpha_run(s, i + 1);
        lemma_ws_end(s, i);
        lemma_ws_run(s, i);
        lemma_tokens_from_forms_step(s, i, e);
        lemma_token_forms_from(s, e);
        let rest = tokens_from(s, e);
        let t = tokens_from(s, i);
        let tok = s.subrange(i, e);
        assert(t == seq![tok] + rest);
        let next: Option<char> = if e < s.len() { Some(s[e]) } else { None };
        assert(rest.len() > 0 <==> e < s.len()) by {
            lemma_tokens_from_non_empty_seq(s, e);
        }
        assert(token_form(tok, next)) by {
            if s[i] == '\\' {
                let j = alpha_end(s, i + 1);
                if j == i + 1 && j < s.len() {
                    assert(tok.len() == 2 && tok[1] == s[i + 1]);
                } else if j == i + 1 {
                    assert(tok =~= seq!['\\']);
                } else {
                    assert forall|q: int| 1 <= q < tok.len() implies is_alpha(#[trigger] tok[q]) by {
                        assert(tok[q] == s[i + q]);
                    }
                }
            } else if is_ws(s[i]) {
                assert forall|q: int| 0 <= q < tok.len() implies is_ws(#[trigger] tok[q]) by {
                    assert(tok[q] == s[i + q]);
                }
            }
        }
        assert forall|k: int| 0 <= k < t.len() implies token_form(#[trigger] t[k],
            if k + 1 < t.len() { Some(t[k + 1][0]) } else { None }) by {
            if k == 0 {
                if rest.len() > 0 {
                    assert(t[1] == rest[0]);
                }
            } else {
                assert(t[k] == rest[k - 1]);
                if k + 1 < t.len() {
                    assert(t[k + 1] == rest[k]);
                }
            }
        }
    }
}

proof fn lemma_tokens_from_forms_step(s: Seq<char>, i: int, e: int)
    requires
        0 <= i < s.len(),
        e == token_end(s, i),
    ensures
        tokens_from(s, i) == seq![s.subrange(i, e)] + tokens_from(s, e),
{
}

proof fn lemma_tokens_from_non_empty_seq(s: Seq<char>, e: int)
    requires
        0 <= e <= s.len(),
    ensures
        tokens_from(s, e).len() > 0 <==> e < s.len(),
{
    if e < s.len() {
        lemma_token_end(s, e);
    }
}

/// Every token has one of the forms of `token_form`, judged by the first
/// character of the token after it (none after the last): a control word
/// with its whole run of letters, a control symbol, a lone backslash at the
/// end, a whole run of whitespace, or a single other character.
pub proof fn law_tokens_have_their_forms(s: Seq<char>)
    ensures
        forall|k: int| 0 <= k < spec_tokenize(s).len() ==> token_form(#[trigger] spec_tokenize(s)[k],
            if k + 1 < spec_tokenize(s).len() { Some(spec_tokenize(s)[k + 1][0]) } else { None }),
{
    lemma_token_forms_from(s, 0);
}

} // verus!
