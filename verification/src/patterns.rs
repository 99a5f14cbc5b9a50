use vstd::prelude::*;
use crate::text::is_alpha;

verus! {

/// The pattern of the token texts that cannot name a macro.
pub open spec fn ctrl_seq_pattern() -> Seq<char> {
    "^(?:[\\\\{}$&#^_]|EOF)$"@
}

/// The token texts that cannot name a macro: a backslash, a brace, `$`,
/// `&`, `#`, `^`, `_`, or the end of the input.
pub open spec fn is_special_token(t: Seq<char>) -> bool {
    t == "\\"@ || t == "{"@ || t == "}"@ || t == "$"@ || t == "&"@ || t == "#"@ || t == "^"@
        || t == "_"@ || t == "EOF"@
}

/// The pattern of a `\verb` token.
pub open spec fn verb_pattern() -> Seq<char> {
    "^\\\\verb[^a-zA-Z]"@
}

/// A `\verb` token: `\verb` and then a character that is not an ASCII
/// letter.
pub open spec fn is_verb_token(t: Seq<char>) -> bool {
    t.len() >= 6 && t.take(5) == "\\verb"@ && !is_alpha(t[5])
}

/// Whether `text` matches `pattern` (`regex::Regex::new` and
/// `Regex::is_match`). Stated for the two patterns used here. The first is
/// anchored at both ends and is an alternation of single characters of a
/// class and the word `EOF`: the text matches exactly when it is one of
/// them. The second is anchored at the start only: the text matches when it
/// begins with `\verb` and a character outside `a-zA-Z` (a negated class
/// matches any other character, line breaks included).
#[verifier::external_body]
pub(crate) fn regex_is_match(pattern: &str, text: &str) -> (r: bool)
    requires
        pattern@ == ctrl_seq_pattern() || pattern@ == verb_pattern(),
    ensures
        pattern@ == ctrl_seq_pattern() ==> r == is_special_token(text@),
        pattern@ == verb_pattern() ==> r == is_verb_token(text@),
{
    match regex::Regex::new(pattern) {
        Ok(re) => re.is_match(text),
        Err(_) => false,
    }
}

} // verus!
