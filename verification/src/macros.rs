use vstd::prelude::*;

verus! {

/// A token of the input: its text, and whether it is marked not to be
/// expanded.
#[derive(Debug)]
pub struct Token {
    pub text: String,
    pub noexpand: bool,
}

/// A token as plain values.
pub struct TokenView {
    pub text: Seq<char>,
    pub noexpand: bool,
}

impl View for Token {
    type V = TokenView;

    open spec fn view(&self) -> TokenView {
        TokenView { text: self.text@, noexpand: self.noexpand }
    }
}

impl Token {
    pub fn new(text: String) -> (t: Token)
        ensures
            t.text == text,
            !t.noexpand,
    {
        Token { text, noexpand: false }
    }

    pub fn duplicate(&self) -> (t: Token)
        ensures
            t@ == self@,
    {
        Token { text: self.text.clone(), noexpand: self.noexpand }
    }
}

pub open spec fn tokens_view(v: Seq<Token>) -> Seq<TokenView> {
    v.map_values(|t: Token| t@)
}

/// The tokens in the opposite order.
pub fn reverse_tokens(v: Vec<Token>) -> (r: Vec<Token>)
    ensures
        tokens_view(r@) == tokens_view(v@).reverse(),
{
    let ghost orig = tokens_view(v@);
    let mut v = v;
    let mut r: Vec<Token> = Vec::new();
    while v.len() > 0
        invariant
            orig.len() == v@.len() + r@.len(),
            tokens_view(v@) == orig.take(v@.len() as int),
            tokens_view(r@) == orig.skip(v@.len() as int).reverse(),
        decreases v.len(),
    {
        let ghost before = v@;
        let ghost old_r = tokens_view(r@);
        let t = v.pop().unwrap();
        proof {
            assert(tokens_view(before)[before.len() - 1] == t@);
            assert(orig[v@.len() as int] == t@);
        }
        r.push(t);
        proof {
            assert(tokens_view(v@) =~= orig.take(v@.len() as int));
            assert(tokens_view(r@) =~= old_r.push(t@));
            assert(orig.skip(v@.len() as int).reverse() =~= orig.skip(before.len() as int).reverse().push(t@));
        }
    }
    assert(orig.skip(0) =~= orig);
    r
}

pub fn clone_tokens(v: &Vec<Token>) -> (r: Vec<Token>)
    ensures
        tokens_view(r@) == tokens_view(v@),
{
    let mut r: Vec<Token> = Vec::new();
    let mut i: usize = 0;
    while i < v.len()
        invariant
            i <= v@.len(),
            r@.len() == i,
            tokens_view(r@) == tokens_view(v@.take(i as int)),
        decreases v.len() - i,
    {
        let ghost old_r = r@;
        let t = v[i].duplicate();
        r.push(t);
        assert forall|k: int| 0 <= k < i + 1 implies #[trigger] tokens_view(r@)[k]
            == tokens_view(v@.take(i + 1))[k] by {
            if k < i {
                assert(tokens_view(old_r)[k] == tokens_view(v@.take(i as int))[k]);
                assert(r@[k] == old_r[k]);
            }
        }
        i = i + 1;
        assert(tokens_view(r@) =~= tokens_view(v@.take(i as int)));
    }
    assert(v@.take(i as int) =~= v@);
    r
}

/// A macro whose expansion is a list of tokens, in stack order (the first
/// token of the expansion is the last one of the list).
#[derive(Debug)]
pub struct MacroExpansion {
    pub tokens: Vec<Token>,
    pub num_args: usize,
    pub delimiters: Option<Vec<Vec<String>>>,
    pub unexpandable: bool,
}

/// A macro definition: replacement text, or a token expansion.
#[derive(Debug)]
pub enum MacroDefinition {
    Str(String),
    Expansion(MacroExpansion),
}

/// What a macro definition holds, as plain values.
pub enum MacroDef {
    Str(Seq<char>),
    Expansion {
        tokens: Seq<TokenView>,
        num_args: usize,
        delimiters: Option<Seq<Seq<Seq<char>>>>,
        unexpandable: bool,
    },
}

pub open spec fn strings_view(v: Seq<String>) -> Seq<Seq<char>> {
    v.map_values(|s: String| s@)
}

pub open spec fn string_lists_view(v: Seq<Vec<String>>) -> Seq<Seq<Seq<char>>> {
    v.map_values(|l: Vec<String>| strings_view(l@))
}

impl View for MacroDefinition {
    type V = MacroDef;

    open spec fn view(&self) -> MacroDef {
        match self {
            MacroDefinition::Str(s) => MacroDef::Str(s@),
            MacroDefinition::Expansion(e) => MacroDef::Expansion {
                tokens: tokens_view(e.tokens@),
                num_args: e.num_args,
                delimiters: match e.delimiters {
                    Some(d) => Some(string_lists_view(d@)),
                    None => None,
                },
                unexpandable: e.unexpandable,
            },
        }
    }
}

/// The view of an optional definition.
pub open spec fn opt_def_view(d: Option<MacroDefinition>) -> Option<MacroDef> {
    match d {
        Some(x) => Some(x@),
        None => None,
    }
}

pub fn clone_strings(v: &Vec<String>) -> (r: Vec<String>)
    ensures
        r@ == v@,
{
    let mut r: Vec<String> = Vec::new();
    let mut i: usize = 0;
    while i < v.len()
        invariant
            i <= v@.len(),
            r@ == v@.take(i as int),
        decreases v.len() - i,
    {
        r.push(v[i].clone());
        i = i + 1;
        assert(r@ =~= v@.take(i as int));
    }
    assert(r@ =~= v@);
    r
}

fn clone_string_lists(v: &Vec<Vec<String>>) -> (r: Vec<Vec<String>>)
    ensures
        string_lists_view(r@) == string_lists_view(v@),
{
    let mut r: Vec<Vec<String>> = Vec::new();
    let mut i: usize = 0;
    while i < v.len()
        invariant
            i <= v@.len(),
            r@.len() == i,
            string_lists_view(r@) == string_lists_view(v@.take(i as int)),
        decreases v.len() - i,
    {
        let ghost old_r = r@;
        let c = clone_strings(&v[i]);
        r.push(c);
        assert forall|k: int| 0 <= k < i + 1 implies #[trigger] string_lists_view(r@)[k]
            == string_lists_view(v@.take(i + 1))[k] by {
            if k < i {
                assert(string_lists_view(old_r)[k] == string_lists_view(v@.take(i as int))[k]);
                assert(r@[k] == old_r[k]);
            } else {
                assert(r@[k] == c);
            }
        }
        i = i + 1;
        assert(string_lists_view(r@) =~= string_lists_view(v@.take(i as int)));
    }
    assert(v@.take(i as int) =~= v@);
    r
}

impl MacroDefinition {
    /// A copy equal to this definition.
    pub fn duplicate(&self) -> (r: MacroDefinition)
        ensures
            r@ == self@,
    {
        match self {
            MacroDefinition::Str(s) => MacroDefinition::Str(s.clone()),
            MacroDefinition::Expansion(e) => MacroDefinition::Expansion(MacroExpansion {
                tokens: clone_tokens(&e.tokens),
                num_args: e.num_args,
                delimiters: match &e.delimiters {
                    Some(d) => Some(clone_string_lists(d)),
                    None => None,
                },
                unexpandable: e.unexpandable,
            }),
        }
    }
}

pub fn duplicate_opt(d: &Option<MacroDefinition>) -> (r: Option<MacroDefinition>)
    ensures
        opt_def_view(r) == opt_def_view(*d),
{
    match d {
        Some(x) => Some(x.duplicate()),
        None => None,
    }
}

} // verus!
