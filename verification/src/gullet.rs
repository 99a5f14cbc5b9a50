use vstd::prelude::*;
use crate::macros::{Token, TokenView, tokens_view, MacroDef};
use crate::namespace::{Namespace, NamespaceModel, spec_get};
use crate::parse_node::ParseError;
use crate::str_map::StrMap;
use crate::text::{str_eq, string_of};

verus! {

/// The token source of the parser: the tokens still to be read (the next
/// one last, as a stack), the macro definitions, and the parser's functions
/// (each with whether it is primitive).
#[derive(Debug)]
pub struct Gullet {
    pub stack: Vec<Token>,
    pub macros: Namespace,
    pub functions: StrMap<bool>,
}

/// A gullet as plain values.
pub struct GulletModel {
    pub stack: Seq<TokenView>,
    pub macros: NamespaceModel,
    pub functions: Map<Seq<char>, bool>,
}

impl View for Gullet {
    type V = GulletModel;

    open spec fn view(&self) -> GulletModel {
        GulletModel { stack: tokens_view(self.stack@), macros: self.macros@, functions: self.functions@ }
    }
}

/// The token read past the end of the input.
pub open spec fn eof_view() -> TokenView {
    TokenView { text: "EOF"@, noexpand: false }
}

/// The next token: the top of the stack, or the end-of-input token.
pub open spec fn spec_future(s: Seq<TokenView>) -> TokenView {
    if s.len() == 0 { eof_view() } else { s.last() }
}

/// The stack after reading one token.
pub open spec fn spec_pop(s: Seq<TokenView>) -> Seq<TokenView> {
    if s.len() == 0 { s } else { s.drop_last() }
}

/// The stack after reading the space tokens at its top.
pub open spec fn skip_spaces(s: Seq<TokenView>) -> Seq<TokenView>
    decreases s.len(),
{
    if s.len() > 0 && s.last().text == " "@ { skip_spaces(s.drop_last()) } else { s }
}

/// Whether a name expands: a macro that is not marked unexpandable, or,
/// with no macro of that name, a function that is not primitive.
pub open spec fn spec_is_expandable(g: GulletModel, name: Seq<char>) -> bool {
    match spec_get(g.macros, name) {
        Some(MacroDef::Str(_)) => true,
        Some(MacroDef::Expansion { unexpandable, .. }) => !unexpandable,
        None => g.functions.contains_key(name) && !g.functions[name],
    }
}

/// The message for an argument cut off by the end of the input.
pub open spec fn unexpected_end_message() -> Seq<char> {
    "Unexpected end of input in a macro argument, expected '}'"@
}

/// Reading tokens from the stack `s`, `depth` braces deep, up to the point
/// where the depth is back to zero: the tokens read (in reading order) and
/// the stack left, or the error message.
pub open spec fn read_balanced(s: Seq<TokenView>, depth: nat) -> Result<(Seq<TokenView>, Seq<TokenView>), Seq<char>>
    decreases s.len(),
{
    if s.len() == 0 {
        Err(unexpected_end_message())
    } else {
        let tok = s.last();
        let rest = s.drop_last();
        if tok.text == "EOF"@ {
            Err(unexpected_end_message())
        } else if tok.text == "}"@ && depth == 0 {
            Err("Extra }"@)
        } else {
            let d: nat = if tok.text == "{"@ { depth + 1 } else if tok.text == "}"@ { (depth - 1) as nat } else { depth };
            if d == 0 {
                Ok((seq![tok], rest))
            } else {
                match read_balanced(rest, d) {
                    Ok((ts, r)) => Ok((seq![tok] + ts, r)),
                    Err(e) => Err(e),
                }
            }
        }
    }
}

/// The argument from the tokens read: without the outer braces where it was
/// a braced group.
pub open spec fn strip_braces(ts: Seq<TokenView>) -> Seq<TokenView> {
    if ts.len() >= 2 && ts[0].text == "{"@ && ts.last().text == "}"@ {
        ts.subrange(1, ts.len() - 1)
    } else {
        ts
    }
}

/// An undelimited macro argument read from the stack `s` after its leading
/// spaces: the argument's tokens in stack order and the stack left, or the
/// error message.
pub open spec fn spec_consume_arg(s: Seq<TokenView>) -> Result<(Seq<TokenView>, Seq<TokenView>), Seq<char>> {
    match read_balanced(skip_spaces(s), 0) {
        Ok((ts, rest)) => Ok((strip_braces(ts).reverse(), rest)),
        Err(e) => Err(e),
    }
}

proof fn lemma_read_balanced_len(s: Seq<TokenView>, depth: nat)
    ensures
        read_balanced(s, depth) matches Ok((ts, rest)) ==> ts.len() >= 1 && rest.len() + ts.len() == s.len(),
    decreases s.len(),
{
    if s.len() > 0 {
        let tok = s.last();
        let d: nat = if tok.text == "{"@ { depth + 1 } else if tok.text == "}"@ { (depth - 1) as nat } else { depth };
        lemma_read_balanced_len(s.drop_last(), d);
    }
}

impl Gullet {
    pub open spec fn wf(&self) -> bool {
        self.macros.wf() && self.functions.wf()
    }

    /// A gullet over the tokens to read (the next one last).
    pub fn new(stack: Vec<Token>, macros: Namespace, functions: StrMap<bool>) -> (g: Gullet)
        ensures
            g.stack == stack,
            g.macros == macros,
            g.functions == functions,
    {
        Gullet { stack, macros, functions }
    }

    /// The next token, left in place.
    pub fn future(&self) -> (t: Token)
        ensures
            t@ == spec_future(self@.stack),
    {
        if self.stack.len() == 0 {
            Token::new(string_of("EOF"))
        } else {
            self.stack[self.stack.len() - 1].duplicate()
        }
    }

    /// Reads the next token.
    pub fn pop_token(&mut self) -> (t: Token)
        ensures
            t@ == spec_future(old(self)@.stack),
            final(self)@.stack == spec_pop(old(self)@.stack),
            final(self).macros == old(self).macros,
            final(self).functions == old(self).functions,
    {
        match self.stack.pop() {
            Some(t) => {
                proof { assert(tokens_view(self.stack@) =~= spec_pop(tokens_view(old(self).stack@))); }
                t
            },
            None => Token::new(string_of("EOF")),
        }
    }

    /// Puts a token back, to be read next.
    pub fn push_token(&mut self, t: Token)
        ensures
            final(self)@.stack == old(self)@.stack.push(t@),
            final(self).macros == old(self).macros,
            final(self).functions == old(self).functions,
    {
        self.stack.push(t);
        proof { assert(tokens_view(self.stack@) =~= tokens_view(old(self).stack@).push(t@)); }
    }

    /// Reads the space tokens at the top.
    pub fn consume_spaces(&mut self)
        ensures
            final(self)@.stack == skip_spaces(old(self)@.stack),
            final(self).macros == old(self).macros,
            final(self).functions == old(self).functions,
        decreases old(self).stack.len(),
    {
        if self.stack.len() > 0 && str_eq(self.stack[self.stack.len() - 1].text.as_str(), " ") {
            let ghost s0 = self@.stack;
            let _ = self.pop_token();
            assert(self@.stack == s0.drop_last());
            self.consume_spaces();
        }
    }

    /// Whether a name expands.
    pub fn is_expandable(&self, name: &str) -> (b: bool)
        requires
            self.wf(),
        ensures
            b == spec_is_expandable(self@, name@),
    {
        match self.macros.get(name) {
            Some(crate::macros::MacroDefinition::Str(_)) => true,
            Some(crate::macros::MacroDefinition::Expansion(e)) => !e.unexpandable,
            None => match self.functions.get(name) {
                Some(primitive) => !*primitive,
                None => false,
            },
        }
    }

    /// Reads an undelimited macro argument: after any spaces, one token, or
    /// a braced group up to its matching brace (returned without the braces).
    /// The tokens come in stack order (the first one last).
    pub fn consume_arg(&mut self) -> (r: Result<Vec<Token>, ParseError>)
        ensures
            final(self).macros == old(self).macros,
            final(self).functions == old(self).functions,
            match (r, spec_consume_arg(old(self)@.stack)) {
                (Ok(ts), Ok((arg, rest))) => tokens_view(ts@) == arg && final(self)@.stack == rest,
                (Err(e), Err(msg)) => e.message@ == msg,
                _ => false,
            },
    {
        self.consume_spaces();
        let total = self.stack.len();
        let ghost s0 = self@.stack;
        let mut read: Vec<Token> = Vec::new();
        let mut depth: usize = 0;
        proof {
            assert(tokens_view(read@) =~= Seq::<TokenView>::empty());
            match read_balanced(s0, 0) {
                Ok((ts, rest)) => {
                    assert(ts.skip(0) =~= ts);
                    assert(ts.take(0) =~= Seq::<TokenView>::empty());
                },
                Err(e) => {},
            }
        }
        loop
            invariant_except_break
                depth <= read@.len(),
                read@.len() + self@.stack.len() == s0.len(),
                depth > 0 || read@.len() == 0,
                match read_balanced(s0, 0) {
                    Ok((ts, rest)) => read_balanced(self@.stack, depth as nat) == Ok::<(Seq<TokenView>, Seq<TokenView>), Seq<char>>((ts.skip(read@.len() as int), rest))
                        && ts.take(read@.len() as int) == tokens_view(read@),
                    Err(e) => read_balanced(self@.stack, depth as nat) == Err::<(Seq<TokenView>, Seq<TokenView>), Seq<char>>(e),
                },
            invariant
                s0.len() == total,
                self.macros == old(self).macros,
                self.functions == old(self).functions,
                s0 == skip_spaces(old(self)@.stack),
            ensures
                read_balanced(s0, 0) matches Ok((ts, rest)) && tokens_view(read@) == ts && self@.stack == rest,
            decreases self.stack.len(),
        {
            let ghost s = self@.stack;
            proof {
                lemma_read_balanced_len(s0, 0);
                lemma_read_balanced_len(s, depth as nat);
            }
            if self.stack.len() == 0 {
                return Err(ParseError { message: string_of("Unexpected end of input in a macro argument, expected '}'") });
            }
            let tok = self.pop_token();
            if str_eq(tok.text.as_str(), "EOF") {
                return Err(ParseError { message: string_of("Unexpected end of input in a macro argument, expected '}'") });
            }
            let is_open = str_eq(tok.text.as_str(), "{");
            let is_close = str_eq(tok.text.as_str(), "}");
            if is_close && depth == 0 {
                return Err(ParseError { message: string_of("Extra }") });
            }
            let d: usize = if is_open { depth + 1 } else if is_close { depth - 1 } else { depth };
            let ghost read_before = tokens_view(read@);
            proof {
                assert(self@.stack == s.drop_last());
                if d > 0 {
                    match read_balanced(s.drop_last(), d as nat) {
                        Ok((ts2, r2)) => {
                            assert(read_balanced(s, depth as nat) == Ok::<(Seq<TokenView>, Seq<TokenView>), Seq<char>>((seq![s.last()] + ts2, r2)));
                        },
                        Err(e2) => {
                            assert(read_balanced(s, depth as nat) == Err::<(Seq<TokenView>, Seq<TokenView>), Seq<char>>(e2));
                        },
                    }
                }
            }
            read.push(tok);
            proof {
                assert(tokens_view(read@) =~= read_before.push(s.last()));
                match read_balanced(s0, 0) {
                    Ok((ts, rest)) => {
                        assert(ts.skip(read_before.len() as int)[0] == s.last());
                        assert(ts.len() > read_before.len());
                        assert(ts.take(read@.len() as int) =~= ts.take(read_before.len() as int).push(s.last()));
                        if d > 0 {
                            match read_balanced(s.drop_last(), d as nat) {
                                Ok((ts2, r2)) => {
                                    assert(ts.skip(read_before.len() as int) == seq![s.last()] + ts2);
                                    assert(ts2 =~= (seq![s.last()] + ts2).skip(1));
                                    assert(ts.skip(read@.len() as int) =~= ts.skip(read_before.len() as int).skip(1));
                                    assert(ts2 =~= ts.skip(read@.len() as int));
                                },
                                Err(e2) => {},
                            }
                        }
                    },
                    Err(e) => {},
                }
            }
            if d == 0 {
                proof {
                    match read_balanced(s0, 0) {
                        Ok((ts, rest)) => {
                            assert(ts.skip(read_before.len() as int) =~= seq![s.last()]);
                            assert(ts =~= ts.take(read@.len() as int));
                        },
                        Err(e) => {},
                    }
                }
                break;
            }
            depth = d;
        }
        let ghost all = tokens_view(read@);
        let n = read.len();
        let strip = n >= 2 && str_eq(read[0].text.as_str(), "{") && str_eq(read[n - 1].text.as_str(), "}");
        if strip {
            read.pop();
            read.remove(0);
        }
        let ghost kept = tokens_view(read@);
        proof {
            if strip {
                assert(kept =~= all.subrange(1, all.len() - 1));
            }
        }
        Ok(crate::macros::reverse_tokens(read))
    }
}

} // verus!
