use vstd::prelude::*;
use crate::gullet::eof_view;
use crate::macros::TokenView;
use crate::node_view::{NodeView, nview, nview_seq, opt_nview, lemma_nview_seq_push, lemma_nview_seq_len};
use crate::parse_node::{Mode, AtomFamily, ParseNode, ParseError, format_unsupported_cmd, is_unsupported_cmd_node};
use crate::parser::{
    Parser, ParserModel, SymbolGroup, SymbolTablesModel, spec_fetch, spec_consume, same_env,
    symbol_readable, mode_table, symbol_base, symbol_marks, accent_label, verb_body,
    is_group_node, is_accented_node, parse_symbol_result, spec_parse_symbol_state,
};
use crate::patterns::is_verb_token;
use crate::text::{str_eq, string_of, concat_str, starts_with, seq_starts_with};

verus! {

/// How a parse ends: with its result and the state after it, with a parse
/// error and its message, or stuck: the input reaches what this parser does
/// not read (a command that is a function, a Unicode superscript or
/// subscript character), or a limit control after an operator, which is
/// never consumed so that reading does not end.
pub enum Parsed<T> {
    Done(T, ParserModel),
    Failed(Seq<char>),
    Stuck,
}

/// What the parser reads as plain values: the symbol tables, the names of
/// the functions, and the settings.
pub struct ParseEnv {
    pub tables: SymbolTablesModel,
    pub functions: Map<Seq<char>, bool>,
    pub throw_on_error: bool,
    pub error_color: Seq<char>,
}

impl Parser {
    pub open spec fn env(&self) -> ParseEnv {
        ParseEnv {
            tables: self.tables@,
            functions: self.gullet.functions@,
            throw_on_error: self.throw_on_error,
            error_color: self.error_color@,
        }
    }
}

/// A measure of what is left to read: two for each token on the stack, and
/// one for a token looked at that is not the end of the input.
pub open spec fn measure(p: ParserModel) -> nat {
    2 * p.stack.len() + (if p.next matches Some(t) && t != eof_view() { 1nat } else { 0nat })
}

/// A token whose text is a single character is not the end of the input.
pub proof fn lemma_not_eof(t: TokenView, c: Seq<char>)
    requires
        t.text == c,
        c.len() == 1,
    ensures
        t != eof_view(),
{
    reveal_strlit("EOF");
    assert(eof_view().text.len() == 3);
}

pub proof fn lemma_fetch_measure(p: ParserModel)
    ensures
        measure(spec_fetch(p).1) <= measure(p),
        spec_fetch(p).0 != eof_view() ==> measure(spec_consume(spec_fetch(p).1)) < measure(p),
        measure(spec_consume(p)) <= measure(p),
{
}

/// The state after the space tokens at the front are consumed.
pub open spec fn spec_consume_spaces(p: ParserModel) -> ParserModel
    decreases measure(p),
{
    let (t, q) = spec_fetch(p);
    if t.text == " "@ {
        proof {
            reveal_strlit(" ");
            lemma_not_eof(t, " "@);
            lemma_fetch_measure(p);
        }
        spec_consume_spaces(spec_consume(q))
    } else {
        q
    }
}

pub proof fn lemma_consume_spaces_measure(p: ParserModel)
    ensures
        measure(spec_consume_spaces(p)) <= measure(p),
        spec_consume_spaces(p).mode == p.mode,
    decreases measure(p),
{
    lemma_fetch_measure(p);
    let (t, q) = spec_fetch(p);
    if t.text == " "@ {
        reveal_strlit(" ");
            lemma_not_eof(t, " "@);
        lemma_fetch_measure(spec_consume(q));
        lemma_consume_spaces_measure(spec_consume(q));
    }
}

/// The tokens that end an expression.
pub open spec fn ends_expression(t: Seq<char>) -> bool {
    t == "}"@ || t == "\\endgroup"@ || t == "\\end"@ || t == "\\right"@ || t == "&"@
}

/// The commands the parser reads itself, which are never undefined.
pub open spec fn is_implicit_command(t: Seq<char>) -> bool {
    t == "^"@ || t == "_"@ || t == "\\limits"@ || t == "\\nolimits"@
}

/// The view of the node of a symbol group.
pub open spec fn group_view(m: Mode, g: SymbolGroup, t: Seq<char>) -> NodeView {
    match g {
        SymbolGroup::Bin => NodeView::Atom { mode: m, family: AtomFamily::Bin, text: t },
        SymbolGroup::Close => NodeView::Atom { mode: m, family: AtomFamily::Close, text: t },
        SymbolGroup::Inner => NodeView::Atom { mode: m, family: AtomFamily::Inner, text: t },
        SymbolGroup::Open => NodeView::Atom { mode: m, family: AtomFamily::Open, text: t },
        SymbolGroup::Punct => NodeView::Atom { mode: m, family: AtomFamily::Punct, text: t },
        SymbolGroup::Rel => NodeView::Atom { mode: m, family: AtomFamily::Rel, text: t },
        SymbolGroup::Accent => NodeView::AccentToken { mode: m, text: t },
        SymbolGroup::MathOrd => NodeView::MathOrd { mode: m, text: t },
        SymbolGroup::Op => NodeView::Op { mode: m, limits: false, always_handle_sup_sub: false },
        SymbolGroup::Spacing => NodeView::Spacing { mode: m, text: t },
        SymbolGroup::TextOrd => NodeView::TextOrd { mode: m, text: t },
    }
}

/// The view of a symbol with the accents of its first `k` combining marks.
pub open spec fn accented_view(tables: SymbolTablesModel, m: Mode, g: SymbolGroup, t: Seq<char>, k: nat) -> NodeView
    decreases k,
{
    if k == 0 {
        group_view(m, g, symbol_base(t))
    } else {
        NodeView::Accent {
            mode: m,
            label: accent_label(tables, m, symbol_marks(t)[k - 1]),
            is_stretchy: false,
            is_shifty: true,
            base: Box::new(accented_view(tables, m, g, t, (k - 1) as nat)),
        }
    }
}

/// The view of what reading a symbol gives (see `parse_symbol_result`).
pub open spec fn spec_symbol_view(tables: SymbolTablesModel, p: ParserModel) -> Option<NodeView> {
    let t = spec_fetch(p).0.text;
    if is_verb_token(t) {
        Some(NodeView::Verb { mode: Mode::Text, body: verb_body(t).0, star: verb_body(t).1 })
    } else if mode_table(tables, p.mode).contains_key(symbol_base(t)) {
        Some(accented_view(tables, p.mode, mode_table(tables, p.mode)[symbol_base(t)], t, symbol_marks(t).len()))
    } else {
        None
    }
}

proof fn lemma_group_view(n: ParseNode, m: Mode, g: SymbolGroup, t: Seq<char>)
    requires
        is_group_node(n, m, g, t),
    ensures
        nview(n) == group_view(m, g, t),
{
}

proof fn lemma_accented_view(n: ParseNode, tables: SymbolTablesModel, m: Mode, g: SymbolGroup, t: Seq<char>, k: nat)
    requires
        is_accented_node(n, tables, m, g, t, k),
    ensures
        nview(n) == accented_view(tables, m, g, t, k),
    decreases k,
{
    if k == 0 {
        lemma_group_view(n, m, g, symbol_base(t));
    } else {
        match n {
            ParseNode::Accent { base, .. } => {
                lemma_accented_view(*base, tables, m, g, t, (k - 1) as nat);
            },
            _ => {},
        }
    }
}

proof fn lemma_symbol_view(r: Option<ParseNode>, tables: SymbolTablesModel, p: ParserModel)
    requires
        parse_symbol_result(r, tables, p),
    ensures
        opt_nview(r) == spec_symbol_view(tables, p),
{
    let t = spec_fetch(p).0.text;
    if !is_verb_token(t) && mode_table(tables, p.mode).contains_key(symbol_base(t)) {
        lemma_accented_view(r->0, tables, p.mode, mode_table(tables, p.mode)[symbol_base(t)], t, symbol_marks(t).len());
    }
}

/// The view of the node that shows an unsupported command.
pub open spec fn unsupported_view(m: Mode, color: Seq<char>, cmd: Seq<char>) -> NodeView {
    NodeView::Color {
        mode: m,
        color,
        body: seq![NodeView::Text {
            mode: m,
            font: None,
            body: Seq::new(cmd.len(), |i: int| NodeView::TextOrd { mode: Mode::Text, text: seq![cmd[i]] }),
        }],
    }
}

proof fn lemma_unsupported_view(r: ParseNode, m: Mode, color: Seq<char>, cmd: Seq<char>)
    requires
        is_unsupported_cmd_node(r, m, color, cmd),
    ensures
        nview(r) == unsupported_view(m, color, cmd),
{
    match r {
        ParseNode::Color { body, .. } => {
            lemma_nview_seq_len(body@);
            match body@[0] {
                ParseNode::Text { body: chars, .. } => {
                    lemma_nview_seq_len(chars@);
                    let want = Seq::new(cmd.len(), |i: int| NodeView::TextOrd { mode: Mode::Text, text: seq![cmd[i]] });
                    assert(nview_seq(chars@) =~= want);
                    assert(nview_seq(body@) =~= seq![nview(body@[0])]);
                },
                _ => {},
            }
        },
        _ => {},
    }
}

/// An expression: atoms up to a token that ends expressions or the token
/// `brk`, with spaces skipped in math mode.
pub open spec fn spec_expression(env: ParseEnv, p: ParserModel, brk: Option<Seq<char>>) -> Parsed<Seq<NodeView>>
    decreases measure(p), 4nat,
{
    let p1 = if p.mode == Mode::Math { spec_consume_spaces(p) } else { p };
    let (tok, p2) = spec_fetch(p1);
    if ends_expression(tok.text) || brk == Some(tok.text) {
        Parsed::Done(Seq::empty(), p2)
    } else {
        proof {
            lemma_consume_spaces_measure(p);
            lemma_fetch_measure(p1);
        }
        match spec_atom(env, p2, brk) {
            Parsed::Done(None, q) => Parsed::Done(Seq::empty(), q),
            Parsed::Done(Some(n), q) => if measure(q) < measure(p) {
                match spec_expression(env, q, brk) {
                    Parsed::Done(rest, q2) => Parsed::Done(seq![n] + rest, q2),
                    Parsed::Failed(e) => Parsed::Failed(e),
                    Parsed::Stuck => Parsed::Stuck,
                }
            } else {
                Parsed::Stuck
            },
            Parsed::Failed(e) => Parsed::Failed(e),
            Parsed::Stuck => Parsed::Stuck,
        }
    }
}

/// An atom: a group and, in math mode, the superscripts, subscripts,
/// primes and limit controls after it.
pub open spec fn spec_atom(env: ParseEnv, p: ParserModel, brk: Option<Seq<char>>) -> Parsed<Option<NodeView>>
    decreases measure(p), 3nat,
{
    match spec_group(env, p, brk) {
        Parsed::Done(base, q) => if p.mode == Mode::Text {
            Parsed::Done(base, q)
        } else if measure(q) <= measure(p) {
            spec_scripts(env, q, base, None, None)
        } else {
            Parsed::Stuck
        },
        Parsed::Failed(e) => Parsed::Failed(e),
        Parsed::Stuck => Parsed::Stuck,
    }
}

/// The prime symbol.
pub open spec fn prime_view(m: Mode) -> NodeView {
    NodeView::TextOrd { mode: m, text: "\\prime"@ }
}

/// The primes from the token looked at on, after those in `acc`.
pub open spec fn spec_primes(p: ParserModel, acc: Seq<NodeView>) -> (Seq<NodeView>, ParserModel)
    decreases measure(p),
{
    let (t, q) = spec_fetch(p);
    if t.text == "'"@ {
        proof {
            reveal_strlit("'");
            lemma_not_eof(t, "'"@);
            lemma_fetch_measure(p);
        }
        spec_primes(spec_consume(q), acc.push(prime_view(p.mode)))
    } else {
        (acc, q)
    }
}

pub proof fn lemma_primes_measure(p: ParserModel, acc: Seq<NodeView>)
    ensures
        measure(spec_primes(p, acc).1) <= measure(p),
        spec_primes(p, acc).1.mode == p.mode,
        spec_primes(p, acc).1.next is Some,
    decreases measure(p),
{
    lemma_fetch_measure(p);
    let (t, q) = spec_fetch(p);
    if t.text == "'"@ {
        reveal_strlit("'");
            lemma_not_eof(t, "'"@);
        lemma_fetch_measure(spec_consume(q));
        lemma_primes_measure(spec_consume(q), acc.push(prime_view(p.mode)));
    }
}

/// The scripts after an atom's base, with the superscript and subscript
/// read so far.
pub open spec fn spec_scripts(env: ParseEnv, p: ParserModel, base: Option<NodeView>, sup: Option<NodeView>, sub: Option<NodeView>) -> Parsed<Option<NodeView>>
    decreases measure(p), 2nat,
{
    let p1 = spec_consume_spaces(p);
    let (lex, p2) = spec_fetch(p1);
    let t = lex.text;
    proof {
        lemma_consume_spaces_measure(p);
        lemma_fetch_measure(p1);
    }
    if t == "\\limits"@ || t == "\\nolimits"@ {
        match base {
            Some(b) => if b is Op { Parsed::Stuck } else { Parsed::Failed("Limit controls must follow a math operator"@) },
            None => if measure(spec_consume(p2)) < measure(p) {
                spec_scripts(env, spec_consume(p2), base, sup, sub)
            } else {
                Parsed::Stuck
            },
        }
    } else if t == "^"@ || t == "_"@ {
        let is_sup = t == "^"@;
        if (is_sup && sup is Some) || (!is_sup && sub is Some) {
            Parsed::Failed(if is_sup { "Double superscript"@ } else { "Double subscript"@ })
        } else {
            match spec_sup_sub(env, p2) {
                Parsed::Done(s, q) => if measure(q) < measure(p) {
                    if is_sup {
                        spec_scripts(env, q, base, Some(s), sub)
                    } else {
                        spec_scripts(env, q, base, sup, Some(s))
                    }
                } else {
                    Parsed::Stuck
                },
                Parsed::Failed(e) => Parsed::Failed(e),
                Parsed::Stuck => Parsed::Stuck,
            }
        }
    } else if t == "'"@ {
        if sup is Some {
            Parsed::Failed("Double superscript"@)
        } else {
            match spec_prime_script(env, p2) {
                Parsed::Done(g, q) => if measure(q) < measure(p) {
                    spec_scripts(env, q, base, Some(g), sub)
                } else {
                    Parsed::Stuck
                },
                Parsed::Failed(e) => Parsed::Failed(e),
                Parsed::Stuck => Parsed::Stuck,
            }
        }
    } else if env.tables.scripts.contains_key(t) {
        Parsed::Stuck
    } else if sup is Some || sub is Some {
        Parsed::Done(Some(NodeView::SupSub {
            mode: p.mode,
            base: match base { Some(b) => Some(Box::new(b)), None => None },
            sup: match sup { Some(b) => Some(Box::new(b)), None => None },
            sub: match sub { Some(b) => Some(Box::new(b)), None => None },
        }), p2)
    } else {
        Parsed::Done(base, p2)
    }
}

/// A superscript of primes, from the first `'` looked at: the primes, and
/// a superscript right after them, grouped.
pub open spec fn spec_prime_script(env: ParseEnv, p: ParserModel) -> Parsed<NodeView>
    decreases measure(p), 1nat,
{
    let (primes, q) = spec_primes(spec_consume(p), seq![prime_view(p.mode)]);
    proof {
        lemma_fetch_measure(p);
        lemma_primes_measure(spec_consume(p), seq![prime_view(p.mode)]);
        lemma_fetch_measure(q);
    }
    if spec_fetch(q).0.text == "^"@ {
        match spec_sup_sub(env, spec_fetch(q).1) {
            Parsed::Done(s, q2) => Parsed::Done(NodeView::OrdGroup { mode: p.mode, body: primes.push(s), semisimple: false }, q2),
            Parsed::Failed(e) => Parsed::Failed(e),
            Parsed::Stuck => Parsed::Stuck,
        }
    } else {
        Parsed::Done(NodeView::OrdGroup { mode: p.mode, body: primes, semisimple: false }, q)
    }
}

/// A superscript or subscript: the `^` or `_` token, spaces, and the group
/// after them.
pub open spec fn spec_sup_sub(env: ParseEnv, p: ParserModel) -> Parsed<NodeView>
    decreases measure(p), 0nat,
{
    let (sym, p1) = spec_fetch(p);
    let p2 = spec_consume_spaces(spec_consume(p1));
    proof {
        lemma_fetch_measure(p);
        lemma_consume_spaces_measure(spec_consume(p1));
    }
    if measure(p2) < measure(p) {
        match spec_group(env, p2, None) {
            Parsed::Done(Some(g), q) => Parsed::Done(g, q),
            Parsed::Done(None, _) => Parsed::Failed("Expected group after '"@ + sym.text + "'"@),
            Parsed::Failed(e) => Parsed::Failed(e),
            Parsed::Stuck => Parsed::Stuck,
        }
    } else {
        Parsed::Stuck
    }
}

/// A group: a braced expression (or one between `\begingroup` and
/// `\endgroup`), a symbol, or an undefined command, which is an error or is
/// shown in the error color; nothing where none of these stands next.
pub open spec fn spec_group(env: ParseEnv, p: ParserModel, brk: Option<Seq<char>>) -> Parsed<Option<NodeView>>
    decreases measure(p), 1nat,
{
    let (first, p1) = spec_fetch(p);
    let t = first.text;
    proof {
        lemma_fetch_measure(p);
    }
    if t == "{"@ || t == "\\begingroup"@ {
        let end: Seq<char> = if t == "{"@ { "}"@ } else { "\\endgroup"@ };
        let p2 = spec_consume(p1);
        if measure(p2) < measure(p) {
            match spec_expression(env, p2, Some(end)) {
                Parsed::Done(body, q) => {
                    let (last, q1) = spec_fetch(q);
                    if last.text == end {
                        Parsed::Done(Some(NodeView::OrdGroup { mode: p.mode, body, semisimple: t == "\\begingroup"@ }), spec_consume(q1))
                    } else {
                        Parsed::Failed("Expected '"@ + end + "', got '"@ + last.text + "'"@)
                    }
                },
                Parsed::Failed(e) => Parsed::Failed(e),
                Parsed::Stuck => Parsed::Stuck,
            }
        } else {
            Parsed::Stuck
        }
    } else if env.functions.contains_key(t) || !symbol_readable(env.tables, p.mode, t) {
        Parsed::Stuck
    } else {
        match spec_symbol_view(env.tables, p) {
            Some(v) => Parsed::Done(Some(v), spec_parse_symbol_state(env.tables, p)),
            None => if seq_starts_with(t, "\\"@) && !is_implicit_command(t) {
                if env.throw_on_error {
                    Parsed::Failed("Undefined control sequence: "@ + t)
                } else {
                    Parsed::Done(Some(unsupported_view(p.mode, env.error_color, t)), spec_consume(p1))
                }
            } else {
                Parsed::Done(None, p1)
            },
        }
    }
}

/// A break token as plain values.
pub open spec fn brk_view(b: Option<&str>) -> Option<Seq<char>> {
    match b {
        Some(s) => Some(s@),
        None => None,
    }
}

/// Whether a parse result is what the spec says: the node (by its view) and
/// the state after it, or the error's message.
pub open spec fn result_opt(r: Result<Option<ParseNode>, ParseError>, s: Parsed<Option<NodeView>>, fin: ParserModel) -> bool {
    match s {
        Parsed::Done(v, q) => r matches Ok(n) && opt_nview(n) == v && fin == q,
        Parsed::Failed(m) => r matches Err(e) && e.message@ == m,
        Parsed::Stuck => false,
    }
}

pub open spec fn result_node(r: Result<ParseNode, ParseError>, s: Parsed<NodeView>, fin: ParserModel) -> bool {
    match s {
        Parsed::Done(v, q) => r matches Ok(n) && nview(n) == v && fin == q,
        Parsed::Failed(m) => r matches Err(e) && e.message@ == m,
        Parsed::Stuck => false,
    }
}

pub open spec fn result_seq(r: Result<Vec<ParseNode>, ParseError>, s: Parsed<Seq<NodeView>>, fin: ParserModel) -> bool {
    match s {
        Parsed::Done(v, q) => r matches Ok(n) && nview_seq(n@) == v && fin == q,
        Parsed::Failed(m) => r matches Err(e) && e.message@ == m,
        Parsed::Stuck => false,
    }
}

/// Where a parse succeeds, the parser stays well formed and keeps what it
/// does not read.
pub open spec fn kept(a: Parser, b: Parser, ok: bool) -> bool {
    ok ==> (b.wf() && same_env(a, b))
}

fn ends_expression_exec(t: &str) -> (b: bool)
    ensures
        b == ends_expression(t@),
{
    str_eq(t, "}") || str_eq(t, "\\endgroup") || str_eq(t, "\\end") || str_eq(t, "\\right") || str_eq(t, "&")
}

fn is_implicit_exec(t: &str) -> (b: bool)
    ensures
        b == is_implicit_command(t@),
{
    str_eq(t, "^") || str_eq(t, "_") || str_eq(t, "\\limits") || str_eq(t, "\\nolimits")
}

proof fn lemma_fetch_twice(p: ParserModel)
    ensures
        spec_fetch(spec_fetch(p).1) == spec_fetch(p),
{
}

proof fn lemma_nview_seq_prepend(n: ParseNode, rest: Seq<ParseNode>)
    ensures
        nview_seq(seq![n] + rest) == seq![nview(n)] + nview_seq(rest),
{
    lemma_nview_seq_len(seq![n] + rest);
    lemma_nview_seq_len(rest);
    assert(nview_seq(seq![n] + rest) =~= seq![nview(n)] + nview_seq(rest)) by {
        assert forall|i: int| 0 <= i < rest.len() + 1 implies #[trigger] nview_seq(seq![n] + rest)[i] == (seq![nview(n)] + nview_seq(rest))[i] by {
            if i > 0 {
                assert((seq![n] + rest)[i] == rest[i - 1]);
            }
        }
    }
}

impl Parser {
    /// Consumes the space tokens at the front.
    pub fn consume_spaces(&mut self)
        ensures
            final(self)@ == spec_consume_spaces(old(self)@),
            same_env(*old(self), *final(self)),
            old(self).wf() ==> final(self).wf(),
    {
        let ghost p0 = self@;
        loop
            invariant
                spec_consume_spaces(self@) == spec_consume_spaces(p0),
                same_env(*old(self), *self),
                old(self).wf() ==> self.wf(),
            ensures
                self@ == spec_consume_spaces(p0),
                same_env(*old(self), *self),
                old(self).wf() ==> self.wf(),
            decreases measure(self@),
        {
            let ghost p = self@;
            let t = self.fetch();
            if str_eq(t.text.as_str(), " ") {
                proof {
                    reveal_strlit(" ");
                    lemma_not_eof(t@, " "@);
                    lemma_fetch_measure(p);
                }
                self.consume();
            } else {
                break;
            }
        }
    }

    /// Reads a group (see `spec_group`): a braced expression, a symbol, or
    /// an undefined command. The input must not reach what this parser does
    /// not read (see `Parsed::Stuck`).
    pub fn parse_group(&mut self, brk: Option<&str>) -> (r: Result<Option<ParseNode>, ParseError>)
        requires
            old(self).wf(),
            !(spec_group(old(self).env(), old(self)@, brk_view(brk)) is Stuck),
        ensures
            kept(*old(self), *final(self), r is Ok),
            result_opt(r, spec_group(old(self).env(), old(self)@, brk_view(brk)), final(self)@),
        decreases measure(old(self)@), 1nat,
    {
        let ghost p = self@;
        let ghost env = self.env();
        proof {
            lemma_fetch_measure(p);
            reveal_strlit("{");
            reveal_strlit("\\begingroup");
            assert("{"@ != "\\begingroup"@) by {
                assert("{"@.len() != "\\begingroup"@.len());
            }
        }
        let first = self.fetch();
        let is_brace = str_eq(first.text.as_str(), "{");
        if is_brace || str_eq(first.text.as_str(), "\\begingroup") {
            let end: &str = if is_brace { "}" } else { "\\endgroup" };
            self.consume();
            let ghost macros0 = self.gullet.macros@;
            self.gullet.macros.begin_group();
            let body = match self.parse_expression(Some(end)) {
                Ok(b) => b,
                Err(e) => return Err(e),
            };
            let last = self.fetch();
            if str_eq(last.text.as_str(), end) {
                self.consume();
                self.gullet.macros.end_group();
                proof { crate::namespace::law_empty_group_changes_nothing(macros0); }
                Ok(Some(ParseNode::OrdGroup { mode: self.mode, body, semisimple: !is_brace }))
            } else {
                let m1 = concat_str("Expected '", end);
                let m2 = concat_str(m1.as_str(), "', got '");
                let m3 = concat_str(m2.as_str(), last.text.as_str());
                Err(ParseError { message: concat_str(m3.as_str(), "'") })
            }
        } else {
            let ghost p1 = self@;
            proof { lemma_fetch_twice(p); }
            let found = self.parse_symbol();
            proof { lemma_symbol_view(found, env.tables, p); }
            match found {
                Some(n) => Ok(Some(n)),
                None => {
                    if starts_with(first.text.as_str(), "\\") && !is_implicit_exec(first.text.as_str()) {
                        if self.throw_on_error {
                            Err(ParseError { message: concat_str("Undefined control sequence: ", first.text.as_str()) })
                        } else {
                            let n = format_unsupported_cmd(self.mode, &self.error_color, first.text.as_str());
                            proof { lemma_unsupported_view(n, p.mode, env.error_color, first.text@); }
                            self.consume();
                            Ok(Some(n))
                        }
                    } else {
                        Ok(None)
                    }
                },
            }
        }
    }

    /// Reads a superscript or subscript after its `^` or `_` (see
    /// `spec_sup_sub`); `name` says which, as the original interface has it.
    pub fn handle_sup_sub_script(&mut self, name: &str) -> (r: Result<ParseNode, ParseError>)
        requires
            old(self).wf(),
            !(spec_sup_sub(old(self).env(), old(self)@) is Stuck),
        ensures
            kept(*old(self), *final(self), r is Ok),
            result_node(r, spec_sup_sub(old(self).env(), old(self)@), final(self)@),
        decreases measure(old(self)@), 0nat,
    {
        let ghost p = self@;
        let sym = self.fetch();
        self.consume();
        self.consume_spaces();
        match self.parse_group(None) {
            Ok(Some(g)) => Ok(g),
            Ok(None) => {
                let m1 = concat_str("Expected group after '", sym.text.as_str());
                Err(ParseError { message: concat_str(m1.as_str(), "'") })
            },
            Err(e) => Err(e),
        }
    }

    fn read_primes(&mut self, acc: &mut Vec<ParseNode>)
        ensures
            (nview_seq(final(acc)@), final(self)@) == spec_primes(old(self)@, nview_seq(old(acc)@)),
            same_env(*old(self), *final(self)),
            old(self).wf() ==> final(self).wf(),
        decreases measure(old(self)@),
    {
        let ghost p = self@;
        let t = self.fetch();
        if str_eq(t.text.as_str(), "'") {
            proof {
                reveal_strlit("'");
                lemma_not_eof(t@, "'"@);
                lemma_fetch_measure(p);
            }
            let ghost a0 = acc@;
            acc.push(ParseNode::TextOrd { mode: self.mode, text: string_of("\\prime") });
            proof { lemma_nview_seq_push(a0, acc@.last()); }
            self.consume();
            self.read_primes(acc);
        }
    }

    /// A superscript of primes, from the first `'` looked at (see
    /// `spec_prime_script`).
    fn parse_prime_script(&mut self) -> (r: Result<ParseNode, ParseError>)
        requires
            old(self).wf(),
            !(spec_prime_script(old(self).env(), old(self)@) is Stuck),
        ensures
            kept(*old(self), *final(self), r is Ok),
            result_node(r, spec_prime_script(old(self).env(), old(self)@), final(self)@),
        decreases measure(old(self)@), 1nat,
    {
        let ghost p = self@;
        proof { lemma_fetch_measure(p); }
        self.consume();
        let mut primes: Vec<ParseNode> = Vec::new();
        primes.push(ParseNode::TextOrd { mode: self.mode, text: string_of("\\prime") });
        proof {
            lemma_nview_seq_push(Seq::empty(), primes@[0]);
            assert(Seq::<ParseNode>::empty().push(primes@[0]) =~= primes@);
            reveal_strlit("\\prime");
            assert(nview_seq(Seq::<ParseNode>::empty()) =~= Seq::<NodeView>::empty());
        }
        let ghost p0 = self@;
        self.read_primes(&mut primes);
        let ghost q = self@;
        proof {
            lemma_primes_measure(p0, seq![prime_view(p.mode)]);
            lemma_fetch_measure(q);
        }
        let next = self.fetch();
        if str_eq(next.text.as_str(), "^") {
            let s = match self.handle_sup_sub_script("superscript") {
                Ok(s) => s,
                Err(e) => return Err(e),
            };
            let ghost pv = primes@;
            primes.push(s);
            proof { lemma_nview_seq_push(pv, s); }
            Ok(ParseNode::OrdGroup { mode: self.mode, body: primes, semisimple: false })
        } else {
            Ok(ParseNode::OrdGroup { mode: self.mode, body: primes, semisimple: false })
        }
    }

    /// The scripts after an atom's base (see `spec_scripts`).
    fn parse_scripts(&mut self, base: Option<ParseNode>, sup: Option<ParseNode>, sub: Option<ParseNode>) -> (r: Result<Option<ParseNode>, ParseError>)
        requires
            old(self).wf(),
            !(spec_scripts(old(self).env(), old(self)@, opt_nview(base), opt_nview(sup), opt_nview(sub)) is Stuck),
        ensures
            kept(*old(self), *final(self), r is Ok),
            result_opt(r, spec_scripts(old(self).env(), old(self)@, opt_nview(base), opt_nview(sup), opt_nview(sub)), final(self)@),
        decreases measure(old(self)@), 2nat,
    {
        let ghost p = self@;
        proof { lemma_consume_spaces_measure(p); }
        self.consume_spaces();
        let ghost p1 = self@;
        proof { lemma_fetch_measure(p1); }
        let lex = self.fetch();
        let t = lex.text.as_str();
        if str_eq(t, "\\limits") || str_eq(t, "\\nolimits") {
            match base {
                Some(_) => Err(ParseError { message: string_of("Limit controls must follow a math operator") }),
                None => {
                    self.consume();
                    self.parse_scripts(base, sup, sub)
                },
            }
        } else if str_eq(t, "^") || str_eq(t, "_") {
            let is_sup = str_eq(t, "^");
            if is_sup && sup.is_some() {
                return Err(ParseError { message: string_of("Double superscript") });
            }
            if !is_sup && sub.is_some() {
                return Err(ParseError { message: string_of("Double subscript") });
            }
            let s = match self.handle_sup_sub_script(if is_sup { "superscript" } else { "subscript" }) {
                Ok(s) => s,
                Err(e) => return Err(e),
            };
            if is_sup {
                self.parse_scripts(base, Some(s), sub)
            } else {
                self.parse_scripts(base, sup, Some(s))
            }
        } else if str_eq(t, "'") {
            if sup.is_some() {
                return Err(ParseError { message: string_of("Double superscript") });
            }
            let group = match self.parse_prime_script() {
                Ok(g) => g,
                Err(e) => return Err(e),
            };
            self.parse_scripts(base, Some(group), sub)
        } else if sup.is_some() || sub.is_some() {
            Ok(Some(ParseNode::SupSub {
                mode: self.mode,
                base: match base { Some(b) => Some(Box::new(b)), None => None },
                sup: match sup { Some(b) => Some(Box::new(b)), None => None },
                sub: match sub { Some(b) => Some(Box::new(b)), None => None },
            }))
        } else {
            Ok(base)
        }
    }

    /// Reads an atom (see `spec_atom`): a group, and in math mode the
    /// superscripts, subscripts, primes and limit controls after it. The
    /// input must not reach what this parser does not read (see
    /// `Parsed::Stuck`).
    pub fn parse_atom(&mut self, brk: Option<&str>) -> (r: Result<Option<ParseNode>, ParseError>)
        requires
            old(self).wf(),
            !(spec_atom(old(self).env(), old(self)@, brk_view(brk)) is Stuck),
        ensures
            kept(*old(self), *final(self), r is Ok),
            result_opt(r, spec_atom(old(self).env(), old(self)@, brk_view(brk)), final(self)@),
        decreases measure(old(self)@), 3nat,
    {
        let base = match self.parse_group(brk) {
            Ok(b) => b,
            Err(e) => return Err(e),
        };
        if self.mode == Mode::Text {
            return Ok(base);
        }
        self.parse_scripts(base, None, None)
    }

    /// Reads an expression (see `spec_expression`): atoms up to a token that
    /// ends expressions or the token `brk`. The input must not reach what
    /// this parser does not read (see `Parsed::Stuck`).
    pub fn parse_expression(&mut self, brk: Option<&str>) -> (r: Result<Vec<ParseNode>, ParseError>)
        requires
            old(self).wf(),
            !(spec_expression(old(self).env(), old(self)@, brk_view(brk)) is Stuck),
        ensures
            kept(*old(self), *final(self), r is Ok),
            result_seq(r, spec_expression(old(self).env(), old(self)@, brk_view(brk)), final(self)@),
        decreases measure(old(self)@), 4nat,
    {
        let ghost p = self@;
        proof { lemma_consume_spaces_measure(p); }
        if self.mode == Mode::Math {
            self.consume_spaces();
        }
        let ghost p1 = self@;
        proof { lemma_fetch_measure(p1); }
        let lex = self.fetch();
        let stop = match brk {
            Some(b) => str_eq(b, lex.text.as_str()),
            None => false,
        };
        if ends_expression_exec(lex.text.as_str()) || stop {
            proof { assert(nview_seq(Seq::<ParseNode>::empty()) =~= Seq::<NodeView>::empty()); }
            return Ok(Vec::new());
        }
        match self.parse_atom(brk) {
            Ok(None) => {
                proof { assert(nview_seq(Seq::<ParseNode>::empty()) =~= Seq::<NodeView>::empty()); }
                Ok(Vec::new())
            },
            Ok(Some(n)) => {
                let mut rest = match self.parse_expression(brk) {
                    Ok(v) => v,
                    Err(e) => return Err(e),
                };
                let ghost rv = rest@;
                rest.insert(0, n);
                proof {
                    assert(rest@ =~= seq![n] + rv);
                    lemma_nview_seq_prepend(n, rv);
                }
                Ok(rest)
            },
            Err(e) => Err(e),
        }
    }
}


/// Inside expressions, the view of a symbol of an atom group is an atom of
/// the family of the same name, with the symbol's text.
pub proof fn law_atom_group_views(m: Mode, g: SymbolGroup, t: Seq<char>)
    requires
        crate::parser::is_atom_group(g),
    ensures
        group_view(m, g, t) matches NodeView::Atom { mode, family, text }
            && crate::parser::family_name(family) == crate::parser::group_name(g) && mode == m && text == t,
{
    reveal_strlit("bin");
    reveal_strlit("close");
    reveal_strlit("inner");
    reveal_strlit("open");
    reveal_strlit("punct");
    reveal_strlit("rel");
}

} // verus!
