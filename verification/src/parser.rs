use vstd::prelude::*;
use crate::gullet::{Gullet, spec_future, spec_pop};
use crate::macros::{Token, TokenView};
use crate::parse_node::{Mode, AtomFamily, ParseNode};
use crate::patterns::{is_verb_token, regex_is_match};
use crate::str_map::StrMap;
use crate::text::{str_chars, string_from_chars, string_of, str_eq};

verus! {

/// The group of a symbol in the symbol table: how the parser builds a node
/// for it.
#[derive(Debug, Clone, Copy, PartialEq, Eq, Structural)]
pub enum SymbolGroup {
    Bin,
    Close,
    Inner,
    Open,
    Punct,
    Rel,
    Accent,
    MathOrd,
    Op,
    Spacing,
    TextOrd,
}

/// The tables the parser reads symbols by: the symbols of math mode and of
/// text mode with their groups, the combining accents (each a one
/// character string) with the commands they stand for in text and in math
/// mode, and the Unicode superscript and subscript characters with the
/// characters they stand for.
#[derive(Debug)]
pub struct SymbolTables {
    pub math: StrMap<SymbolGroup>,
    pub text: StrMap<SymbolGroup>,
    pub accents: StrMap<(String, String)>,
    pub scripts: StrMap<String>,
}

/// The parser's state: the mode, the token source, the depth of open
/// `\left`s, the token looked at and not yet consumed, the symbol tables,
/// and the two settings the parser reads: whether an undefined command is an
/// error, and the color that shows it otherwise.
#[derive(Debug)]
pub struct Parser {
    pub mode: Mode,
    pub gullet: Gullet,
    pub left_right_depth: usize,
    pub next_token: Option<Token>,
    pub tables: SymbolTables,
    pub throw_on_error: bool,
    pub error_color: String,
}

/// The parser's state as plain values: the mode, the tokens still to read
/// (the next one last), and the token looked at.
pub struct ParserModel {
    pub mode: Mode,
    pub stack: Seq<TokenView>,
    pub next: Option<TokenView>,
}

impl View for Parser {
    type V = ParserModel;

    open spec fn view(&self) -> ParserModel {
        ParserModel {
            mode: self.mode,
            stack: self.gullet@.stack,
            next: match self.next_token {
                Some(t) => Some(t@),
                None => None,
            },
        }
    }
}

/// The token looked at, and the state after looking at it.
pub open spec fn spec_fetch(p: ParserModel) -> (TokenView, ParserModel) {
    match p.next {
        Some(t) => (t, p),
        None => {
            let t = spec_future(p.stack);
            (t, ParserModel { mode: p.mode, stack: spec_pop(p.stack), next: Some(t) })
        },
    }
}

/// The state with the token looked at consumed.
pub open spec fn spec_consume(p: ParserModel) -> ParserModel {
    ParserModel { mode: p.mode, stack: p.stack, next: None }
}

/// A combining diacritical mark (U+0300 to U+036F).
pub open spec fn is_combining(c: char) -> bool {
    '\u{300}' <= c && c <= '\u{36f}'
}

/// Where the run of combining marks that ends a text begins.
pub open spec fn marks_start(t: Seq<char>) -> nat
    decreases t.len(),
{
    if t.len() > 0 && is_combining(t.last()) { marks_start(t.drop_last()) } else { t.len() }
}

/// The base of a symbol: the text before its trailing combining marks, with
/// `i` and `j` made dotless where marks follow them.
pub open spec fn symbol_base(t: Seq<char>) -> Seq<char> {
    let k = marks_start(t) as int;
    let base = t.take(k);
    if k == t.len() {
        t
    } else if base == seq!['i'] {
        seq!['\u{131}']
    } else if base == seq!['j'] {
        seq!['\u{237}']
    } else {
        base
    }
}

/// The trailing combining marks of a text.
pub open spec fn symbol_marks(t: Seq<char>) -> Seq<char> {
    t.skip(marks_start(t) as int)
}

/// The text between the delimiters of a `\verb` token, and whether it is
/// `\verb*`.
pub open spec fn verb_body(t: Seq<char>) -> (Seq<char>, bool) {
    let a = t.skip(5);
    let star = a[0] == '*';
    let arg = if star { a.skip(1) } else { a };
    (arg.subrange(1, arg.len() - 1), star)
}

/// Whether a `\verb` token is well formed: after `\verb` and an optional
/// `*`, one ASCII character, the body, and the same character again.
pub open spec fn verb_well_formed(t: Seq<char>) -> bool {
    let a = t.skip(5);
    let arg = if a[0] == '*' { a.skip(1) } else { a };
    arg.len() >= 2 && (arg[0] as u32) < 0x80 && arg[0] == arg.last()
}

/// Whether a token can be read as a symbol without failing: a `\verb`
/// token must be well formed, and any other token must begin with an ASCII
/// character and have an accent for each trailing combining mark where its
/// base is a symbol.
pub open spec fn symbol_readable(tables: SymbolTablesModel, m: Mode, t: Seq<char>) -> bool {
    if is_verb_token(t) {
        verb_well_formed(t)
    } else {
        &&& t.len() > 0
        &&& (t[0] as u32) < 0x80
        &&& mode_table(tables, m).contains_key(symbol_base(t)) ==>
            forall|i: int| 0 <= i < symbol_marks(t).len() ==> tables.accents.contains_key(seq![#[trigger] symbol_marks(t)[i]])
    }
}

/// The symbol tables as plain values.
pub struct SymbolTablesModel {
    pub math: Map<Seq<char>, SymbolGroup>,
    pub text: Map<Seq<char>, SymbolGroup>,
    pub accents: Map<Seq<char>, (String, String)>,
    pub scripts: Map<Seq<char>, String>,
}

impl View for SymbolTables {
    type V = SymbolTablesModel;

    open spec fn view(&self) -> SymbolTablesModel {
        SymbolTablesModel { math: self.math@, text: self.text@, accents: self.accents@, scripts: self.scripts@ }
    }
}

/// The table of a mode.
pub open spec fn mode_table(tables: SymbolTablesModel, m: Mode) -> Map<Seq<char>, SymbolGroup> {
    match m {
        Mode::Math => tables.math,
        Mode::Text => tables.text,
    }
}

/// The accent command a combining mark stands for in a mode.
pub open spec fn accent_label(tables: SymbolTablesModel, m: Mode, c: char) -> Seq<char> {
    let pair = tables.accents[seq![c]];
    match m {
        Mode::Text => pair.0@,
        Mode::Math => pair.1@,
    }
}

/// The node a symbol of a group gives in mode `m`, with text `t`: an atom
/// of its family for the atom groups, an accent token for an accent (as
/// KaTeX builds it), an operator with no name or body and no limits for an
/// operator symbol, and an ordinary or a spacing node with the text.
pub open spec fn is_group_node(n: ParseNode, m: Mode, g: SymbolGroup, t: Seq<char>) -> bool {
    match g {
        SymbolGroup::Bin => n matches ParseNode::Atom { mode, family, text } && mode == m && family == AtomFamily::Bin && text@ == t,
        SymbolGroup::Close => n matches ParseNode::Atom { mode, family, text } && mode == m && family == AtomFamily::Close && text@ == t,
        SymbolGroup::Inner => n matches ParseNode::Atom { mode, family, text } && mode == m && family == AtomFamily::Inner && text@ == t,
        SymbolGroup::Open => n matches ParseNode::Atom { mode, family, text } && mode == m && family == AtomFamily::Open && text@ == t,
        SymbolGroup::Punct => n matches ParseNode::Atom { mode, family, text } && mode == m && family == AtomFamily::Punct && text@ == t,
        SymbolGroup::Rel => n matches ParseNode::Atom { mode, family, text } && mode == m && family == AtomFamily::Rel && text@ == t,
        SymbolGroup::Accent => n matches ParseNode::AccentToken { mode, text } && mode == m && text@ == t,
        SymbolGroup::MathOrd => n matches ParseNode::MathOrd { mode, text } && mode == m && text@ == t,
        SymbolGroup::Op => n matches ParseNode::Op {
                mode, limits, always_handle_sup_sub, suppress_base_shift, parent_is_sup_sub, symbol, name, body }
            && mode == m && !limits && !always_handle_sup_sub && !suppress_base_shift && !parent_is_sup_sub
            && !symbol && name is None && body is None,
        SymbolGroup::Spacing => n matches ParseNode::Spacing { mode, text } && mode == m && text@ == t,
        SymbolGroup::TextOrd => n matches ParseNode::TextOrd { mode, text } && mode == m && text@ == t,
    }
}

/// The node of a symbol wrapped in the accents of its first `k` combining
/// marks, the first mark innermost.
pub open spec fn is_accented_node(n: ParseNode, tables: SymbolTablesModel, m: Mode, g: SymbolGroup, t: Seq<char>, k: nat) -> bool
    decreases k,
{
    if k == 0 {
        is_group_node(n, m, g, symbol_base(t))
    } else {
        n matches ParseNode::Accent { mode, label, is_stretchy, is_shifty, base }
            && mode == m && label@ == accent_label(tables, m, symbol_marks(t)[k - 1])
            && !is_stretchy && is_shifty
            && is_accented_node(*base, tables, m, g, t, (k - 1) as nat)
    }
}

/// What reading a symbol gives: a `\verb` node; the node of a symbol of
/// the mode's table, wrapped in the accents of its combining marks; or
/// nothing, with the token left to be read, where the text is no symbol.
pub open spec fn parse_symbol_result(r: Option<ParseNode>, tables: SymbolTablesModel, p: ParserModel) -> bool {
    let (tok, q) = spec_fetch(p);
    let t = tok.text;
    if is_verb_token(t) {
        r matches Some(ParseNode::Verb { mode, body, star })
            && mode == Mode::Text && body@ == verb_body(t).0 && star == verb_body(t).1
    } else if mode_table(tables, p.mode).contains_key(symbol_base(t)) {
        r matches Some(n) && is_accented_node(n, tables, p.mode,
            mode_table(tables, p.mode)[symbol_base(t)], t, symbol_marks(t).len())
    } else {
        r is None
    }
}

/// The state after reading a symbol: the token consumed, unless it was no
/// symbol.
pub open spec fn spec_parse_symbol_state(tables: SymbolTablesModel, p: ParserModel) -> ParserModel {
    let (tok, q) = spec_fetch(p);
    let t = tok.text;
    if is_verb_token(t) || mode_table(tables, p.mode).contains_key(symbol_base(t)) {
        spec_consume(q)
    } else {
        q
    }
}

/// What parsing leaves as it is: the mode, the macros and functions, the
/// tables, the `\left` depth and the settings.
pub open spec fn same_env(a: Parser, b: Parser) -> bool {
    &&& a.mode == b.mode
    &&& a.gullet.macros@ == b.gullet.macros@
    &&& a.gullet.functions == b.gullet.functions
    &&& a.tables == b.tables
    &&& a.left_right_depth == b.left_right_depth
    &&& a.throw_on_error == b.throw_on_error
    &&& a.error_color == b.error_color
}

impl Parser {
    pub open spec fn wf(&self) -> bool {
        &&& self.gullet.wf()
        &&& self.tables.math.wf()
        &&& self.tables.text.wf()
        &&& self.tables.accents.wf()
        &&& self.tables.scripts.wf()
    }

    /// The token looked at, read from the gullet where none is. Tokens are
    /// taken as the gullet holds them; no macro is expanded here.
    pub fn fetch(&mut self) -> (t: Token)
        ensures
            (t@, final(self)@) == spec_fetch(old(self)@),
            same_env(*old(self), *final(self)),
            old(self).wf() ==> final(self).wf(),
    {
        match &self.next_token {
            Some(t) => t.duplicate(),
            None => {
                let t = self.gullet.pop_token();
                let copy = t.duplicate();
                self.next_token = Some(t);
                copy
            },
        }
    }

    /// Consumes the token looked at.
    pub fn consume(&mut self)
        ensures
            final(self)@ == spec_consume(old(self)@),
            final(self).gullet == old(self).gullet,
            same_env(*old(self), *final(self)),
            old(self).wf() ==> final(self).wf(),
    {
        self.next_token = None;
    }
}

fn is_combining_exec(c: char) -> (b: bool)
    ensures
        b == is_combining(c),
{
    '\u{300}' <= c && c <= '\u{36f}'
}

fn group_node(m: Mode, g: SymbolGroup, text: String) -> (n: ParseNode)
    ensures
        is_group_node(n, m, g, text@),
{
    match g {
        SymbolGroup::Bin => ParseNode::Atom { mode: m, family: AtomFamily::Bin, text },
        SymbolGroup::Close => ParseNode::Atom { mode: m, family: AtomFamily::Close, text },
        SymbolGroup::Inner => ParseNode::Atom { mode: m, family: AtomFamily::Inner, text },
        SymbolGroup::Open => ParseNode::Atom { mode: m, family: AtomFamily::Open, text },
        SymbolGroup::Punct => ParseNode::Atom { mode: m, family: AtomFamily::Punct, text },
        SymbolGroup::Rel => ParseNode::Atom { mode: m, family: AtomFamily::Rel, text },
        SymbolGroup::Accent => ParseNode::AccentToken { mode: m, text },
        SymbolGroup::MathOrd => ParseNode::MathOrd { mode: m, text },
        SymbolGroup::Op => ParseNode::Op {
            mode: m,
            limits: false,
            always_handle_sup_sub: false,
            suppress_base_shift: false,
            parent_is_sup_sub: false,
            symbol: false,
            name: None,
            body: None,
        },
        SymbolGroup::Spacing => ParseNode::Spacing { mode: m, text },
        SymbolGroup::TextOrd => ParseNode::TextOrd { mode: m, text },
    }
}

proof fn lemma_marks_start(t: Seq<char>)
    ensures
        marks_start(t) <= t.len(),
        forall|i: int| marks_start(t) <= i < t.len() ==> is_combining(#[trigger] t[i]),
        marks_start(t) > 0 ==> !is_combining(t[marks_start(t) - 1]),
    decreases t.len(),
{
    if t.len() > 0 && is_combining(t.last()) {
        lemma_marks_start(t.drop_last());
        assert forall|i: int| marks_start(t) <= i < t.len() implies is_combining(#[trigger] t[i]) by {
            if i < t.len() - 1 {
                assert(t[i] == t.drop_last()[i]);
            }
        }
        if marks_start(t) > 0 {
            assert(t[marks_start(t) - 1] == t.drop_last()[marks_start(t) - 1]);
        }
    }
}

impl Parser {
    /// Reads a single symbol: a `\verb` token, or a symbol of the mode's
    /// table possibly followed by combining marks, which become accents
    /// over it. Where the token is no symbol, nothing is read and `None`
    /// comes back. The token must be readable (see `symbol_readable`).
    pub fn parse_symbol(&mut self) -> (r: Option<ParseNode>)
        requires
            old(self).wf(),
            symbol_readable(old(self).tables@, old(self).mode, spec_fetch(old(self)@).0.text),
        ensures
            final(self).wf(),
            parse_symbol_result(r, old(self).tables@, old(self)@),
            final(self)@ == spec_parse_symbol_state(old(self).tables@, old(self)@),
            same_env(*old(self), *final(self)),
    {
        let ghost tables = self.tables@;
        let ghost m = self.mode;
        let nucleus = self.fetch();
        let ghost t = nucleus.text@;
        let chars = str_chars(nucleus.text.as_str());
        if regex_is_match("^\\\\verb[^a-zA-Z]", nucleus.text.as_str()) {
            self.consume();
            let star = chars[5] == '*';
            let start: usize = if star { 6 } else { 5 };
            proof {
                let a = t.skip(5);
                assert(a[0] == t[5]);
                let arg = if star { a.skip(1) } else { a };
                assert(arg =~= t.skip(start as int));
                assert(arg.subrange(1, arg.len() - 1) =~= t.subrange(start + 1, t.len() - 1));
            }
            let body = string_from_chars(&chars, start + 1, chars.len() - 1);
            return Some(ParseNode::Verb { mode: Mode::Text, body, star });
        }
        let n = chars.len();
        let mut k = n;
        proof { lemma_marks_start(t); }
        assert(t.take(n as int) =~= t);
        while k > 0 && is_combining_exec(chars[k - 1])
            invariant
                chars@ == t,
                n == t.len(),
                k <= n,
                marks_start(t.take(k as int)) == marks_start(t),
            decreases k,
        {
            assert(t.take(k as int).drop_last() =~= t.take(k - 1));
            assert(t.take(k as int).last() == t[k - 1]);
            k = k - 1;
        }
        proof {
            if k > 0 {
                assert(t.take(k as int).last() == t[k - 1]);
            }
            assert(marks_start(t.take(k as int)) == k);
        }
        proof {
            reveal_strlit("i");
            reveal_strlit("j");
            reveal_strlit("\u{131}");
            reveal_strlit("\u{237}");
            assert("i"@ =~= seq!['i']);
            assert("j"@ =~= seq!['j']);
            assert("\u{131}"@ =~= seq!['\u{131}']);
            assert("\u{237}"@ =~= seq!['\u{237}']);
            assert(t.take(n as int) =~= t);
        }
        let base = if k == n {
            string_of(nucleus.text.as_str())
        } else {
            let b = string_from_chars(&chars, 0, k);
            assert(b@ =~= t.take(k as int));
            if str_eq(b.as_str(), "i") {
                string_of("\u{131}")
            } else if str_eq(b.as_str(), "j") {
                string_of("\u{237}")
            } else {
                b
            }
        };
        assert(base@ =~= symbol_base(t));
        let found = match self.mode {
            Mode::Math => self.tables.math.get(base.as_str()),
            Mode::Text => self.tables.text.get(base.as_str()),
        };
        let group = match found {
            Some(g) => *g,
            None => return None,
        };
        let ghost g = group;
        let mut node = group_node(self.mode, group, base);
        self.consume();
        let mut i = k;
        while i < n
            invariant
                chars@ == t,
                n == t.len(),
                k <= i <= n,
                k == marks_start(t),
                m == self.mode,
                tables == self.tables@,
                self.tables.accents.wf(),
                mode_table(tables, m).contains_key(symbol_base(t)),
                g == mode_table(tables, m)[symbol_base(t)],
                symbol_readable(tables, m, t),
                !is_verb_token(t),
                is_accented_node(node, tables, m, g, t, (i - k) as nat),
            decreases n - i,
        {
            let mark = string_from_chars(&chars, i, i + 1);
            proof {
                assert(mark@ =~= seq![t[i as int]]);
                assert(symbol_marks(t)[i - k] == t[i as int]);
            }
            let pair = self.tables.accents.get(mark.as_str()).unwrap();
            let label = match self.mode {
                Mode::Text => string_of(pair.0.as_str()),
                Mode::Math => string_of(pair.1.as_str()),
            };
            node = ParseNode::Accent { mode: self.mode, label, is_stretchy: false, is_shifty: true, base: Box::new(node) };
            i = i + 1;
        }
        assert(symbol_marks(t).len() == n - k);
        Some(node)
    }
}


/// The name of an atom family, as the class of its node names it.
pub open spec fn family_name(f: AtomFamily) -> Seq<char> {
    match f {
        AtomFamily::Bin => "bin"@,
        AtomFamily::Close => "close"@,
        AtomFamily::Inner => "inner"@,
        AtomFamily::Open => "open"@,
        AtomFamily::Punct => "punct"@,
        AtomFamily::Rel => "rel"@,
    }
}

/// The name of a symbol group, as the symbol tables write it.
pub open spec fn group_name(g: SymbolGroup) -> Seq<char> {
    match g {
        SymbolGroup::Bin => "bin"@,
        SymbolGroup::Close => "close"@,
        SymbolGroup::Inner => "inner"@,
        SymbolGroup::Open => "open"@,
        SymbolGroup::Punct => "punct"@,
        SymbolGroup::Rel => "rel"@,
        SymbolGroup::Accent => "accent-token"@,
        SymbolGroup::MathOrd => "mathord"@,
        SymbolGroup::Op => "op-token"@,
        SymbolGroup::Spacing => "spacing"@,
        SymbolGroup::TextOrd => "textord"@,
    }
}

/// The groups whose symbols are atoms.
pub open spec fn is_atom_group(g: SymbolGroup) -> bool {
    g == SymbolGroup::Bin || g == SymbolGroup::Close || g == SymbolGroup::Inner
        || g == SymbolGroup::Open || g == SymbolGroup::Punct || g == SymbolGroup::Rel
}

/// A symbol of an atom group gives an atom of the family of the same name
/// (a relation gives a relation atom, an opening symbol an opening atom,
/// ...), with the symbol's text and the mode it is read in; a symbol of
/// any other group gives no atom but the node of its own kind: an
/// ordinary, a spacing node, an accent token, or an operator with no limits.
pub proof fn law_atom_symbols_keep_their_group(n: ParseNode, m: Mode, g: SymbolGroup, t: Seq<char>)
    requires
        is_group_node(n, m, g, t),
    ensures
        is_atom_group(g) <==> n is Atom,
        n matches ParseNode::Atom { mode, family, text } ==>
            family_name(family) == group_name(g) && mode == m && text@ == t,
        g == SymbolGroup::MathOrd ==> (n matches ParseNode::MathOrd { mode, text } && mode == m && text@ == t),
        g == SymbolGroup::TextOrd ==> (n matches ParseNode::TextOrd { mode, text } && mode == m && text@ == t),
        g == SymbolGroup::Spacing ==> (n matches ParseNode::Spacing { mode, text } && mode == m && text@ == t),
        g == SymbolGroup::Accent ==> (n matches ParseNode::AccentToken { mode, text } && mode == m && text@ == t),
        g == SymbolGroup::Op ==> (n matches ParseNode::Op { mode, limits, name, body, .. }
            && mode == m && !limits && name is None && body is None),
{
    reveal_strlit("bin");
    reveal_strlit("close");
    reveal_strlit("inner");
    reveal_strlit("open");
    reveal_strlit("punct");
    reveal_strlit("rel");
}

/// Reading a symbol of an atom group, with no combining marks, gives an
/// atom of the family that the group names, with the symbol's text.
pub proof fn law_reading_an_atom_symbol(r: Option<ParseNode>, tables: SymbolTablesModel, p: ParserModel)
    requires
        parse_symbol_result(r, tables, p),
        !is_verb_token(spec_fetch(p).0.text),
        mode_table(tables, p.mode).contains_key(symbol_base(spec_fetch(p).0.text)),
        symbol_marks(spec_fetch(p).0.text).len() == 0,
        is_atom_group(mode_table(tables, p.mode)[symbol_base(spec_fetch(p).0.text)]),
    ensures
        r matches Some(ParseNode::Atom { mode, family, text })
            && mode == p.mode
            && family_name(family) == group_name(mode_table(tables, p.mode)[symbol_base(spec_fetch(p).0.text)])
            && text@ == symbol_base(spec_fetch(p).0.text),
{
    let t = spec_fetch(p).0.text;
    let g = mode_table(tables, p.mode)[symbol_base(t)];
    law_atom_symbols_keep_their_group(r->0, p.mode, g, symbol_base(t));
}

} // verus!
