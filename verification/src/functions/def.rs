use vstd::prelude::*;
use crate::functions::FunctionContext;
use crate::gullet::{Gullet, GulletModel, spec_future, spec_pop, skip_spaces, spec_consume_arg, spec_is_expandable};
use crate::macros::{Token, TokenView, tokens_view, MacroDef, MacroDefinition, MacroExpansion, string_lists_view, strings_view};
use crate::namespace::{spec_get, spec_set, law_get_after_set, NamespaceModel, spec_begin_group, spec_end_group,
    apply_local_sets, law_local_sets_undone_at_end_of_group, law_global_set_survives_end_of_group};
use crate::parse_node::ParseNode;
use crate::patterns::{is_special_token, regex_is_match};
use crate::tables::{pairs_view, spec_lookup, lookup};
use crate::text::{str_eq, string_of, concat_str, parse_unsigned, parses_unsigned, digits_value, unsigned_digits, is_digit};

verus! {

/// The name a control sequence token gives a macro. The token must be one
/// that can name a macro.
pub fn check_control_sequence(tok: Token) -> (name: String)
    requires
        !is_special_token(tok.text@),
    ensures
        name@ == tok.text@,
{
    let special = regex_is_match("^(?:[\\\\{}$&#^_]|EOF)$", tok.text.as_str());
    assert(!special);
    tok.text
}

/// The right-hand side of `\let`: the next token, after an optional `=`
/// and one optional space following it.
pub open spec fn spec_get_rhs(s: Seq<TokenView>) -> (TokenView, Seq<TokenView>) {
    let t = spec_future(s);
    let s1 = spec_pop(s);
    if t.text == "="@ {
        let t2 = spec_future(s1);
        let s2 = spec_pop(s1);
        if t2.text == " "@ { (spec_future(s2), spec_pop(s2)) } else { (t2, s2) }
    } else {
        (t, s1)
    }
}

/// Reads the right-hand side of `\let`.
pub fn get_rhs(gullet: &mut Gullet) -> (tok: Token)
    ensures
        (tok@, final(gullet)@.stack) == spec_get_rhs(old(gullet)@.stack),
        final(gullet).macros == old(gullet).macros,
        final(gullet).functions == old(gullet).functions,
{
    let mut tok = gullet.pop_token();
    if str_eq(tok.text.as_str(), "=") {
        tok = gullet.pop_token();
        if str_eq(tok.text.as_str(), " ") {
            tok = gullet.pop_token();
        }
    }
    tok
}

/// What `\let` makes of a token: the token's own definition where it has
/// one; else a macro that gives the token back, marked not to be expanded,
/// and itself unexpandable unless the token is an expandable function.
pub open spec fn spec_let_definition(g: GulletModel, tok: TokenView) -> MacroDef {
    match spec_get(g.macros, tok.text) {
        Some(d) => d,
        None => MacroDef::Expansion {
            tokens: seq![TokenView { text: tok.text, noexpand: true }],
            num_args: 0,
            delimiters: None,
            unexpandable: !spec_is_expandable(g, tok.text),
        },
    }
}

/// Defines `name` as `tok` is now (the shared part of `\let` and
/// `\futurelet`). A token without a definition is marked not to be expanded.
pub fn let_command(gullet: &mut Gullet, name: &String, tok: &mut Token, global: bool)
    requires
        old(gullet).wf(),
    ensures
        final(gullet).wf(),
        final(gullet)@.stack == old(gullet)@.stack,
        final(gullet)@.functions == old(gullet)@.functions,
        final(gullet)@.macros == spec_set(old(gullet)@.macros, name@,
            Some(spec_let_definition(old(gullet)@, old(tok)@)), global),
        spec_get(final(gullet)@.macros, name@) == Some(spec_let_definition(old(gullet)@, old(tok)@)),
        final(tok).text == old(tok).text,
        final(tok).noexpand == (old(tok).noexpand || spec_get(old(gullet)@.macros, old(tok).text@) is None),
{
    let def = match gullet.macros.get(tok.text.as_str()) {
        Some(d) => d,
        None => {
            tok.noexpand = true;
            let unexpandable = !gullet.is_expandable(tok.text.as_str());
            let mut tokens = Vec::new();
            tokens.push(tok.duplicate());
            proof { assert(tokens_view(tokens@) =~= seq![TokenView { text: tok.text@, noexpand: true }]); }
            MacroDefinition::Expansion(MacroExpansion { tokens, num_args: 0, delimiters: None, unexpandable })
        },
    };
    gullet.macros.set(name, Some(def), global);
    proof { law_get_after_set(old(gullet)@.macros, name@, Some(spec_let_definition(old(gullet)@, old(tok)@)), global); }
}

/// The prefix commands and what each command after `\global` becomes.
pub open spec fn spec_global_map() -> Seq<(Seq<char>, Seq<char>)> {
    seq![
        ("\\global"@, "\\global"@),
        ("\\long"@, "\\\\globallong"@),
        ("\\\\globallong"@, "\\\\globallong"@),
        ("\\def"@, "\\gdef"@),
        ("\\gdef"@, "\\gdef"@),
        ("\\edef"@, "\\xdef"@),
        ("\\xdef"@, "\\xdef"@),
        ("\\let"@, "\\\\globallet"@),
        ("\\futurelet"@, "\\\\globalfuture"@),
    ]
}

fn global_map() -> (v: Vec<(&'static str, &'static str)>)
    ensures
        pairs_view(v@) == spec_global_map(),
{
    let v = vec![
        ("\\global", "\\global"),
        ("\\long", "\\\\globallong"),
        ("\\\\globallong", "\\\\globallong"),
        ("\\def", "\\gdef"),
        ("\\gdef", "\\gdef"),
        ("\\edef", "\\xdef"),
        ("\\xdef", "\\xdef"),
        ("\\let", "\\\\globallet"),
        ("\\futurelet", "\\\\globalfuture"),
    ];
    assert(pairs_view(v@) =~= spec_global_map());
    v
}

/// The stack after a macro prefix: spaces read, and the command that
/// follows made global where the prefix is `\global` (or its `\long` form).
pub open spec fn spec_after_prefix(func_name: Seq<char>, s: Seq<TokenView>) -> Seq<TokenView> {
    let s1 = skip_spaces(s);
    let t = spec_future(s1);
    if (func_name == "\\global"@ || func_name == "\\\\globallong"@) && s1.len() > 0 {
        s1.update(s1.len() - 1, TokenView { text: spec_lookup(spec_global_map(), t.text)->0, noexpand: t.noexpand })
    } else {
        s1
    }
}

/// `\global` and `\long`: after any spaces, the next command must be one
/// that a prefix applies to; after `\global` it is made global (`\def`
/// becomes `\gdef`, `\let` its global form, and so on). The parser then
/// reads that command; `\long` changes nothing, there being no `\par`.
pub fn handler_fn(context: &FunctionContext, gullet: &mut Gullet)
    requires
        spec_lookup(spec_global_map(), spec_future(skip_spaces(old(gullet)@.stack)).text) is Some,
    ensures
        final(gullet).macros == old(gullet).macros,
        final(gullet).functions == old(gullet).functions,
        final(gullet)@.stack == spec_after_prefix(context.func_name@, old(gullet)@.stack),
{
    gullet.consume_spaces();
    let table = global_map();
    let next = gullet.future();
    match lookup(&table, next.text.as_str()) {
        Some(x) => {
            let f = context.func_name.as_str();
            if (str_eq(f, "\\global") || str_eq(f, "\\\\globallong")) && gullet.stack.len() > 0 {
                let ghost s1 = gullet@.stack;
                let mut t = gullet.pop_token();
                t.text = string_of(x);
                gullet.push_token(t);
                proof { assert(gullet@.stack =~= spec_after_prefix(context.func_name@, old(gullet)@.stack)); }
            }
        },
        None => {},
    }
}

/// The parameter text of a definition read from the stack `s`, with `n`
/// parameters and delimiter lists `delims` so far: the parameters, the
/// delimiters, the `{` to append to the body where the parameter text ends
/// in `#`, and the stack left at the body; or the error message.
pub open spec fn scan_params(s: Seq<TokenView>, n: nat, delims: Seq<Seq<Seq<char>>>)
    -> Result<(nat, Seq<Seq<Seq<char>>>, Option<TokenView>, Seq<TokenView>), Seq<char>>
    decreases s.len(),
{
    if spec_future(s).text == "{"@ {
        Ok((n, delims, None, s))
    } else if s.len() == 0 {
        Err("Expected a macro definition"@)
    } else {
        let tok = s.last();
        let s1 = s.drop_last();
        if tok.text == "#"@ {
            if spec_future(s1).text == "{"@ {
                Ok((n, delims.update(delims.len() - 1, delims.last().push("{"@)), Some(spec_future(s1)), s1))
            } else {
                let t2 = spec_future(s1);
                let s2 = spec_pop(s1);
                if parses_unsigned(t2.text, usize::MAX as nat) && digits_value(unsigned_digits(t2.text)) == n + 1 {
                    scan_params(s2, n + 1, delims.push(Seq::empty()))
                } else {
                    Err("Argument number "@ + t2.text + " out of order"@)
                }
            }
        } else if tok.text == "EOF"@ {
            Err("Expected a macro definition"@)
        } else {
            scan_params(s1, n, delims.update(delims.len() - 1, delims.last().push(tok.text)))
        }
    }
}

/// A macro definition as `\def` reads it, before it is stored: the name,
/// the number of parameters, the delimiters before and after them, and the
/// body in stack order.
#[derive(Debug)]
pub struct MacroDefinitionParts {
    pub name: String,
    pub num_args: usize,
    pub delimiters: Vec<Vec<String>>,
    pub tokens: Vec<Token>,
}

/// A definition read by `\def`, as plain values.
pub struct DefinitionView {
    pub name: Seq<char>,
    pub num_args: nat,
    pub delimiters: Seq<Seq<Seq<char>>>,
    pub tokens: Seq<TokenView>,
}

impl View for MacroDefinitionParts {
    type V = DefinitionView;

    open spec fn view(&self) -> DefinitionView {
        DefinitionView {
            name: self.name@,
            num_args: self.num_args as nat,
            delimiters: string_lists_view(self.delimiters@),
            tokens: tokens_view(self.tokens@),
        }
    }
}

/// What `\def` reads from the stack `s`: the definition and the stack
/// left, or the error message.
pub open spec fn spec_read_definition(s: Seq<TokenView>) -> Result<(DefinitionView, Seq<TokenView>), Seq<char>> {
    let name = spec_future(s);
    if is_special_token(name.text) {
        Err("Expected a control sequence"@)
    } else {
        match scan_params(spec_pop(s), 0, seq![Seq::empty()]) {
            Err(e) => Err(e),
            Ok((n, delims, insert, s2)) => match spec_consume_arg(s2) {
                Err(e) => Err(e),
                Ok((arg, s3)) => Ok((
                    DefinitionView {
                        name: name.text,
                        num_args: n,
                        delimiters: delims,
                        tokens: match insert {
                            Some(t) => seq![t] + arg,
                            None => arg,
                        },
                    },
                    s3,
                )),
            },
        }
    }
}


/// The delimiter lists read so far: the finished ones, then the current one.
pub open spec fn delims_view(done: Seq<Vec<String>>, cur: Seq<String>) -> Seq<Seq<Seq<char>>> {
    string_lists_view(done).push(strings_view(cur))
}

/// Reads a definition after `\def` (or `\gdef`, `\edef`, `\xdef`): the
/// control sequence to define, the parameter text (parameters `#1`, `#2`,
/// ... in order, with the delimiters around them) and the body in braces.
/// The input must hold such a definition (`spec_read_definition` says what
/// is refused, and with which message).
pub fn read_definition(gullet: &mut Gullet) -> (p: MacroDefinitionParts)
    requires
        spec_read_definition(old(gullet)@.stack) is Ok,
    ensures
        final(gullet).macros == old(gullet).macros,
        final(gullet).functions == old(gullet).functions,
        spec_read_definition(old(gullet)@.stack) matches Ok((d, rest)) && p@ == d && final(gullet)@.stack == rest,
{
    let tok = gullet.pop_token();
    let name = check_control_sequence(tok);
    let total = gullet.stack.len();
    let ghost s1 = gullet@.stack;
    let mut num_args: usize = 0;
    let mut done: Vec<Vec<String>> = Vec::new();
    let mut cur: Vec<String> = Vec::new();
    let mut insert: Option<Token> = None;
    proof {
        assert(strings_view(cur@) =~= Seq::<Seq<char>>::empty());
        assert(string_lists_view(done@) =~= Seq::<Seq<Seq<char>>>::empty());
        assert(delims_view(done@, cur@) =~= seq![Seq::<Seq<char>>::empty()]);
    }
    loop
        invariant_except_break
            insert is None,
            num_args + gullet@.stack.len() <= s1.len(),
            scan_params(s1, 0, seq![Seq::empty()]) == scan_params(gullet@.stack, num_args as nat, delims_view(done@, cur@)),
        invariant
            s1.len() == total,
            s1 == spec_pop(old(gullet)@.stack),
            !is_special_token(spec_future(old(gullet)@.stack).text),
            spec_read_definition(old(gullet)@.stack) is Ok,
            name@ == spec_future(old(gullet)@.stack).text,
            gullet.macros == old(gullet).macros,
            gullet.functions == old(gullet).functions,
        ensures
            scan_params(s1, 0, seq![Seq::empty()]) == Ok::<(nat, Seq<Seq<Seq<char>>>, Option<TokenView>, Seq<TokenView>), Seq<char>>((
                num_args as nat,
                delims_view(done@, cur@),
                match insert { Some(t) => Some(t@), None => None },
                gullet@.stack,
            )),
        decreases gullet.stack.len(),
    {
        let ghost s = gullet@.stack;
        let ghost dv = delims_view(done@, cur@);
        proof {
            reveal_strlit("EOF");
            reveal_strlit("#");
            reveal_strlit("{");
            assert(!is_digit('E'));
            assert(!parses_unsigned("EOF"@, usize::MAX as nat)) by {
                assert(unsigned_digits("EOF"@) == "EOF"@);
                assert(!is_digit(unsigned_digits("EOF"@)[0]));
            }
        }
        let f = gullet.future();
        if str_eq(f.text.as_str(), "{") {
            break;
        }
        let tok = gullet.pop_token();
        if str_eq(tok.text.as_str(), "#") {
            let f2 = gullet.future();
            if str_eq(f2.text.as_str(), "{") {
                let ghost old_cur = strings_view(cur@);
                cur.push(string_of("{"));
                proof { assert(strings_view(cur@) =~= old_cur.push("{"@)); }
                insert = Some(f2);
                proof {
                    assert(delims_view(done@, cur@) =~= dv.update(dv.len() - 1, dv.last().push("{"@)));
                }
                break;
            }
            let t2 = gullet.pop_token();
            let n = parse_unsigned(t2.text.as_str(), usize::MAX as u64);
            proof {
                assert((usize::MAX as u64) as nat == usize::MAX as nat);
                if parses_unsigned(t2.text@, usize::MAX as nat) {
                    assert(digits_value(unsigned_digits(t2.text@)) <= usize::MAX);
                }
            }
            assert(num_args < usize::MAX);
            let ok = match n {
                Some(v) => v == num_args as u64 + 1,
                None => false,
            };
            assert(ok);
            let mut finished: Vec<String> = Vec::new();
            std::mem::swap(&mut finished, &mut cur);
            let ghost old_done = string_lists_view(done@);
            done.push(finished);
            num_args = num_args + 1;
            proof {
                assert(string_lists_view(done@) =~= old_done.push(strings_view(finished@)));
                assert(strings_view(cur@) =~= Seq::<Seq<char>>::empty());
                assert(delims_view(done@, cur@) =~= dv.push(Seq::empty()));
            }
        } else {
            assert(tok.text@ != "EOF"@);
            let ghost t = tok.text@;
            let ghost old_cur = strings_view(cur@);
            cur.push(tok.text);
            proof { assert(strings_view(cur@) =~= old_cur.push(t)); }
            proof {
                assert(delims_view(done@, cur@) =~= dv.update(dv.len() - 1, dv.last().push(t)));
            }
        }
    }
    let arg = gullet.consume_arg().unwrap();
    let mut tokens = arg;
    match insert {
        Some(t) => {
            let ghost before = tokens_view(tokens@);
            tokens.insert(0, t);
            proof { assert(tokens_view(tokens@) =~= seq![t@] + before); }
        },
        None => {},
    }
    let ghost dv = delims_view(done@, cur@);
    done.push(cur);
    proof { assert(string_lists_view(done@) =~= dv); }
    MacroDefinitionParts { name, num_args, delimiters: done, tokens }
}

/// The definition that `\def` stores: the body, the parameters and the
/// delimiters, expandable.
pub open spec fn parts_definition(p: MacroDefinitionParts) -> MacroDef {
    MacroDef::Expansion {
        tokens: tokens_view(p.tokens@),
        num_args: p.num_args,
        delimiters: Some(string_lists_view(p.delimiters@)),
        unexpandable: false,
    }
}

/// Whether a command defines globally: the commands that `\global` leaves
/// as they are (`\gdef`, `\xdef` and the global forms).
pub open spec fn is_global_command(f: Seq<char>) -> bool {
    spec_lookup(spec_global_map(), f) == Some(f)
}

/// The definition stored for what `\def` read, expandable.
pub open spec fn view_definition(d: DefinitionView) -> MacroDef {
    MacroDef::Expansion {
        tokens: d.tokens,
        num_args: d.num_args as usize,
        delimiters: Some(d.delimiters),
        unexpandable: false,
    }
}

/// Whether a definition command expands its body before storing it.
pub open spec fn expands_body(f: Seq<char>) -> bool {
    f == "\\edef"@ || f == "\\xdef"@
}

/// Stores a definition that `read_definition` read (for `\edef` and
/// `\xdef`, with its body fully expanded by the macro expander, in stack
/// order): globally for `\gdef`, `\xdef` and the global forms, else in the
/// current group.
pub fn store_definition(context: &FunctionContext, gullet: &mut Gullet, parts: MacroDefinitionParts) -> (r: ParseNode)
    requires
        old(gullet).wf(),
    ensures
        final(gullet).wf(),
        final(gullet)@.stack == old(gullet)@.stack,
        final(gullet)@.functions == old(gullet)@.functions,
        final(gullet)@.macros == spec_set(old(gullet)@.macros, parts.name@, Some(parts_definition(parts)),
            is_global_command(context.func_name@)),
        spec_get(final(gullet)@.macros, parts.name@) == Some(parts_definition(parts)),
        r == (ParseNode::Internal { mode: context.mode }),
{
    let table = global_map();
    let global = match lookup(&table, context.func_name.as_str()) {
        Some(x) => str_eq(x, context.func_name.as_str()),
        None => false,
    };
    let ghost def = parts_definition(parts);
    let MacroDefinitionParts { name, num_args, delimiters, tokens } = parts;
    let d = MacroDefinition::Expansion(MacroExpansion { tokens, num_args, delimiters: Some(delimiters), unexpandable: false });
    assert(d@ == def);
    gullet.macros.set(&name, Some(d), global);
    proof { law_get_after_set(old(gullet)@.macros, name@, Some(def), global); }
    ParseNode::Internal { mode: context.mode }
}

/// `\def` and `\gdef`: reads a definition (`read_definition`: the control
/// sequence, as many parameters as `#1`, `#2`, ... in order, the delimiters
/// around them, and the body in braces; `spec_read_definition` says which
/// input is refused) and stores it, globally for `\gdef` and the global
/// forms, else in the current group. `\edef` and `\xdef`, whose body the
/// macro expander expands first, store theirs with `store_definition`.
pub fn handler_fn_2(context: &FunctionContext, gullet: &mut Gullet) -> (r: ParseNode)
    requires
        old(gullet).wf(),
        !expands_body(context.func_name@),
        spec_read_definition(old(gullet)@.stack) is Ok,
    ensures
        final(gullet).wf(),
        spec_read_definition(old(gullet)@.stack) matches Ok((d, rest)) && {
            &&& final(gullet)@.stack == rest
            &&& final(gullet)@.macros == spec_set(old(gullet)@.macros, d.name, Some(view_definition(d)),
                is_global_command(context.func_name@))
            &&& spec_get(final(gullet)@.macros, d.name) == Some(view_definition(d))
        },
        final(gullet)@.functions == old(gullet)@.functions,
        r == (ParseNode::Internal { mode: context.mode }),
{
    let parts = read_definition(gullet);
    proof {
        assert(parts_definition(parts) == view_definition(parts@));
    }
    store_definition(context, gullet, parts)
}

/// Whether a `\let` command defines globally: its global form, which
/// `\global\let` becomes (and which cannot be typed directly).
pub open spec fn let_is_global(f: Seq<char>) -> bool {
    f == "\\\\globallet"@
}

/// Whether a `\futurelet` command defines globally: its global form.
pub open spec fn futurelet_is_global(f: Seq<char>) -> bool {
    f == "\\\\globalfuture"@
}

/// `\let\name=token` (the `=` and one space after it optional): `\name`
/// gets the token's meaning. The global form is `\\globallet`. The name must
/// be a control sequence.
pub fn handler_fn_3(context: &FunctionContext, gullet: &mut Gullet) -> (n: ParseNode)
    requires
        old(gullet).wf(),
        !is_special_token(spec_future(old(gullet)@.stack).text),
    ensures
        final(gullet).wf(),
        final(gullet)@.functions == old(gullet)@.functions,
        ({
            let name = spec_future(old(gullet)@.stack);
            let (rhs, rest) = spec_get_rhs(skip_spaces(spec_pop(old(gullet)@.stack)));
            &&& n == (ParseNode::Internal { mode: context.mode })
            &&& final(gullet)@.stack == rest
            &&& final(gullet)@.macros == spec_set(old(gullet)@.macros, name.text,
                    Some(spec_let_definition(old(gullet)@, rhs)), let_is_global(context.func_name@))
            &&& spec_get(final(gullet)@.macros, name.text) == Some(spec_let_definition(old(gullet)@, rhs))
        }),
{
    let tok = gullet.pop_token();
    let name = check_control_sequence(tok);
    gullet.consume_spaces();
    let mut rhs = get_rhs(gullet);
    let global = str_eq(context.func_name.as_str(), "\\\\globallet");
    let_command(gullet, &name, &mut rhs, global);
    ParseNode::Internal { mode: context.mode }
}

/// `\futurelet\name t1 t2`: `\name` gets the meaning of `t2`, and `t1 t2`
/// are left to be read (`t2` marked not to be expanded where it has no
/// definition). The global form is `\\globalfuture`. The name must be a
/// control sequence.
pub fn handler_fn_4(context: &FunctionContext, gullet: &mut Gullet) -> (n: ParseNode)
    requires
        old(gullet).wf(),
        !is_special_token(spec_future(old(gullet)@.stack).text),
    ensures
        final(gullet).wf(),
        final(gullet)@.functions == old(gullet)@.functions,
        ({
            let s0 = old(gullet)@.stack;
            let name = spec_future(s0);
            let middle = spec_future(spec_pop(s0));
            let t = spec_future(spec_pop(spec_pop(s0)));
            let rest = spec_pop(spec_pop(spec_pop(s0)));
            let marked = TokenView { text: t.text, noexpand: t.noexpand || spec_get(old(gullet)@.macros, t.text) is None };
            &&& n == (ParseNode::Internal { mode: context.mode })
            &&& final(gullet)@.stack == rest.push(marked).push(middle)
            &&& final(gullet)@.macros == spec_set(old(gullet)@.macros, name.text,
                    Some(spec_let_definition(old(gullet)@, t)), futurelet_is_global(context.func_name@))
            &&& spec_get(final(gullet)@.macros, name.text) == Some(spec_let_definition(old(gullet)@, t))
        }),
{
    let tok = gullet.pop_token();
    let name = check_control_sequence(tok);
    let middle = gullet.pop_token();
    let mut t = gullet.pop_token();
    let global = str_eq(context.func_name.as_str(), "\\\\globalfuture");
    let_command(gullet, &name, &mut t, global);
    gullet.push_token(t);
    gullet.push_token(middle);
    ParseNode::Internal { mode: context.mode }
}


proof fn lemma_lookup_at(t: Seq<(Seq<char>, Seq<char>)>, key: Seq<char>, k: int)
    requires
        0 <= k < t.len(),
        t[k].0 == key,
        forall|j: int| 0 <= j < k ==> t[j].0 != key,
    ensures
        spec_lookup(t, key) == Some(t[k].1),
    decreases k,
{
    if k > 0 {
        assert(t[0].0 != key);
        lemma_lookup_at(t.drop_first(), key, k - 1);
    }
}

proof fn lemma_lookup_none(t: Seq<(Seq<char>, Seq<char>)>, key: Seq<char>)
    requires
        forall|j: int| 0 <= j < t.len() ==> t[j].0 != key,
    ensures
        spec_lookup(t, key) is None,
    decreases t.len(),
{
    if t.len() > 0 {
        assert(t[0].0 != key);
        lemma_lookup_none(t.drop_first(), key);
    }
}

proof fn lemma_global_map_names()
    ensures
        spec_lookup(spec_global_map(), "\\global"@) == Some("\\global"@),
        spec_lookup(spec_global_map(), "\\long"@) == Some("\\\\globallong"@),
        spec_lookup(spec_global_map(), "\\\\globallong"@) == Some("\\\\globallong"@),
        spec_lookup(spec_global_map(), "\\def"@) == Some("\\gdef"@),
        spec_lookup(spec_global_map(), "\\gdef"@) == Some("\\gdef"@),
        spec_lookup(spec_global_map(), "\\edef"@) == Some("\\xdef"@),
        spec_lookup(spec_global_map(), "\\xdef"@) == Some("\\xdef"@),
        spec_lookup(spec_global_map(), "\\let"@) == Some("\\\\globallet"@),
        spec_lookup(spec_global_map(), "\\futurelet"@) == Some("\\\\globalfuture"@),
{
    reveal_strlit("\\global");
    reveal_strlit("\\long");
    reveal_strlit("\\\\globallong");
    reveal_strlit("\\def");
    reveal_strlit("\\gdef");
    reveal_strlit("\\edef");
    reveal_strlit("\\xdef");
    reveal_strlit("\\let");
    reveal_strlit("\\\\globallet");
    reveal_strlit("\\futurelet");
    reveal_strlit("\\\\globalfuture");
    assert("\\global"@.len() == 7 && "\\long"@.len() == 5 && "\\\\globallong"@.len() == 12);
    assert("\\def"@.len() == 4 && "\\gdef"@.len() == 5 && "\\edef"@.len() == 5 && "\\xdef"@.len() == 5);
    assert("\\let"@.len() == 4 && "\\\\globallet"@.len() == 11 && "\\futurelet"@.len() == 10);
    assert("\\\\globalfuture"@.len() == 14);
    assert("\\global"@[1] == 'g' && "\\\\globallong"@[1] == '\\');
    let t = spec_global_map();
    assert("\\gdef"@[1] == 'g' && "\\xdef"@[1] == 'x' && "\\edef"@[1] == 'e');
    assert("\\let"@[1] == 'l' && "\\def"@[1] == 'd');
    lemma_lookup_at(t, "\\global"@, 0);
    lemma_lookup_at(t, "\\long"@, 1);
    lemma_lookup_at(t, "\\\\globallong"@, 2);
    lemma_lookup_at(t, "\\def"@, 3);
    lemma_lookup_at(t, "\\gdef"@, 4);
    lemma_lookup_at(t, "\\edef"@, 5);
    lemma_lookup_at(t, "\\xdef"@, 6);
    lemma_lookup_at(t, "\\let"@, 7);
    lemma_lookup_at(t, "\\futurelet"@, 8);
}

/// What `\global` makes of each command it applies to: `\def` becomes
/// `\gdef`, `\edef` becomes `\xdef`, `\let` and `\futurelet` their global
/// forms, `\long` its global form, and the global commands stay as they
/// are; no other command is a prefix target.
pub proof fn law_global_forms(f: Seq<char>)
    ensures
        spec_lookup(spec_global_map(), f) == (
            if f == "\\def"@ || f == "\\gdef"@ { Some("\\gdef"@) }
            else if f == "\\edef"@ || f == "\\xdef"@ { Some("\\xdef"@) }
            else if f == "\\let"@ { Some("\\\\globallet"@) }
            else if f == "\\futurelet"@ { Some("\\\\globalfuture"@) }
            else if f == "\\long"@ || f == "\\\\globallong"@ { Some("\\\\globallong"@) }
            else if f == "\\global"@ { Some("\\global"@) }
            else { None }),
{
    lemma_global_map_names();
    let t = spec_global_map();
    if !(f == "\\def"@ || f == "\\gdef"@ || f == "\\edef"@ || f == "\\xdef"@ || f == "\\let"@
        || f == "\\futurelet"@ || f == "\\long"@ || f == "\\\\globallong"@ || f == "\\global"@) {
        lemma_lookup_none(t, f);
    }
}

/// The commands that define globally are exactly `\gdef`, `\xdef` and the
/// global prefixes; `\def` and `\edef` define in the current group.
pub proof fn law_global_commands(f: Seq<char>)
    ensures
        is_global_command(f) <==> (f == "\\gdef"@ || f == "\\xdef"@ || f == "\\global"@ || f == "\\\\globallong"@),
{
    law_global_forms(f);
    reveal_strlit("\\global");
    reveal_strlit("\\long");
    reveal_strlit("\\\\globallong");
    reveal_strlit("\\def");
    reveal_strlit("\\gdef");
    reveal_strlit("\\edef");
    reveal_strlit("\\xdef");
    reveal_strlit("\\let");
    reveal_strlit("\\\\globallet");
    reveal_strlit("\\futurelet");
    reveal_strlit("\\\\globalfuture");
    assert("\\global"@.len() == 7 && "\\long"@.len() == 5 && "\\\\globallong"@.len() == 12);
    assert("\\def"@.len() == 4 && "\\gdef"@.len() == 5 && "\\edef"@.len() == 5 && "\\xdef"@.len() == 5);
    assert("\\let"@.len() == 4 && "\\\\globallet"@.len() == 11 && "\\futurelet"@.len() == 10);
    assert("\\\\globalfuture"@.len() == 14);
    assert("\\global"@[1] == 'g' && "\\\\globallong"@[1] == '\\');
}

/// A definition made by `\def` or `\edef` inside a group is undone when the
/// group ends: the macros are as they were before the group began.
pub proof fn law_local_definitions_end_with_their_group(n: NamespaceModel, f: Seq<char>, name: Seq<char>, d: MacroDef)
    requires
        f == "\\def"@ || f == "\\edef"@,
    ensures
        spec_end_group(spec_set(spec_begin_group(n), name, Some(d), is_global_command(f))) == n,
{
    law_global_commands(f);
    reveal_strlit("\\def");
    reveal_strlit("\\edef");
    reveal_strlit("\\gdef");
    reveal_strlit("\\xdef");
    reveal_strlit("\\global");
    reveal_strlit("\\\\globallong");
    assert("\\def"@.len() == 4 && "\\gdef"@.len() == 5 && "\\edef"@.len() == 5 && "\\xdef"@.len() == 5);
    assert("\\global"@.len() == 7 && "\\\\globallong"@.len() == 12);
    assert("\\gdef"@[1] == 'g' && "\\xdef"@[1] == 'x' && "\\edef"@[1] == 'e');
    let ops = seq![(name, Some(d))];
    law_local_sets_undone_at_end_of_group(n, ops);
    assert(ops.drop_last() =~= Seq::<(Seq<char>, Option<MacroDef>)>::empty());
    assert(apply_local_sets(spec_begin_group(n), ops.drop_last()) == spec_begin_group(n));
    assert(ops.last() == (name, Some(d)));
    assert(apply_local_sets(spec_begin_group(n), ops) == spec_set(spec_begin_group(n), name, Some(d), false));
}

/// A definition made by `\gdef` or `\xdef` inside a group survives the end
/// of the group.
pub proof fn law_global_definitions_survive_their_group(n: NamespaceModel, f: Seq<char>, name: Seq<char>, d: MacroDef)
    requires
        f == "\\gdef"@ || f == "\\xdef"@,
    ensures
        spec_get(spec_end_group(spec_set(spec_begin_group(n), name, Some(d), is_global_command(f))), name) == Some(d),
{
    law_global_commands(f);
    law_global_set_survives_end_of_group(n, name, Some(d));
    let m = spec_end_group(spec_set(spec_begin_group(n), name, Some(d), true));
    assert(m.current.contains_key(name) && m.current[name] == d);
}


/// `\global\let` and `\global\futurelet` define globally and the plain
/// commands do not: the command `\global` turns `\let` (or `\futurelet`)
/// into is exactly the one that the handler treats as global.
pub proof fn law_global_let_forms(f: Seq<char>)
    ensures
        let_is_global(f) <==> spec_lookup(spec_global_map(), "\\let"@) == Some(f),
        futurelet_is_global(f) <==> spec_lookup(spec_global_map(), "\\futurelet"@) == Some(f),
        !let_is_global("\\let"@),
        !futurelet_is_global("\\futurelet"@),
{
    lemma_global_map_names();
    reveal_strlit("\\let");
    reveal_strlit("\\futurelet");
    reveal_strlit("\\\\globallet");
    reveal_strlit("\\\\globalfuture");
    assert("\\let"@.len() == 4 && "\\\\globallet"@.len() == 11 && "\\futurelet"@.len() == 10);
    assert("\\\\globalfuture"@.len() == 14);
}

} // verus!
