use vstd::prelude::*;
use crate::functions::FunctionContext;
use crate::functions::op::aliased;
use crate::functions::mclass::{binrel_class, spec_binrel_class};
use crate::parse_node::{ParseNode, spec_normalize_argument, normalize_argument,
    spec_is_character_box, is_character_box};
use crate::tables::{lookup, font_aliases, spec_font_aliases};
use crate::text::{drop_chars, concat_str, string_of};
use crate::parse_node::ParseError;
use crate::parser::{Parser, same_env};
use crate::parse_expr::{Parsed, spec_expression, brk_view};
use crate::node_view::nview_seq;

verus! {

/// `\mathrm`, `\mathbb`, ... and their aliases: a font change over the
/// argument; the font is the command name without its backslash, after the
/// alias is resolved.
pub fn font_handler_fn_1(context: &FunctionContext, args: Vec<ParseNode>, opt_args: Vec<Option<ParseNode>>) -> (r: ParseNode)
    requires
        args@.len() >= 1,
        aliased(spec_font_aliases(), context.func_name@).len() >= 1,
    ensures
        r matches ParseNode::Font { mode, font, body }
            && mode == context.mode
            && font@ == aliased(spec_font_aliases(), context.func_name@).skip(1)
            && *body == spec_normalize_argument(args@[0]),
{
    let mut args = args;
    let arg = args.swap_remove(0);
    let body = normalize_argument(arg);
    let table = font_aliases();
    let func = match lookup(&table, context.func_name.as_str()) {
        Some(v) => string_of(v),
        None => context.func_name.clone(),
    };
    let font = drop_chars(func.as_str(), 1);
    ParseNode::Font { mode: context.mode, font, body: Box::new(body) }
}

/// `\boldsymbol` and `\bm`: a bold-symbol font over the argument, wrapped in
/// the atom class of the argument.
pub fn font_handler_fn_2(context: &FunctionContext, args: Vec<ParseNode>, opt_args: Vec<Option<ParseNode>>) -> (r: ParseNode)
    requires
        args@.len() >= 1,
    ensures
        r matches ParseNode::Mclass { mode, mclass, body, is_character_box }
            && mode == context.mode
            && mclass@ == spec_binrel_class(args@[0])
            && is_character_box == spec_is_character_box(args@[0])
            && body@.len() == 1
            && (body@[0] matches ParseNode::Font { mode: fmode, font, body: fbody }
                && fmode == context.mode
                && font@ == seq!['b', 'o', 'l', 'd', 's', 'y', 'm', 'b', 'o', 'l']
                && *fbody == args@[0]),
{
    let mut args = args;
    let body = args.swap_remove(0);
    let is_cb = is_character_box(&body);
    let mclass = binrel_class(&body);
    proof {
        reveal_strlit("boldsymbol");
        assert("boldsymbol"@ =~= seq!['b', 'o', 'l', 'd', 's', 'y', 'm', 'b', 'o', 'l']);
    }
    let font = ParseNode::Font { mode: context.mode, font: string_of("boldsymbol"), body: Box::new(body) };
    let mut inner = Vec::new();
    inner.push(font);
    ParseNode::Mclass { mode: context.mode, mclass, body: inner, is_character_box: is_cb }
}

/// `\rm`, `\bf`, ...: the old font switches apply to the rest of the
/// group (or up to the token `brk` the parser is to stop at), which is read
/// here; the font is `math` followed by the command name without its
/// backslash. The input must not reach what the parser does not read (see
/// `Parsed::Stuck`).
pub fn font_handler_fn_3(parser: &mut Parser, context: &FunctionContext, brk: Option<&str>) -> (r: Result<ParseNode, ParseError>)
    requires
        old(parser).wf(),
        context.func_name@.len() >= 1,
        !(spec_expression(old(parser).env(), old(parser)@, brk_view(brk)) is Stuck),
    ensures
        match spec_expression(old(parser).env(), old(parser)@, brk_view(brk)) {
            Parsed::Done(body, q) => r matches Ok(ParseNode::Font { mode, font, body: fbody }) && {
                &&& mode == old(parser).mode
                &&& font@ == seq!['m', 'a', 't', 'h'] + context.func_name@.skip(1)
                &&& *fbody matches ParseNode::OrdGroup { mode: gmode, body: gbody, semisimple }
                    && gmode == old(parser).mode && nview_seq(gbody@) == body && !semisimple
                &&& final(parser)@ == q
                &&& final(parser).wf() && same_env(*old(parser), *final(parser))
            },
            Parsed::Failed(m) => r matches Err(e) && e.message@ == m,
            Parsed::Stuck => false,
        },
{
    let mode = parser.mode;
    let body = match parser.parse_expression(brk) {
        Ok(b) => b,
        Err(e) => return Err(e),
    };
    proof {
        reveal_strlit("math");
        assert("math"@ =~= seq!['m', 'a', 't', 'h']);
    }
    let rest = drop_chars(context.func_name.as_str(), 1);
    let font = concat_str("math", rest.as_str());
    Ok(ParseNode::Font {
        mode,
        font,
        body: Box::new(ParseNode::OrdGroup { mode: parser.mode, body, semisimple: false }),
    })
}

} // verus!
