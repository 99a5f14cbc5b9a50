use vstd::prelude::*;
use crate::functions::FunctionContext;
use crate::functions::enclose::{is_color_token, token_color};
use crate::macros::{MacroDef, MacroDefinition};
use crate::namespace::{Namespace, spec_set};
use crate::parse_node::{ParseNode, spec_ord_argument, ord_argument};
use crate::text::string_of;
use crate::parse_node::ParseError;
use crate::parser::Parser;
use crate::parse_expr::{Parsed, spec_expression, brk_view};
use crate::node_view::nview_seq;

verus! {

fn take_color(n: ParseNode) -> (c: String)
    requires
        is_color_token(n),
    ensures
        c@ == token_color(n),
{
    match n {
        ParseNode::ColorToken { color, .. } => color,
        _ => String::new(),
    }
}

/// `\textcolor{color}{body}`: the body in the color.
pub fn handler_fn_1(context: &FunctionContext, args: Vec<ParseNode>, opt_args: Vec<Option<ParseNode>>) -> (r: ParseNode)
    requires
        args@.len() >= 2,
        is_color_token(args@[0]),
    ensures
        r matches ParseNode::Color { mode, color, body }
            && mode == context.mode
            && color@ == token_color(args@[0])
            && body@ == spec_ord_argument(args@[1]),
{
    let mut args = args;
    let b = args.swap_remove(1);
    let c = take_color(args.swap_remove(0));
    ParseNode::Color { mode: context.mode, color: c, body: ord_argument(b) }
}

/// The first step of `\color{color}`: records the color as the macro
/// `\current@color` in the current group (as color.sty does, so that a
/// later `\right` takes it) and gives the color back; the parser then reads
/// the rest of the group, which `handler_fn_2` colors.
pub fn begin_color_switch(macros: &mut Namespace, args: Vec<ParseNode>) -> (color: String)
    requires
        old(macros).wf(),
        args@.len() >= 1,
        is_color_token(args@[0]),
    ensures
        color@ == token_color(args@[0]),
        final(macros).wf(),
        final(macros)@ == spec_set(old(macros)@, "\\current@color"@, Some(MacroDef::Str(color@)), false),
{
    let mut args = args;
    let color = take_color(args.swap_remove(0));
    let name = string_of("\\current@color");
    macros.set(&name, Some(MacroDefinition::Str(color.clone())), false);
    color
}

/// `\color{color}`: records the color (`begin_color_switch`), then reads
/// the rest of the group (or up to the token `brk` the parser is to stop
/// at) and colors it. The argument must be a color token, and the input must
/// not reach what the parser does not read (see `Parsed::Stuck`).
pub fn handler_fn_2(parser: &mut Parser, context: &FunctionContext, args: Vec<ParseNode>, brk: Option<&str>) -> (r: Result<ParseNode, ParseError>)
    requires
        old(parser).wf(),
        args@.len() >= 1,
        is_color_token(args@[0]),
        !(spec_expression(old(parser).env(), old(parser)@, brk_view(brk)) is Stuck),
    ensures
        match spec_expression(old(parser).env(), old(parser)@, brk_view(brk)) {
            Parsed::Done(body, q) => r matches Ok(ParseNode::Color { mode, color, body: b }) && {
                &&& mode == old(parser).mode
                &&& color@ == token_color(args@[0])
                &&& nview_seq(b@) == body
                &&& final(parser)@ == q
                &&& final(parser).wf()
                &&& final(parser).mode == old(parser).mode
                &&& final(parser).gullet.macros@ == spec_set(old(parser).gullet.macros@, "\\current@color"@,
                    Some(MacroDef::Str(token_color(args@[0]))), false)
            },
            Parsed::Failed(m) => r matches Err(e) && e.message@ == m,
            Parsed::Stuck => false,
        },
{
    let color = begin_color_switch(&mut parser.gullet.macros, args);
    let body = match parser.parse_expression(brk) {
        Ok(b) => b,
        Err(e) => return Err(e),
    };
    Ok(ParseNode::Color { mode: parser.mode, color, body })
}

} // verus!
