use vstd::prelude::*;
use crate::functions::FunctionContext;
use crate::parse_node::{ParseNode, Mode};
use crate::text::string_of;

verus! {

/// An enclosure node with the given label, colors and body.
pub open spec fn is_enclose_node(
    r: ParseNode,
    m: Mode,
    lbl: Seq<char>,
    bg: Option<Seq<char>>,
    border: Option<Seq<char>>,
    b: ParseNode,
) -> bool {
    match r {
        ParseNode::Enclose { mode, label, background_color, border_color, body } => {
            &&& mode == m
            &&& label@ == lbl
            &&& match (background_color, bg) {
                (Some(x), Some(y)) => x@ == y,
                (None, None) => true,
                _ => false,
            }
            &&& match (border_color, border) {
                (Some(x), Some(y)) => x@ == y,
                (None, None) => true,
                _ => false,
            }
            &&& *body == b
        },
        _ => false,
    }
}

pub open spec fn is_color_token(n: ParseNode) -> bool {
    n is ColorToken
}

pub open spec fn token_color(n: ParseNode) -> Seq<char> {
    match n {
        ParseNode::ColorToken { color, .. } => color@,
        _ => Seq::empty(),
    }
}

fn take_color(n: ParseNode) -> (c: String)
    requires
        is_color_token(n),
    ensures
        c@ == token_color(n),
{
    match n {
        ParseNode::ColorToken { color, .. } => color,
        _ => String::new(),
    }
}

/// `\colorbox{color}{text}`: the text on a background color.
pub fn color_box_handler_fn(context: &FunctionContext, args: Vec<ParseNode>, opt_args: Vec<Option<ParseNode>>) -> (r: ParseNode)
    requires
        args@.len() >= 2,
        is_color_token(args@[0]),
    ensures
        is_enclose_node(r, context.mode, context.func_name@, Some(token_color(args@[0])), None, args@[1]),
{
    let mut args = args;
    let body = args.swap_remove(1);
    let ct = args.swap_remove(0);
    let color = take_color(ct);
    ParseNode::Enclose {
        mode: context.mode,
        label: context.func_name.clone(),
        background_color: Some(color),
        border_color: None,
        body: Box::new(body),
    }
}

/// `\fcolorbox{border}{background}{text}`: the text framed in the first
/// color on the second.
pub fn fcolor_box_handler_fn(context: &FunctionContext, args: Vec<ParseNode>, opt_args: Vec<Option<ParseNode>>) -> (r: ParseNode)
    requires
        args@.len() >= 3,
        is_color_token(args@[0]),
        is_color_token(args@[1]),
    ensures
        is_enclose_node(r, context.mode, context.func_name@, Some(token_color(args@[1])),
            Some(token_color(args@[0])), args@[2]),
{
    let ghost a = args@;
    let mut args = args;
    let body = args.swap_remove(2);
    assert(args@[1] == a[1]);
    let ct1 = args.swap_remove(1);
    let ct0 = args.swap_remove(0);
    let border = take_color(ct0);
    let background = take_color(ct1);
    ParseNode::Enclose {
        mode: context.mode,
        label: context.func_name.clone(),
        background_color: Some(background),
        border_color: Some(border),
        body: Box::new(body),
    }
}

/// `\fbox{text}`: the text framed.
pub fn fbox_handler_fn(context: &FunctionContext, args: Vec<ParseNode>, opt_args: Vec<Option<ParseNode>>) -> (r: ParseNode)
    requires
        args@.len() >= 1,
    ensures
        is_enclose_node(r, context.mode, seq!['\\', 'f', 'b', 'o', 'x'], None, None, args@[0]),
{
    proof {
        reveal_strlit("\\fbox");
        assert("\\fbox"@ =~= seq!['\\', 'f', 'b', 'o', 'x']);
    }
    let mut args = args;
    let body = args.swap_remove(0);
    ParseNode::Enclose {
        mode: context.mode,
        label: string_of("\\fbox"),
        background_color: None,
        border_color: None,
        body: Box::new(body),
    }
}

/// `\cancel`, `\bcancel`, `\xcancel`, `\sout`, `\phase`: the argument under
/// the notation the command names.
pub fn cancel_handler_fn(context: &FunctionContext, args: Vec<ParseNode>, opt_args: Vec<Option<ParseNode>>) -> (r: ParseNode)
    requires
        args@.len() >= 1,
    ensures
        is_enclose_node(r, context.mode, context.func_name@, None, None, args@[0]),
{
    let mut args = args;
    let body = args.swap_remove(0);
    ParseNode::Enclose {
        mode: context.mode,
        label: context.func_name.clone(),
        background_color: None,
        border_color: None,
        body: Box::new(body),
    }
}

/// `\angl{text}`: the actuarial angle around the argument.
pub fn angl_handler_fn(context: &FunctionContext, args: Vec<ParseNode>, opt_args: Vec<Option<ParseNode>>) -> (r: ParseNode)
    requires
        args@.len() >= 1,
    ensures
        is_enclose_node(r, context.mode, seq!['\\', 'a', 'n', 'g', 'l'], None, None, args@[0]),
{
    proof {
        reveal_strlit("\\angl");
        assert("\\angl"@ =~= seq!['\\', 'a', 'n', 'g', 'l']);
    }
    let mut args = args;
    let body = args.swap_remove(0);
    ParseNode::Enclose {
        mode: context.mode,
        label: string_of("\\angl"),
        background_color: None,
        border_color: None,
        body: Box::new(body),
    }
}

} // verus!
