use vstd::prelude::*;
use crate::functions::FunctionContext;
use crate::functions::cr::{is_opt_size, opt_size_value, take_opt_size};
use crate::parse_node::{ParseNode, size_value, take_size};

verus! {

/// `\rule[shift]{width}{height}`: a filled box of the given size, raised by
/// the optional shift.
pub fn handler_fn(context: &FunctionContext, args: Vec<ParseNode>, opt_args: Vec<Option<ParseNode>>) -> (r: ParseNode)
    requires
        args@.len() >= 2,
        args@[0] is Size,
        args@[1] is Size,
        opt_args@.len() >= 1,
        is_opt_size(opt_args@[0]),
    ensures
        r == (ParseNode::Rule {
            mode: context.mode,
            shift: opt_size_value(opt_args@[0]),
            width: size_value(args@[0]),
            height: size_value(args@[1]),
        }),
{
    let mut args = args;
    let mut opt_args = opt_args;
    let shift = take_opt_size(opt_args.swap_remove(0));
    let height = take_size(args.swap_remove(1));
    let width = take_size(args.swap_remove(0));
    ParseNode::Rule { mode: context.mode, shift, width, height }
}

} // verus!
