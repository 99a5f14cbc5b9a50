use vstd::prelude::*;
use crate::functions::FunctionContext;
use crate::parse_node::{ParseNode, size_value, take_size};

verus! {

/// `\raisebox{amount}{body}`: the body raised by the amount.
pub fn handler_fn(context: &FunctionContext, args: Vec<ParseNode>, opt_args: Vec<Option<ParseNode>>) -> (r: ParseNode)
    requires
        args@.len() >= 2,
        args@[0] is Size,
    ensures
        r == (ParseNode::Raisebox { mode: context.mode, dy: size_value(args@[0]), body: Box::new(args@[1]) }),
{
    let mut args = args;
    let body = args.swap_remove(1);
    let dy = take_size(args.swap_remove(0));
    ParseNode::Raisebox { mode: context.mode, dy, body: Box::new(body) }
}

} // verus!
