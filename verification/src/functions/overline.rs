use vstd::prelude::*;
use crate::functions::FunctionContext;
use crate::parse_node::ParseNode;

verus! {

/// `\overline{..}`: a line over the argument.
pub fn handler_fn(context: &FunctionContext, args: Vec<ParseNode>, opt_args: Vec<Option<ParseNode>>) -> (r: ParseNode)
    requires
        args@.len() >= 1,
    ensures
        r == (ParseNode::Overline { mode: context.mode, body: Box::new(args@[0]) }),
{
    let mut args = args;
    let body = args.swap_remove(0);
    ParseNode::Overline { mode: context.mode, body: Box::new(body) }
}

} // verus!
