use vstd::prelude::*;
use crate::functions::FunctionContext;
use crate::parse_node::ParseNode;

verus! {

/// `\relax`: an internal node that renders as nothing.
pub fn handler_fn(context: &FunctionContext, args: Vec<ParseNode>, opt_args: Vec<Option<ParseNode>>) -> (r: ParseNode)
    ensures
        r == (ParseNode::Internal { mode: context.mode }),
{
    ParseNode::Internal { mode: context.mode }
}

} // verus!
