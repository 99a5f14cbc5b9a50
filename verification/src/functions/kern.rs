use vstd::prelude::*;
use crate::functions::FunctionContext;
use crate::parse_node::{ParseNode, size_value, take_size};

verus! {

/// `\kern`, `\mkern`, `\hskip`, `\mskip`: horizontal space of the given size.
pub fn handler_fn(context: &FunctionContext, args: Vec<ParseNode>, opt_args: Vec<Option<ParseNode>>) -> (r: ParseNode)
    requires
        args@.len() >= 1,
        args@[0] is Size,
    ensures
        r == (ParseNode::Kern { mode: context.mode, dimension: size_value(args@[0]) }),
{
    let mut args = args;
    let dimension = take_size(args.swap_remove(0));
    ParseNode::Kern { mode: context.mode, dimension }
}

} // verus!
