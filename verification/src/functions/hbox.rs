use vstd::prelude::*;
use crate::functions::FunctionContext;
use crate::parse_node::{ParseNode, spec_ord_argument, ord_argument};

verus! {

/// `\hbox{...}`: the argument set as a horizontal box.
pub fn hbox_handler_fn(context: &FunctionContext, args: Vec<ParseNode>, opt_args: Vec<Option<ParseNode>>) -> (r: ParseNode)
    requires
        args@.len() >= 1,
    ensures
        r matches ParseNode::Hbox { mode, body } && mode == context.mode
            && body@ == spec_ord_argument(args@[0]),
{
    let mut args = args;
    let arg = args.swap_remove(0);
    ParseNode::Hbox { mode: context.mode, body: ord_argument(arg) }
}

} // verus!
