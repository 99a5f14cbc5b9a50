use vstd::prelude::*;
use crate::functions::FunctionContext;
use crate::parse_node::{ParseNode, spec_ord_argument, ord_argument};

verus! {

/// `\phantom{..}`: the argument's space, left empty.
pub fn phantom_handler_fn(context: &FunctionContext, args: Vec<ParseNode>, opt_args: Vec<Option<ParseNode>>) -> (r: ParseNode)
    requires
        args@.len() >= 1,
    ensures
        r matches ParseNode::Phantom { mode, body } && mode == context.mode
            && body@ == spec_ord_argument(args@[0]),
{
    let mut args = args;
    let b = args.swap_remove(0);
    ParseNode::Phantom { mode: context.mode, body: ord_argument(b) }
}

/// `\hphantom{..}`: the argument's width, with no height.
pub fn hphantom_handler_fn(context: &FunctionContext, args: Vec<ParseNode>, opt_args: Vec<Option<ParseNode>>) -> (r: ParseNode)
    requires
        args@.len() >= 1,
    ensures
        r == (ParseNode::HPhantom { mode: context.mode, body: Box::new(args@[0]) }),
{
    let mut args = args;
    let b = args.swap_remove(0);
    ParseNode::HPhantom { mode: context.mode, body: Box::new(b) }
}

/// `\vphantom{..}`: the argument's height and depth, with no width.
pub fn vphantom_handler_fn(context: &FunctionContext, args: Vec<ParseNode>, opt_args: Vec<Option<ParseNode>>) -> (r: ParseNode)
    requires
        args@.len() >= 1,
    ensures
        r == (ParseNode::VPhantom { mode: context.mode, body: Box::new(args@[0]) }),
{
    let mut args = args;
    let b = args.swap_remove(0);
    ParseNode::VPhantom { mode: context.mode, body: Box::new(b) }
}

} // verus!
