use vstd::prelude::*;
use crate::functions::FunctionContext;
use crate::functions::mclass::{spec_binrel_class, binrel_class};
use crate::parse_node::{ParseNode, spec_ord_argument, ord_argument};

verus! {

/// `\pmb{..}`: poor man's bold, with the math class of its argument.
pub fn handler_fn(context: &FunctionContext, args: Vec<ParseNode>, opt_args: Vec<Option<ParseNode>>) -> (r: ParseNode)
    requires
        args@.len() >= 1,
    ensures
        r matches ParseNode::Pmb { mode, mclass, body }
            && mode == context.mode
            && mclass@ == spec_binrel_class(args@[0])
            && body@ == spec_ord_argument(args@[0]),
{
    let mut args = args;
    let b = args.swap_remove(0);
    let mclass = binrel_class(&b);
    ParseNode::Pmb { mode: context.mode, mclass, body: ord_argument(b) }
}

} // verus!
