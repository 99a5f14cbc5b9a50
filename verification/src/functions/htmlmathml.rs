use vstd::prelude::*;
use crate::functions::FunctionContext;
use crate::parse_node::{ParseNode, spec_ord_argument, ord_argument};

verus! {

/// `\html@mathml{html}{mathml}`: one body for each kind of output.
pub fn handler_fn(context: &FunctionContext, args: Vec<ParseNode>, opt_args: Vec<Option<ParseNode>>) -> (r: ParseNode)
    requires
        args@.len() >= 2,
    ensures
        r matches ParseNode::HtmlMathml { mode, html, mathml }
            && mode == context.mode
            && html@ == spec_ord_argument(args@[0])
            && mathml@ == spec_ord_argument(args@[1]),
{
    let mut args = args;
    let m = args.swap_remove(1);
    let h = args.swap_remove(0);
    ParseNode::HtmlMathml { mode: context.mode, html: ord_argument(h), mathml: ord_argument(m) }
}

} // verus!
