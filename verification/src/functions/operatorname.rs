use vstd::prelude::*;
use crate::functions::FunctionContext;
use crate::parse_node::{ParseNode, spec_ord_argument, ord_argument};
use crate::text::str_eq;

verus! {

/// `\operatorname{..}` and `\operatorname*{..}`: an operator named by its
/// argument; the starred form (`\operatornamewithlimits`) always handles its
/// scripts itself.
pub fn handler_fn(context: &FunctionContext, args: Vec<ParseNode>, opt_args: Vec<Option<ParseNode>>) -> (r: ParseNode)
    requires
        args@.len() >= 1,
    ensures
        r matches ParseNode::OperatorName { mode, body, always_handle_sup_sub, limits, parent_is_sup_sub }
            && mode == context.mode
            && body@ == spec_ord_argument(args@[0])
            && always_handle_sup_sub == (context.func_name@ == "\\operatornamewithlimits"@)
            && !limits && !parent_is_sup_sub,
{
    let mut args = args;
    let b = args.swap_remove(0);
    let always = str_eq(context.func_name.as_str(), "\\operatornamewithlimits");
    ParseNode::OperatorName {
        mode: context.mode,
        body: ord_argument(b),
        always_handle_sup_sub: always,
        limits: false,
        parent_is_sup_sub: false,
    }
}

} // verus!
