use vstd::prelude::*;
use crate::functions::FunctionContext;
use crate::parse_node::ParseNode;

verus! {

/// `\underleftarrow` and friends: an under-accent named by the command over
/// the argument.
pub fn handler_fn(context: &FunctionContext, args: Vec<ParseNode>, opt_args: Vec<Option<ParseNode>>) -> (r: ParseNode)
    requires
        args@.len() >= 1,
    ensures
        r matches ParseNode::AccentUnder { mode, label, is_stretchy, is_shifty, base }
            && mode == context.mode && label@ == context.func_name@ && !is_stretchy && !is_shifty
            && *base == args@[0],
{
    let mut args = args;
    let base = args.swap_remove(0);
    ParseNode::AccentUnder {
        mode: context.mode,
        label: context.func_name.clone(),
        is_stretchy: false,
        is_shifty: false,
        base: Box::new(base),
    }
}

} // verus!
