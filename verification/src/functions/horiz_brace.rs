use vstd::prelude::*;
use crate::functions::FunctionContext;
use crate::parse_node::ParseNode;
use crate::text::{starts_with, seq_starts_with};

verus! {

/// `\overbrace` or `\underbrace` over or under its argument: the brace is
/// above where the command's name begins with `\over`.
pub fn handler_fn(context: &FunctionContext, args: Vec<ParseNode>, opt_args: Vec<Option<ParseNode>>) -> (r: ParseNode)
    requires
        args@.len() >= 1,
    ensures
        r matches ParseNode::HorizBrace { mode, label, is_over, base }
            && mode == context.mode
            && label@ == context.func_name@
            && is_over == seq_starts_with(context.func_name@, "\\over"@)
            && *base == args@[0],
{
    let mut args = args;
    let base = args.swap_remove(0);
    let is_over = starts_with(context.func_name.as_str(), "\\over");
    ParseNode::HorizBrace { mode: context.mode, label: context.func_name.clone(), is_over, base: Box::new(base) }
}

} // verus!
