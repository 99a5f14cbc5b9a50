use vstd::prelude::*;
use crate::functions::FunctionContext;
use crate::parse_node::ParseNode;
use crate::text::drop_chars;

verus! {

/// `\mathllap`, `\mathrlap`, `\mathclap`: the argument overlapping to the
/// left, to the right or on both sides; the alignment is the command's name
/// after its first five characters (`llap`, `rlap`, `clap`).
pub fn lap_handler_fn(context: &FunctionContext, args: Vec<ParseNode>, opt_args: Vec<Option<ParseNode>>) -> (r: ParseNode)
    requires
        args@.len() >= 1,
        context.func_name@.len() >= 5,
        forall|i: int| 0 <= i < 5 ==> (#[trigger] context.func_name@[i] as u32) < 128,
    ensures
        r matches ParseNode::Lap { mode, alignment, body }
            && mode == context.mode
            && alignment@ == context.func_name@.skip(5)
            && *body == args@[0],
{
    let mut args = args;
    let body = args.swap_remove(0);
    let alignment = drop_chars(context.func_name.as_str(), 5);
    ParseNode::Lap { mode: context.mode, alignment, body: Box::new(body) }
}

} // verus!
