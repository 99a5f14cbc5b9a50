use vstd::prelude::*;
use crate::functions::FunctionContext;
use crate::parse_node::{ParseNode, spec_ord_argument, ord_argument};
use crate::options::Options;

verus! {

/// `\mathchoice{d}{t}{s}{ss}`: one body for each of the four styles.
pub fn handler_fn(context: &FunctionContext, args: Vec<ParseNode>, opt_args: Vec<Option<ParseNode>>) -> (r: ParseNode)
    requires
        args@.len() >= 4,
    ensures
        r matches ParseNode::MathChoice { mode, display, text, script, scriptscript }
            && mode == context.mode
            && display@ == spec_ord_argument(args@[0])
            && text@ == spec_ord_argument(args@[1])
            && script@ == spec_ord_argument(args@[2])
            && scriptscript@ == spec_ord_argument(args@[3]),
{
    let mut args = args;
    let ss = args.swap_remove(3);
    let s = args.swap_remove(2);
    let t = args.swap_remove(1);
    let d = args.swap_remove(0);
    ParseNode::MathChoice {
        mode: context.mode,
        display: ord_argument(d),
        text: ord_argument(t),
        script: ord_argument(s),
        scriptscript: ord_argument(ss),
    }
}

/// The body of a `\mathchoice` that is built: the display body, whatever
/// the current style.
#[allow(non_snake_case)]
pub fn chooseMathStyle<'a>(group: &'a ParseNode, options: &Options) -> (r: &'a Vec<ParseNode>)
    requires
        group is MathChoice,
    ensures
        *r == group->display,
{
    match group {
        ParseNode::MathChoice { display, .. } => display,
        _ => vstd::pervasive::unreached(),
    }
}

} // verus!
