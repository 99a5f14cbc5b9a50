use vstd::prelude::*;
use crate::functions::FunctionContext;
use crate::parse_node::{ParseNode, ParseError, Measurement, size_value, take_size};
use crate::setting::Settings;
use crate::text::concat_str;

verus! {

/// Whether an optional argument is absent or a size.
pub open spec fn is_opt_size(o: Option<ParseNode>) -> bool {
    match o {
        Some(n) => n is Size,
        None => true,
    }
}

/// The measurement of an optional size argument.
pub open spec fn opt_size_value(o: Option<ParseNode>) -> Option<Measurement> {
    match o {
        Some(n) => Some(size_value(n)),
        None => None,
    }
}

/// The measurement of an optional size argument, moved out of it.
pub fn take_opt_size(o: Option<ParseNode>) -> (m: Option<Measurement>)
    requires
        is_opt_size(o),
    ensures
        m == opt_size_value(o),
{
    match o {
        Some(n) => Some(take_size(n)),
        None => None,
    }
}

/// `\\` and `\newline`: a line break, with the optional extra space. It
/// starts a new line unless strict behavior is asked for in display mode.
pub fn handler_fn(context: &FunctionContext, settings: &Settings, args: Vec<ParseNode>, opt_args: Vec<Option<ParseNode>>) -> (r: ParseNode)
    requires
        opt_args@.len() >= 1,
        is_opt_size(opt_args@[0]),
    ensures
        r == (ParseNode::Cr { mode: context.mode, new_line: true, size: opt_size_value(opt_args@[0]) }),
{
    let mut opt_args = opt_args;
    let size = take_opt_size(opt_args.swap_remove(0));
    let new_line = !settings.get_display_mode()
        || !settings.useStrictBehavior("newLineInDisplayMode", "In LaTeX, \\\\ or \\newline does nothing in display mode");
    ParseNode::Cr { mode: context.mode, new_line, size }
}

/// `\hline` and `\hdashline` outside an array: always an error.
pub fn hline_outside_array_handler_fn(context: &FunctionContext, args: Vec<ParseNode>, opt_args: Vec<Option<ParseNode>>) -> (r: Result<ParseNode, ParseError>)
    ensures
        r matches Err(e) && e.message@ == context.func_name@ + " valid only within array environment"@,
{
    let message = concat_str(context.func_name.as_str(), " valid only within array environment");
    Err(ParseError { message })
}

} // verus!
