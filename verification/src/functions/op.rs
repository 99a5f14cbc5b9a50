use vstd::prelude::*;
use crate::functions::FunctionContext;
use crate::parse_node::{ParseNode, Mode, spec_ord_argument, ord_argument};
use crate::tables::{lookup, single_char_big_ops, single_char_integrals, spec_lookup,
    spec_single_char_big_ops, spec_single_char_integrals};
use crate::text::string_of;

verus! {

/// An operator node with the given flags, name and body; the other flags are
/// off.
pub open spec fn is_op_node(
    r: ParseNode,
    m: Mode,
    lim: bool,
    sym: bool,
    nm: Option<Seq<char>>,
    bd: Option<Seq<ParseNode>>,
) -> bool {
    match r {
        ParseNode::Op {
            mode,
            limits,
            always_handle_sup_sub,
            suppress_base_shift,
            parent_is_sup_sub,
            symbol,
            name,
            body,
        } => {
            &&& mode == m
            &&& limits == lim
            &&& !always_handle_sup_sub
            &&& !suppress_base_shift
            &&& !parent_is_sup_sub
            &&& symbol == sym
            &&& match (name, nm) {
                (Some(n), Some(s)) => n@ == s,
                (None, None) => true,
                _ => false,
            }
            &&& match (body, bd) {
                (Some(b), Some(s)) => b@ == s,
                (None, None) => true,
                _ => false,
            }
        },
        _ => false,
    }
}

/// The command an alias table gives for a name, or the name itself.
pub open spec fn aliased(t: Seq<(Seq<char>, Seq<char>)>, name: Seq<char>) -> Seq<char> {
    match spec_lookup(t, name) {
        Some(v) => v,
        None => name,
    }
}

fn op_node(mode: Mode, limits: bool, symbol: bool, name: Option<String>, body: Option<Vec<ParseNode>>) -> (r: ParseNode)
    ensures
        r == (ParseNode::Op {
            mode,
            limits,
            always_handle_sup_sub: false,
            suppress_base_shift: false,
            parent_is_sup_sub: false,
            symbol,
            name,
            body,
        }),
{
    ParseNode::Op {
        mode,
        limits,
        always_handle_sup_sub: false,
        suppress_base_shift: false,
        parent_is_sup_sub: false,
        symbol,
        name,
        body,
    }
}

/// Big operators (`\sum`, `\prod`, ...): limits, drawn as symbols. A single
/// character operator is named by its command.
pub fn op_handler_fn(context: &FunctionContext, args: Vec<ParseNode>, opt_args: Vec<Option<ParseNode>>) -> (r: ParseNode)
    ensures
        is_op_node(r, context.mode, true, true,
            Some(aliased(spec_single_char_big_ops(), context.func_name@)), None),
{
    let table = single_char_big_ops();
    let name = match lookup(&table, context.func_name.as_str()) {
        Some(v) => string_of(v),
        None => context.func_name.clone(),
    };
    op_node(context.mode, true, true, Some(name), None)
}

/// `\mathop{...}`: an operator whose body is the argument.
pub fn math_op_handler_fn(context: &FunctionContext, args: Vec<ParseNode>, opt_args: Vec<Option<ParseNode>>) -> (r: ParseNode)
    requires
        args@.len() >= 1,
    ensures
        is_op_node(r, context.mode, false, false, None, Some(spec_ord_argument(args@[0]))),
{
    let mut args = args;
    let body = args.swap_remove(0);
    op_node(context.mode, false, false, None, Some(ord_argument(body)))
}

/// `\sin`, `\log`, ...: named operators without limits, not symbols.
pub fn trigonometric_op_handler_fn(context: &FunctionContext, args: Vec<ParseNode>, opt_args: Vec<Option<ParseNode>>) -> (r: ParseNode)
    ensures
        is_op_node(r, context.mode, false, false, Some(context.func_name@), None),
{
    op_node(context.mode, false, false, Some(context.func_name.clone()), None)
}

/// `\lim`, `\max`, ...: named operators with limits, not symbols.
pub fn gcd_op_handler_fn(context: &FunctionContext, args: Vec<ParseNode>, opt_args: Vec<Option<ParseNode>>) -> (r: ParseNode)
    ensures
        is_op_node(r, context.mode, true, false, Some(context.func_name@), None),
{
    op_node(context.mode, true, false, Some(context.func_name.clone()), None)
}

/// Integrals: symbols without limits. A single character integral is named
/// by its command.
pub fn int_op_handler_fn(context: &FunctionContext, args: Vec<ParseNode>, opt_args: Vec<Option<ParseNode>>) -> (r: ParseNode)
    ensures
        is_op_node(r, context.mode, false, true,
            Some(aliased(spec_single_char_integrals(), context.func_name@)), None),
{
    let table = single_char_integrals();
    let name = match lookup(&table, context.func_name.as_str()) {
        Some(v) => string_of(v),
        None => context.func_name.clone(),
    };
    op_node(context.mode, false, true, Some(name), None)
}

} // verus!
