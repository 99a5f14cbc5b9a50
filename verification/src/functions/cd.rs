use vstd::prelude::*;
use crate::functions::FunctionContext;
use crate::parse_node::ParseNode;
use crate::text::{ends_with, seq_ends_with, string_of};
use crate::mathml::{MathDomNode, MathNode, MathNodeType};

verus! {

/// A `{CD}` label in MathML: the node in an `mpadded` of zero width, so that
/// it does not widen its column.
pub fn padded_node(group: MathDomNode) -> (n: MathNode)
    ensures
        n.node_type == MathNodeType::Mpadded,
        n.children@ == seq![group],
        n.attributes@.len() == 1,
        n.attributes@[0].0@ == "width"@ && n.attributes@[0].1@ == "0"@,
{
    let mut children = Vec::new();
    children.push(group);
    let mut node = MathNode::new(MathNodeType::Mpadded, children);
    node.set_attribute("width", "0");
    node
}

/// The side of a commutative-diagram arrow that a label command puts its
/// label on: left for a command whose name ends in `left`, else right.
pub open spec fn cd_label_side(f: Seq<char>) -> Seq<char> {
    if seq_ends_with(f, "left"@) { "left"@ } else { "right"@ }
}

/// A label beside a vertical arrow of a `{CD}` diagram.
pub fn cd_label_handler(context: &FunctionContext, args: Vec<ParseNode>, opt_args: Vec<Option<ParseNode>>) -> (r: ParseNode)
    requires
        args@.len() >= 1,
    ensures
        r matches ParseNode::CdLabel { mode, side, label }
            && mode == context.mode
            && side@ == cd_label_side(context.func_name@)
            && *label == args@[0],
{
    let mut args = args;
    let label = args.swap_remove(0);
    let side = if ends_with(context.func_name.as_str(), "left") { string_of("left") } else { string_of("right") };
    ParseNode::CdLabel { mode: context.mode, side, label: Box::new(label) }
}

/// The arrow and labels of one `{CD}` cell, kept together.
pub fn cd_parent_handler(context: &FunctionContext, args: Vec<ParseNode>, opt_args: Vec<Option<ParseNode>>) -> (r: ParseNode)
    requires
        args@.len() >= 1,
    ensures
        r == (ParseNode::CdLabelParent { mode: context.mode, fragment: Box::new(args@[0]) }),
{
    let mut args = args;
    let fragment = args.swap_remove(0);
    ParseNode::CdLabelParent { mode: context.mode, fragment: Box::new(fragment) }
}

} // verus!
