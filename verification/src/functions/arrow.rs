use vstd::prelude::*;
use crate::functions::FunctionContext;
use crate::parse_node::ParseNode;
use crate::mathml::{MathDomNode, MathNode, MathNodeType};

verus! {

/// The MathML padding around an arrow's text: the text (if any) in an
/// `mpadded` that is 0.6em wider, with 0.3em on the left.
#[allow(non_snake_case)]
pub fn paddedNode(group: Option<MathDomNode>) -> (n: MathNode)
    ensures
        n.node_type == MathNodeType::Mpadded,
        match group {
            Some(g) => n.children@ == seq![g],
            None => n.children@.len() == 0,
        },
        n.attributes@.len() == 2,
        n.attributes@[0].0@ == "width"@ && n.attributes@[0].1@ == "+0.6em"@,
        n.attributes@[1].0@ == "lspace"@ && n.attributes@[1].1@ == "0.3em"@,
{
    let mut children = Vec::new();
    match group {
        Some(g) => children.push(g),
        None => {},
    }
    let mut node = MathNode::new(MathNodeType::Mpadded, children);
    node.set_attribute("width", "+0.6em");
    node.set_attribute("lspace", "0.3em");
    node
}

/// An extensible arrow (`\xrightarrow` and the like) with its text above
/// and, where the optional argument was given, its text below.
pub fn handler_fn(context: &FunctionContext, args: Vec<ParseNode>, opt_args: Vec<Option<ParseNode>>) -> (r: ParseNode)
    requires
        args@.len() >= 1,
        opt_args@.len() >= 1,
    ensures
        r matches ParseNode::XArrow { mode, label, body, below }
            && mode == context.mode
            && label@ == context.func_name@
            && *body == args@[0]
            && match (below, opt_args@[0]) {
                (Some(b), Some(o)) => *b == o,
                (None, None) => true,
                _ => false,
            },
{
    let mut args = args;
    let mut opt_args = opt_args;
    let body = args.swap_remove(0);
    let below = match opt_args.swap_remove(0) {
        Some(b) => Some(Box::new(b)),
        None => None,
    };
    ParseNode::XArrow { mode: context.mode, label: context.func_name.clone(), body: Box::new(body), below }
}

} // verus!
