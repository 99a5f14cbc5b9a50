use vstd::prelude::*;
use crate::parse_node::{Mode, AtomFamily, ParseNode, StyleStr};

verus! {

/// A parse node as plain values, for the kinds of node the parser builds
/// from the input; every other kind is `Other`.
pub enum NodeView {
    OrdGroup { mode: Mode, body: Seq<NodeView>, semisimple: bool },
    TextOrd { mode: Mode, text: Seq<char> },
    MathOrd { mode: Mode, text: Seq<char> },
    Atom { mode: Mode, family: AtomFamily, text: Seq<char> },
    AccentToken { mode: Mode, text: Seq<char> },
    Spacing { mode: Mode, text: Seq<char> },
    Op { mode: Mode, limits: bool, always_handle_sup_sub: bool },
    Verb { mode: Mode, body: Seq<char>, star: bool },
    Accent { mode: Mode, label: Seq<char>, is_stretchy: bool, is_shifty: bool, base: Box<NodeView> },
    SupSub { mode: Mode, base: Option<Box<NodeView>>, sup: Option<Box<NodeView>>, sub: Option<Box<NodeView>> },
    Color { mode: Mode, color: Seq<char>, body: Seq<NodeView> },
    Text { mode: Mode, font: Option<Seq<char>>, body: Seq<NodeView> },
    Styling { mode: Mode, style: StyleStr, body: Seq<NodeView> },
    Other,
}

/// The view of a node. An operator is viewed only where it has no name and
/// no body (as a symbol gives it), with its limit flags; the other flags of
/// such an operator are all unset.
pub open spec fn nview(n: ParseNode) -> NodeView
    decreases n, 1nat,
{
    match n {
        ParseNode::OrdGroup { mode, body, semisimple } => {
            proof { assert(decreases_to!(n => body)); }
            NodeView::OrdGroup { mode, body: nview_seq(body@), semisimple }
        },
        ParseNode::TextOrd { mode, text } => NodeView::TextOrd { mode, text: text@ },
        ParseNode::MathOrd { mode, text } => NodeView::MathOrd { mode, text: text@ },
        ParseNode::Atom { mode, family, text } => NodeView::Atom { mode, family, text: text@ },
        ParseNode::AccentToken { mode, text } => NodeView::AccentToken { mode, text: text@ },
        ParseNode::Spacing { mode, text } => NodeView::Spacing { mode, text: text@ },
        ParseNode::Op { mode, limits, always_handle_sup_sub, suppress_base_shift, parent_is_sup_sub, symbol, name, body } =>
            if name is None && body is None && !suppress_base_shift && !parent_is_sup_sub && !symbol {
                NodeView::Op { mode, limits, always_handle_sup_sub }
            } else {
                NodeView::Other
            },
        ParseNode::Verb { mode, body, star } => NodeView::Verb { mode, body: body@, star },
        ParseNode::Accent { mode, label, is_stretchy, is_shifty, base } =>
            NodeView::Accent { mode, label: label@, is_stretchy, is_shifty, base: Box::new(nview(*base)) },
        ParseNode::SupSub { mode, base, sup, sub } => NodeView::SupSub {
            mode,
            base: match base { Some(b) => Some(Box::new(nview(*b))), None => None },
            sup: match sup { Some(b) => Some(Box::new(nview(*b))), None => None },
            sub: match sub { Some(b) => Some(Box::new(nview(*b))), None => None },
        },
        ParseNode::Color { mode, color, body } => {
            proof { assert(decreases_to!(n => body)); }
            NodeView::Color { mode, color: color@, body: nview_seq(body@) }
        },
        ParseNode::Text { mode, font, body } => {
            proof { assert(decreases_to!(n => body)); }
            NodeView::Text {
                mode,
                font: match font { Some(f) => Some(f@), None => None },
                body: nview_seq(body@),
            }
        },
        ParseNode::Styling { mode, style, body } => {
            proof { assert(decreases_to!(n => body)); }
            NodeView::Styling { mode, style, body: nview_seq(body@) }
        },
        _ => NodeView::Other,
    }
}

/// The views of a list of nodes.
pub open spec fn nview_seq(s: Seq<ParseNode>) -> Seq<NodeView>
    decreases s, 0nat,
{
    if s.len() == 0 {
        Seq::empty()
    } else {
        proof {
            assert(decreases_to!(s => s[s.len() - 1]));
            assert(decreases_to!(s => s.subrange(0, s.len() - 1)));
        }
        nview_seq(s.subrange(0, s.len() - 1)).push(nview(s[s.len() - 1]))
    }
}

/// The view of an optional node.
pub open spec fn opt_nview(n: Option<ParseNode>) -> Option<NodeView> {
    match n {
        Some(x) => Some(nview(x)),
        None => None,
    }
}

pub proof fn lemma_nview_seq_push(s: Seq<ParseNode>, x: ParseNode)
    ensures
        nview_seq(s.push(x)) == nview_seq(s).push(nview(x)),
{
    let t = s.push(x);
    assert(t.subrange(0, t.len() - 1) =~= s);
}

pub proof fn lemma_nview_seq_len(s: Seq<ParseNode>)
    ensures
        nview_seq(s).len() == s.len(),
        forall|i: int| 0 <= i < s.len() ==> #[trigger] nview_seq(s)[i] == nview(s[i]),
    decreases s.len(),
{
    if s.len() > 0 {
        let p = s.subrange(0, s.len() - 1);
        lemma_nview_seq_len(p);
        assert forall|i: int| 0 <= i < s.len() implies #[trigger] nview_seq(s)[i] == nview(s[i]) by {
            if i < s.len() - 1 {
                assert(s[i] == p[i]);
            }
        }
    }
}

} // verus!
