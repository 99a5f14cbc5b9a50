use vstd::prelude::*;
use crate::functions::FunctionContext;
use crate::parse_node::{ParseNode, is_symbol_node, symbol_text};
use crate::tables::{spec_delimiters, lookup_size, delimiter_sizes,
    spec_delimiter_sizes, spec_lookup_size};
use crate::text::{string_of, str_eq, concat_str};
use crate::tables::{contains_name, delimiters};
use crate::parser::{Parser, ParserModel, spec_fetch, spec_consume, same_env};
use crate::parse_expr::{Parsed, ParseEnv, spec_expression, spec_group};
use crate::parse_node::ParseError;
use crate::node_view::{NodeView, nview, nview_seq};
use crate::namespace::{NamespaceModel, spec_get};
use crate::macros::{MacroDef, MacroDefinition};

verus! {

/// Whether a node is accepted as a delimiter: a symbol whose text is one of
/// the delimiters.
pub open spec fn is_valid_delimiter(n: ParseNode) -> bool {
    is_symbol_node(n) && spec_delimiters().contains(symbol_text(n))
}

fn symbol_node_text(n: &ParseNode) -> (t: Option<String>)
    ensures
        is_symbol_node(*n) <==> t is Some,
        t matches Some(s) ==> s@ == symbol_text(*n),
{
    match n {
        ParseNode::Atom { text, .. } => Some(text.clone()),
        ParseNode::AccentToken { text, .. } => Some(text.clone()),
        ParseNode::MathOrd { text, .. } => Some(text.clone()),
        ParseNode::OpToken { text, .. } => Some(text.clone()),
        ParseNode::Spacing { text, .. } => Some(text.clone()),
        ParseNode::TextOrd { text, .. } => Some(text.clone()),
        _ => None,
    }
}

/// The text of a delimiter. The node must be a symbol whose text is one of
/// the delimiters.
pub fn check_delimiter(delim: &ParseNode, func_name: &String) -> (t: String)
    requires
        is_valid_delimiter(*delim),
    ensures
        t@ == symbol_text(*delim),
{
    match symbol_node_text(delim) {
        Some(t) => t,
        None => string_of(""),
    }
}

/// `\big(`, `\Bigl[`, ...: a delimiter at one of four sizes, with the atom
/// class the command gives. The argument must be a delimiter.
pub fn big_handler_fn(context: &FunctionContext, args: Vec<ParseNode>, opt_args: Vec<Option<ParseNode>>) -> (n: ParseNode)
    requires
        args@.len() >= 1,
        is_valid_delimiter(args@[0]),
        spec_lookup_size(spec_delimiter_sizes(), context.func_name@) is Some,
    ensures
        n matches ParseNode::Delimsizing { mode, size, mclass, delim }
            && mode == context.mode
            && spec_lookup_size(spec_delimiter_sizes(), context.func_name@) == Some((mclass@, size))
            && delim@ == symbol_text(args@[0]),
{
    let delim_text = check_delimiter(&args[0], &context.func_name);
    let table = delimiter_sizes();
    let (mclass, size) = match lookup_size(&table, context.func_name.as_str()) {
        Some(p) => p,
        None => ("", 0),
    };
    ParseNode::Delimsizing {
        mode: context.mode,
        size,
        mclass: string_of(mclass),
        delim: delim_text,
    }
}

/// `\right`: the closing delimiter of a `\left...\right` group, with the
/// color in force (`current_color`, the string value of `\current@color`
/// when it is set to one). The argument must be a delimiter.
pub fn lrr_handler_fn(
    context: &FunctionContext,
    args: Vec<ParseNode>,
    opt_args: Vec<Option<ParseNode>>,
    current_color: Option<String>,
) -> (n: ParseNode)
    requires
        args@.len() >= 1,
        is_valid_delimiter(args@[0]),
    ensures
        n matches ParseNode::LeftRightRight { mode, delim, color }
            && mode == context.mode && delim@ == symbol_text(args@[0]) && color == current_color,
{
    let delim = check_delimiter(&args[0], &context.func_name);
    ParseNode::LeftRightRight { mode: context.mode, delim, color: current_color }
}

/// The text of a symbol's view.
pub open spec fn symbol_view_text(g: NodeView) -> Option<Seq<char>> {
    match g {
        NodeView::TextOrd { text, .. } => Some(text),
        NodeView::MathOrd { text, .. } => Some(text),
        NodeView::Atom { text, .. } => Some(text),
        NodeView::AccentToken { text, .. } => Some(text),
        NodeView::Spacing { text, .. } => Some(text),
        _ => None,
    }
}

/// The name of the kind of node a view is of.
pub open spec fn view_kind(g: NodeView) -> Seq<char> {
    match g {
        NodeView::OrdGroup { .. } => "ordgroup"@,
        NodeView::Op { .. } => "op"@,
        NodeView::Verb { .. } => "verb"@,
        NodeView::Accent { .. } => "accent"@,
        NodeView::SupSub { .. } => "supsub"@,
        NodeView::Color { .. } => "color"@,
        NodeView::Text { .. } => "text"@,
        NodeView::Styling { .. } => "styling"@,
        _ => ""@,
    }
}

/// The delimiter that the group after `\right` gives, or the error for it:
/// a symbol must be one of the delimiters, and any other node is refused
/// by its kind.
pub open spec fn right_delimiter(g: NodeView) -> Result<Seq<char>, Seq<char>> {
    match symbol_view_text(g) {
        Some(t) => if spec_delimiters().contains(t) {
            Ok(t)
        } else {
            Err("Invalid delimiter '"@ + t + "' after '\\right'"@)
        },
        None => Err("Invalid delimiter type '"@ + view_kind(g) + "'"@),
    }
}

/// What `\left` reads after its delimiter, from the state `p` on: the body,
/// an expression that stops before `\right`; then `\right` and its
/// argument, a group that must be a delimiter. Gives the body and the
/// closing delimiter.
pub open spec fn spec_left_right(env: ParseEnv, p: ParserModel) -> Parsed<(Seq<NodeView>, Seq<char>)> {
    match spec_expression(env, p, None) {
        Parsed::Done(body, q) => {
            let (t, q1) = spec_fetch(q);
            if t.text != "\\right"@ {
                Parsed::Failed("Expected '\\right', got '"@ + t.text + "'"@)
            } else {
                match spec_group(env, spec_consume(q1), None) {
                    Parsed::Done(Some(g), q2) => match right_delimiter(g) {
                        Ok(d) => Parsed::Done((body, d), q2),
                        Err(m) => Parsed::Failed(m),
                    },
                    Parsed::Done(None, _) => Parsed::Failed("Expected group as argument to '\\right'"@),
                    Parsed::Failed(m) => Parsed::Failed(m),
                    Parsed::Stuck => Parsed::Stuck,
                }
            }
        },
        Parsed::Failed(m) => Parsed::Failed(m),
        Parsed::Stuck => Parsed::Stuck,
    }
}

/// The color that `\right` takes: the string value of `\current@color`,
/// where it is set to one.
pub open spec fn current_color(macros: NamespaceModel) -> Option<Seq<char>> {
    match spec_get(macros, "\\current@color"@) {
        Some(MacroDef::Str(c)) => Some(c),
        _ => None,
    }
}

pub open spec fn opt_string_view(s: Option<String>) -> Option<Seq<char>> {
    match s {
        Some(x) => Some(x@),
        None => None,
    }
}

fn right_delimiter_exec(n: &ParseNode) -> (r: Result<String, String>)
    ensures
        match right_delimiter(nview(*n)) {
            Ok(d) => r matches Ok(x) && x@ == d,
            Err(m) => r matches Err(x) && x@ == m,
        },
{
    let text: Option<&String> = match n {
        ParseNode::TextOrd { text, .. } => Some(text),
        ParseNode::MathOrd { text, .. } => Some(text),
        ParseNode::Atom { text, .. } => Some(text),
        ParseNode::AccentToken { text, .. } => Some(text),
        ParseNode::Spacing { text, .. } => Some(text),
        _ => None,
    };
    match text {
        Some(t) => {
            if contains_name(&delimiters(), t.as_str()) {
                Ok(t.clone())
            } else {
                let m1 = concat_str("Invalid delimiter '", t.as_str());
                Err(concat_str(m1.as_str(), "' after '\\right'"))
            }
        },
        None => {
            let kind: &str = match n {
                ParseNode::OrdGroup { .. } => "ordgroup",
                ParseNode::Op { suppress_base_shift, parent_is_sup_sub, symbol, name, body, .. } =>
                    if name.is_none() && body.is_none() && !*suppress_base_shift && !*parent_is_sup_sub && !*symbol { "op" } else { "" },
                ParseNode::Verb { .. } => "verb",
                ParseNode::Accent { .. } => "accent",
                ParseNode::SupSub { .. } => "supsub",
                ParseNode::Color { .. } => "color",
                ParseNode::Text { .. } => "text",
                ParseNode::Styling { .. } => "styling",
                _ => "",
            };
            proof {
                reveal_strlit("ordgroup");
                reveal_strlit("op");
                reveal_strlit("verb");
                reveal_strlit("accent");
                reveal_strlit("supsub");
                reveal_strlit("color");
                reveal_strlit("text");
                reveal_strlit("styling");
                reveal_strlit("");
            }
            let m1 = concat_str("Invalid delimiter type '", kind);
            Err(concat_str(m1.as_str(), "'"))
        },
    }
}

/// `\left`: the group up to the matching `\right` (see `spec_left_right`).
/// The body is read one `\left` deeper, and the depth is back where it was
/// after it; the node gets the opening delimiter, the body, the closing
/// delimiter and the color in force at `\right`. The argument must be a
/// delimiter, and the input must not reach what the parser does not read
/// (see `Parsed::Stuck`).
pub fn lr_handler_fn(
    parser: &mut Parser,
    context: &FunctionContext,
    args: Vec<ParseNode>,
    opt_args: Vec<Option<ParseNode>>,
) -> (r: Result<ParseNode, ParseError>)
    requires
        old(parser).wf(),
        args@.len() >= 1,
        is_valid_delimiter(args@[0]),
        old(parser).left_right_depth < usize::MAX,
        !(spec_left_right(old(parser).env(), old(parser)@) is Stuck),
    ensures
        match spec_left_right(old(parser).env(), old(parser)@) {
            Parsed::Done((body, d), q) => r matches Ok(ParseNode::LeftRight { mode, body: b, left, right, right_color }) && {
                &&& mode == old(parser).mode
                &&& nview_seq(b@) == body
                &&& left@ == symbol_text(args@[0])
                &&& right@ == d
                &&& opt_string_view(right_color) == current_color(old(parser).gullet.macros@)
                &&& final(parser)@ == q
                &&& final(parser).wf() && same_env(*old(parser), *final(parser))
            },
            Parsed::Failed(m) => r matches Err(e) && e.message@ == m,
            Parsed::Stuck => false,
        },
{
    let ghost p = parser@;
    let ghost env = parser.env();
    let delim_text = check_delimiter(&args[0], &context.func_name);
    parser.left_right_depth = parser.left_right_depth + 1;
    assert(parser.env() == env);
    let body = match parser.parse_expression(None) {
        Ok(b) => b,
        Err(e) => return Err(e),
    };
    parser.left_right_depth = parser.left_right_depth - 1;
    let t = parser.fetch();
    if !str_eq(t.text.as_str(), "\\right") {
        let m1 = concat_str("Expected '\\right', got '", t.text.as_str());
        return Err(ParseError { message: concat_str(m1.as_str(), "'") });
    }
    parser.consume();
    let group = match parser.parse_group(None) {
        Ok(g) => g,
        Err(e) => return Err(e),
    };
    let g = match group {
        Some(g) => g,
        None => return Err(ParseError { message: string_of("Expected group as argument to '\\right'") }),
    };
    let right = match right_delimiter_exec(&g) {
        Ok(d) => d,
        Err(m) => return Err(ParseError { message: m }),
    };
    let color = match parser.gullet.macros.get("\\current@color") {
        Some(MacroDefinition::Str(c)) => Some(c),
        _ => None,
    };
    Ok(ParseNode::LeftRight { mode: parser.mode, body, left: delim_text, right, right_color: color })
}

/// `\middle`: a delimiter between `\left` and `\right`. The argument must be
/// a delimiter, and a `\left` must be open.
pub fn middle_handler_fn(context: &FunctionContext, args: Vec<ParseNode>, opt_args: Vec<Option<ParseNode>>) -> (n: ParseNode)
    requires
        args@.len() >= 1,
        is_valid_delimiter(args@[0]),
        context.left_right_depth > 0,
    ensures
        n matches ParseNode::Middle { mode, delim }
            && mode == context.mode && delim@ == symbol_text(args@[0]),
{
    let delim = check_delimiter(&args[0], &context.func_name);
    ParseNode::Middle { mode: context.mode, delim }
}

/// A `\left...\right` node must have been fully parsed: its body is empty
/// at that point.
pub fn assert_parsed(group: &ParseNode)
    requires
        group matches ParseNode::LeftRight { body, .. } && body@.len() == 0,
{
}

} // verus!
