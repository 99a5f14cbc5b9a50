use vstd::prelude::*;
use crate::functions::FunctionContext;
use crate::node_view::nview_seq;
use crate::parse_expr::{Parsed, ParseEnv, spec_expression};
use crate::parse_node::{Mode, ParseError, ParseNode, StyleStr};
use crate::parser::{Parser, ParserModel, spec_fetch, spec_consume, same_env};
use crate::node_view::NodeView;
use crate::text::{str_eq, concat_str};

verus! {

/// The token that closes math opened by `f`: `\)` after `\(`, `$` after
/// `$`.
pub open spec fn math_close(f: Seq<char>) -> Seq<char> {
    if f == "\\("@ { "\\)"@ } else { "$"@ }
}

/// What `\(` or `$` reads from the state `p` on: in math mode, an
/// expression up to the closing token, which must follow and is consumed;
/// the parser is then back in the mode of `p`.
pub open spec fn spec_inline_math(env: ParseEnv, p: ParserModel, f: Seq<char>) -> Parsed<Seq<NodeView>> {
    let close = math_close(f);
    match spec_expression(env, ParserModel { mode: Mode::Math, ..p }, Some(close)) {
        Parsed::Done(body, q) => {
            let (t, q1) = spec_fetch(q);
            if t.text != close {
                Parsed::Failed("Expected '"@ + close + "', got '"@ + t.text + "'"@)
            } else {
                Parsed::Done(body, ParserModel { mode: p.mode, ..spec_consume(q1) })
            }
        },
        Parsed::Failed(m) => Parsed::Failed(m),
        Parsed::Stuck => Parsed::Stuck,
    }
}

/// `\(...\)` and `$...$` inside text: the math up to the closing token (see
/// `spec_inline_math`), read in math mode and kept in text style; the node
/// has the mode the parser returns to. The input must not reach what the
/// parser does not read (see `Parsed::Stuck`).
pub fn handler_fn(parser: &mut Parser, context: &FunctionContext) -> (r: Result<ParseNode, ParseError>)
    requires
        old(parser).wf(),
        !(spec_inline_math(old(parser).env(), old(parser)@, context.func_name@) is Stuck),
    ensures
        match spec_inline_math(old(parser).env(), old(parser)@, context.func_name@) {
            Parsed::Done(body, q) => r matches Ok(ParseNode::Styling { mode, style, body: b }) && {
                &&& mode == old(parser).mode
                &&& style == StyleStr::Text
                &&& nview_seq(b@) == body
                &&& final(parser)@ == q
                &&& final(parser).wf() && same_env(*old(parser), *final(parser))
            },
            Parsed::Failed(m) => r matches Err(e) && e.message@ == m,
            Parsed::Stuck => false,
        },
{
    let outer_mode = parser.mode;
    let ghost env = parser.env();
    parser.mode = Mode::Math;
    assert(parser.env() == env);
    let close: &str = if str_eq(context.func_name.as_str(), "\\(") { "\\)" } else { "$" };
    let body = match parser.parse_expression(Some(close)) {
        Ok(b) => b,
        Err(e) => return Err(e),
    };
    let t = parser.fetch();
    if !str_eq(t.text.as_str(), close) {
        let m1 = concat_str("Expected '", close);
        let m2 = concat_str(m1.as_str(), "', got '");
        let m3 = concat_str(m2.as_str(), t.text.as_str());
        return Err(ParseError { message: concat_str(m3.as_str(), "'") });
    }
    parser.consume();
    parser.mode = outer_mode;
    Ok(ParseNode::Styling { mode: parser.mode, style: StyleStr::Text, body })
}

} // verus!
