use vstd::prelude::*;
use crate::functions::FunctionContext;
use crate::parse_node::{ParseNode, Mode, spec_ord_argument, ord_argument};
use crate::text::{str_chars, string_of, push_char};

verus! {

pub open spec fn url_text(n: ParseNode) -> Seq<char> {
    match n {
        ParseNode::Url { url, .. } => url@,
        _ => Seq::empty(),
    }
}

fn take_url(n: ParseNode) -> (u: String)
    requires
        n is Url,
    ensures
        u@ == url_text(n),
{
    match n {
        ParseNode::Url { url, .. } => url,
        _ => String::new(),
    }
}

/// `\href{url}{body}`: the body as a link to the url.
pub fn href_handler_fn(context: &FunctionContext, args: Vec<ParseNode>, opt_args: Vec<Option<ParseNode>>) -> (r: ParseNode)
    requires
        args@.len() >= 2,
        args@[0] is Url,
    ensures
        r matches ParseNode::Href { mode, href, body } && mode == context.mode
            && href@ == url_text(args@[0]) && body@ == spec_ord_argument(args@[1]),
{
    let mut args = args;
    let body = args.swap_remove(1);
    let u = args.swap_remove(0);
    let href = take_url(u);
    ParseNode::Href { mode: context.mode, href, body: ord_argument(body) }
}

/// The text that shows a character of a url: a tilde is shown by
/// `\textasciitilde`, any other character by itself.
pub open spec fn url_char_text(c: char) -> Seq<char> {
    if c == '~' { "\\textasciitilde"@ } else { seq![c] }
}

/// Whether `n` is a text-mode character that shows `c`.
pub open spec fn shows_url_char(n: ParseNode, c: char) -> bool {
    n matches ParseNode::TextOrd { mode, text } && mode == Mode::Text && text@ == url_char_text(c)
}

/// `\url{url}`: a link to the url, shown as the url's characters in
/// typewriter text.
pub fn url_handler_fn(context: &FunctionContext, args: Vec<ParseNode>, opt_args: Vec<Option<ParseNode>>) -> (r: ParseNode)
    requires
        args@.len() >= 1,
        args@[0] is Url,
    ensures
        r matches ParseNode::Href { mode, href, body }
            && mode == context.mode
            && href@ == url_text(args@[0])
            && body@.len() == 1
            && (body@[0] matches ParseNode::Text { mode: tmode, font: Some(f), body: chars }
                && tmode == context.mode
                && f@ == "\\texttt"@
                && chars@.len() == url_text(args@[0]).len()
                && forall|i: int| 0 <= i < chars@.len() ==> #[trigger] shows_url_char(chars@[i], url_text(args@[0])[i])),
{
    let mut args = args;
    let u = args.swap_remove(0);
    let href = take_url(u);
    let cs = str_chars(href.as_str());
    let mut chars: Vec<ParseNode> = Vec::new();
    let mut i: usize = 0;
    while i < cs.len()
        invariant
            cs@ == href@,
            i <= cs@.len(),
            chars@.len() == i,
            forall|j: int| 0 <= j < i ==> #[trigger] shows_url_char(chars@[j], cs@[j]),
        decreases cs.len() - i,
    {
        let c = cs[i];
        let text = if c == '~' {
            string_of("\\textasciitilde")
        } else {
            let mut t = String::new();
            push_char(&mut t, c);
            assert(t@ =~= seq![c]);
            t
        };
        chars.push(ParseNode::TextOrd { mode: Mode::Text, text });
        i = i + 1;
    }
    let body = ParseNode::Text { mode: context.mode, font: Some(string_of("\\texttt")), body: chars };
    let mut outer = Vec::new();
    outer.push(body);
    ParseNode::Href { mode: context.mode, href, body: outer }
}

} // verus!
