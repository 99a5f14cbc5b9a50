use vstd::prelude::*;
use crate::functions::FunctionContext;
use crate::parse_node::ParseNode;
use crate::text::{str_eq, string_of};
use crate::style::{StyleInterface, spec_style, spec_text, D, T, S, SS};

verus! {

pub open spec fn is_bar_frac(f: Seq<char>) -> bool {
    f == "\\dfrac"@ || f == "\\frac"@ || f == "\\tfrac"@
}

pub open spec fn is_binom(f: Seq<char>) -> bool {
    f == "\\dbinom"@ || f == "\\binom"@ || f == "\\tbinom"@
}

/// The commands that make generalized fractions.
pub open spec fn is_genfrac_command(f: Seq<char>) -> bool {
    is_bar_frac(f) || is_binom(f) || f == "\\\\atopfrac"@ || f == "\\\\bracefrac"@
        || f == "\\\\brackfrac"@
}

/// The delimiters a fraction command puts around the fraction.
pub open spec fn genfrac_delims(f: Seq<char>) -> Option<(Seq<char>, Seq<char>)> {
    if is_binom(f) {
        Some(("("@, ")"@))
    } else if f == "\\\\bracefrac"@ {
        Some(("\\{"@, "\\}"@))
    } else if f == "\\\\brackfrac"@ {
        Some(("["@, "]"@))
    } else {
        None
    }
}

/// The style a fraction command fixes: display, text, or automatic.
pub open spec fn genfrac_size(f: Seq<char>) -> Seq<char> {
    if f == "\\dfrac"@ || f == "\\dbinom"@ {
        "display"@
    } else if f == "\\tfrac"@ || f == "\\tbinom"@ {
        "text"@
    } else {
        "auto"@
    }
}

/// `\frac`, `\binom` and their variants: a fraction of the two arguments,
/// with a bar for the fraction commands and delimiters for the binomials.
pub fn frac_handler_fn(context: &FunctionContext, args: Vec<ParseNode>, opt_args: Vec<Option<ParseNode>>) -> (r: ParseNode)
    requires
        args@.len() >= 2,
        is_genfrac_command(context.func_name@),
    ensures
        r matches ParseNode::Genfrac {
            mode,
            continued,
            numer,
            denom,
            has_bar_line,
            left_delim,
            right_delim,
            size,
        } && mode == context.mode && !continued && *numer == args@[0] && *denom == args@[1]
            && has_bar_line == is_bar_frac(context.func_name@)
            && size@ == genfrac_size(context.func_name@)
            && match (genfrac_delims(context.func_name@), left_delim, right_delim) {
                (Some((l, rt)), Some(x), Some(y)) => x@ == l && y@ == rt,
                (None, None, None) => true,
                _ => false,
            },
{
    let f = context.func_name.as_str();
    let has_bar_line = str_eq(f, "\\dfrac") || str_eq(f, "\\frac") || str_eq(f, "\\tfrac");
    let (left_delim, right_delim) = if str_eq(f, "\\dbinom") || str_eq(f, "\\binom") || str_eq(f, "\\tbinom") {
        (Some(string_of("(")), Some(string_of(")")))
    } else if str_eq(f, "\\\\bracefrac") {
        (Some(string_of("\\{")), Some(string_of("\\}")))
    } else if str_eq(f, "\\\\brackfrac") {
        (Some(string_of("[")), Some(string_of("]")))
    } else {
        (None, None)
    };
    let size = if str_eq(f, "\\dfrac") || str_eq(f, "\\dbinom") {
        string_of("display")
    } else if str_eq(f, "\\tfrac") || str_eq(f, "\\tbinom") {
        string_of("text")
    } else {
        string_of("auto")
    };
    let mut args = args;
    let denom = args.swap_remove(1);
    let numer = args.swap_remove(0);
    ParseNode::Genfrac {
        mode: context.mode,
        continued: false,
        numer: Box::new(numer),
        denom: Box::new(denom),
        has_bar_line,
        left_delim,
        right_delim,
        size,
    }
}

/// The style of a fraction whose command asks for the style `size`: a
/// display fraction is in display style (or, inside a script, in the text
/// style of the script's level); a text fraction in display style goes to
/// text style; a script or scriptscript fraction takes that style; any
/// other keeps the style it is in.
pub open spec fn spec_adjust_style(size: Seq<char>, style: StyleInterface) -> StyleInterface {
    if size == "display"@ {
        if style.id >= S { spec_style(spec_text(style.id)) } else { spec_style(D) }
    } else if size == "text"@ && style.size == 0 {
        spec_style(T)
    } else if size == "script"@ {
        spec_style(S)
    } else if size == "scriptscript"@ {
        spec_style(SS)
    } else {
        style
    }
}

/// The style of a fraction whose command asks for the style `size`, in a
/// context of style `incoming`.
pub fn adjust_style(size: &String, incoming: StyleInterface) -> (r: StyleInterface)
    requires
        incoming.wf(),
    ensures
        r == spec_adjust_style(size@, incoming),
{
    proof {
        reveal_strlit("display");
        reveal_strlit("text");
        reveal_strlit("script");
        reveal_strlit("scriptscript");
    }
    if str_eq(size.as_str(), "display") {
        if incoming.id >= S { incoming.text() } else { StyleInterface::from_id(D) }
    } else if str_eq(size.as_str(), "text") && incoming.size == 0 {
        StyleInterface::from_id(T)
    } else if str_eq(size.as_str(), "script") {
        StyleInterface::from_id(S)
    } else if str_eq(size.as_str(), "scriptscript") {
        StyleInterface::from_id(SS)
    } else {
        incoming
    }
}

} // verus!
