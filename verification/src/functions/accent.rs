use vstd::prelude::*;
use crate::functions::FunctionContext;
use crate::parse_node::{ParseNode, Mode, spec_normalize_argument, normalize_argument};
use crate::text::{seq_contains, contains_str};

verus! {

/// The accents that keep their glyph's width: their commands do not
/// stretch over the base.
pub open spec fn spec_non_stretchy_accents() -> Seq<Seq<char>> {
    seq![
        "\\acute"@, "\\grave"@, "\\ddot"@, "\\tilde"@, "\\bar"@, "\\breve"@,
        "\\check"@, "\\hat"@, "\\vec"@, "\\dot"@, "\\mathring"@,
    ]
}

/// Whether the command's name holds one of the non-stretchy accents.
pub open spec fn names_non_stretchy_accent(f: Seq<char>) -> bool {
    exists|i: int| 0 <= i < spec_non_stretchy_accents().len()
        && seq_contains(f, #[trigger] spec_non_stretchy_accents()[i])
}

fn non_stretchy_accents() -> (v: Vec<&'static str>)
    ensures
        v@.len() == spec_non_stretchy_accents().len(),
        forall|i: int| 0 <= i < v@.len() ==> (#[trigger] v@[i])@ == spec_non_stretchy_accents()[i],
{
    let v = vec![
        "\\acute", "\\grave", "\\ddot", "\\tilde", "\\bar", "\\breve",
        "\\check", "\\hat", "\\vec", "\\dot", "\\mathring",
    ];
    proof {
        reveal_strlit("\\acute");
        reveal_strlit("\\grave");
        reveal_strlit("\\ddot");
        reveal_strlit("\\tilde");
        reveal_strlit("\\bar");
        reveal_strlit("\\breve");
        reveal_strlit("\\check");
        reveal_strlit("\\hat");
        reveal_strlit("\\vec");
        reveal_strlit("\\dot");
        reveal_strlit("\\mathring");
    }
    v
}

/// Whether the command's name holds one of the non-stretchy accents.
fn is_non_stretchy_accent(f: &str) -> (b: bool)
    ensures
        b == names_non_stretchy_accent(f@),
{
    let names = non_stretchy_accents();
    let mut i: usize = 0;
    while i < names.len()
        invariant
            names@.len() == spec_non_stretchy_accents().len(),
            forall|j: int| 0 <= j < names@.len() ==> (#[trigger] names@[j])@ == spec_non_stretchy_accents()[j],
            i <= names@.len(),
            forall|j: int| 0 <= j < i ==> !seq_contains(f@, #[trigger] spec_non_stretchy_accents()[j]),
        decreases names.len() - i,
    {
        if contains_str(f, names[i]) {
            assert(seq_contains(f@, spec_non_stretchy_accents()[i as int]));
            return true;
        }
        i = i + 1;
    }
    false
}

/// The commands whose accent is shifted by the skew of a single-character
/// base, besides every stretchy accent.
pub open spec fn is_wide_accent(f: Seq<char>) -> bool {
    f == "\\widehat"@ || f == "\\widetilde"@ || f == "\\widecheck"@
}

/// A math-mode accent over its argument (unwrapped from a group of one).
/// It stretches unless its command names a non-stretchy accent, and it
/// shifts with the base's skew when it stretches or is a wide accent.
pub fn handler_fn_1(context: &FunctionContext, args: Vec<ParseNode>, opt_args: Vec<Option<ParseNode>>) -> (r: ParseNode)
    requires
        args@.len() >= 1,
    ensures
        r matches ParseNode::Accent { mode, label, is_stretchy, is_shifty, base }
            && mode == context.mode
            && label@ == context.func_name@
            && is_stretchy == !names_non_stretchy_accent(context.func_name@)
            && is_shifty == (is_stretchy || is_wide_accent(context.func_name@))
            && *base == spec_normalize_argument(args@[0]),
{
    let mut args = args;
    let base = normalize_argument(args.swap_remove(0));
    let is_stretchy = !is_non_stretchy_accent(context.func_name.as_str());
    let f = context.func_name.as_str();
    let is_wide = crate::text::str_eq(f, "\\widehat") || crate::text::str_eq(f, "\\widetilde")
        || crate::text::str_eq(f, "\\widecheck");
    ParseNode::Accent {
        mode: context.mode,
        label: context.func_name.clone(),
        is_stretchy,
        is_shifty: is_stretchy || is_wide,
        base: Box::new(base),
    }
}

/// A text-mode accent (`\'`, `\^` and the like) over its argument; in math
/// mode the accent is still built as a text-mode one.
pub fn handler_fn_2(context: &FunctionContext, args: Vec<ParseNode>, opt_args: Vec<Option<ParseNode>>) -> (r: ParseNode)
    requires
        args@.len() >= 1,
    ensures
        r matches ParseNode::Accent { mode, label, is_stretchy, is_shifty, base }
            && mode == Mode::Text
            && label@ == context.func_name@
            && !is_stretchy && is_shifty
            && *base == args@[0],
{
    let mut args = args;
    let base = args.swap_remove(0);
    ParseNode::Accent {
        mode: Mode::Text,
        label: context.func_name.clone(),
        is_stretchy: false,
        is_shifty: true,
        base: Box::new(base),
    }
}

} // verus!
