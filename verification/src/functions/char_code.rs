use vstd::prelude::*;
use crate::functions::FunctionContext;
use crate::parse_node::{ParseNode, symbol_text};
use crate::text::{concat_str, parse_unsigned, parses_unsigned, digits_value, unsigned_digits, char_from_u32, push_char};

verus! {

/// The texts of the nodes, one after the other.
pub open spec fn texts_concat(s: Seq<ParseNode>) -> Seq<char>
    decreases s.len(),
{
    if s.len() == 0 {
        Seq::empty()
    } else {
        texts_concat(s.drop_last()) + symbol_text(s.last())
    }
}

/// Whether the argument is a group of text-mode characters.
pub open spec fn is_text_group(n: ParseNode) -> bool {
    n matches ParseNode::OrdGroup { body, .. }
        && forall|i: int| 0 <= i < body@.len() ==> #[trigger] body@[i] is TextOrd
}

/// The characters of a group's text-mode characters, as one text.
pub open spec fn group_text(n: ParseNode) -> Seq<char> {
    match n {
        ParseNode::OrdGroup { body, .. } => texts_concat(body@),
        _ => Seq::empty(),
    }
}

/// The code point that the argument of `\@char` names.
pub open spec fn char_code(n: ParseNode) -> nat {
    digits_value(unsigned_digits(group_text(n)))
}

/// Whether `\@char` can show the argument: a decimal numeral of a code
/// point of the basic plane that is not a surrogate.
pub open spec fn is_char_code_arg(n: ParseNode) -> bool {
    &&& is_text_group(n)
    &&& parses_unsigned(group_text(n), 0xFFFF_FFFF)
    &&& char_code(n) <= 0xFFFF
    &&& !(0xD800 <= char_code(n) && char_code(n) <= 0xDFFF)
}

pub fn group_text_exec(n: &ParseNode) -> (s: String)
    requires
        is_text_group(*n),
    ensures
        s@ == group_text(*n),
{
    match n {
        ParseNode::OrdGroup { body, .. } => {
            let mut acc = String::new();
            let mut i: usize = 0;
            while i < body.len()
                invariant
                    i <= body@.len(),
                    forall|j: int| 0 <= j < body@.len() ==> #[trigger] body@[j] is TextOrd,
                    acc@ == texts_concat(body@.take(i as int)),
                decreases body.len() - i,
            {
                match &body[i] {
                    ParseNode::TextOrd { text, .. } => {
                        acc = concat_str(acc.as_str(), text.as_str());
                    },
                    _ => {},
                }
                assert(body@.take(i + 1).drop_last() =~= body@.take(i as int));
                i = i + 1;
            }
            assert(body@.take(i as int) =~= body@);
            acc
        },
        _ => String::new(),
    }
}

/// `\@char{code}`: the character whose code point the group's digits name.
pub fn handler_fn(context: &FunctionContext, args: Vec<ParseNode>, opt_args: Vec<Option<ParseNode>>) -> (r: ParseNode)
    requires
        args@.len() >= 1,
        is_char_code_arg(args@[0]),
    ensures
        r matches ParseNode::TextOrd { mode, text }
            && mode == context.mode
            && text@ == seq![(char_code(args@[0]) as u32) as char],
{
    let number = group_text_exec(&args[0]);
    let code = match parse_unsigned(number.as_str(), 0xFFFF_FFFF) {
        Some(c) => c as u32,
        None => 0,
    };
    let c = match char_from_u32(code) {
        Some(c) => c,
        None => ' ',
    };
    let mut text = String::new();
    push_char(&mut text, c);
    assert(text@ =~= seq![(char_code(args@[0]) as u32) as char]);
    ParseNode::TextOrd { mode: context.mode, text }
}

} // verus!
