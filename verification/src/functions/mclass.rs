use vstd::prelude::*;
use crate::functions::FunctionContext;
use crate::parse_node::{ParseNode, AtomFamily, spec_ord_argument, ord_argument,
    spec_is_character_box, is_character_box};
use crate::text::{str_chars, string_from_chars, string_of};

verus! {

/// `\mathord`, `\mathbin`, ...: the argument as an atom whose class is the
/// first five characters of the command name (`\math` for all of them).
/// The first five characters of the name must be ASCII.
pub fn mclass_handler_fn(context: &FunctionContext, args: Vec<ParseNode>, opt_args: Vec<Option<ParseNode>>) -> (r: ParseNode)
    requires
        args@.len() >= 1,
        context.func_name@.len() >= 5,
        forall|i: int| 0 <= i < 5 ==> (#[trigger] context.func_name@[i] as u32) < 0x80,
    ensures
        r matches ParseNode::Mclass { mode, mclass, body, is_character_box }
            && mode == context.mode
            && mclass@ == context.func_name@.take(5)
            && body@ == spec_ord_argument(args@[0])
            && is_character_box == spec_is_character_box(args@[0]),
{
    let mut args = args;
    let body = args.swap_remove(0);
    let is_cb = is_character_box(&body);
    let chars = str_chars(context.func_name.as_str());
    let mclass = string_from_chars(&chars, 0, 5);
    assert(chars@.subrange(0, 5) =~= context.func_name@.take(5));
    ParseNode::Mclass { mode: context.mode, mclass, body: ord_argument(body), is_character_box: is_cb }
}

/// The atom class for `\binrel@` spacing: `mbin` or `mrel` when the
/// argument (or the first node of a non-empty group) is a binary or relation
/// atom, `mord` otherwise.
pub open spec fn spec_binrel_class(arg: ParseNode) -> Seq<char> {
    let atom = match arg {
        ParseNode::OrdGroup { body, .. } => if body@.len() > 0 { body@[0] } else { arg },
        _ => arg,
    };
    match atom {
        ParseNode::Atom { family: AtomFamily::Bin, .. } => seq!['m', 'b', 'i', 'n'],
        ParseNode::Atom { family: AtomFamily::Rel, .. } => seq!['m', 'r', 'e', 'l'],
        _ => seq!['m', 'o', 'r', 'd'],
    }
}

fn atom_class(atom: &ParseNode) -> (s: String)
    ensures
        s@ == (match *atom {
            ParseNode::Atom { family: AtomFamily::Bin, .. } => seq!['m', 'b', 'i', 'n'],
            ParseNode::Atom { family: AtomFamily::Rel, .. } => seq!['m', 'r', 'e', 'l'],
            _ => seq!['m', 'o', 'r', 'd'],
        }),
{
    proof {
        reveal_strlit("mbin");
        reveal_strlit("mrel");
        reveal_strlit("mord");
        assert("mbin"@ =~= seq!['m', 'b', 'i', 'n']);
        assert("mrel"@ =~= seq!['m', 'r', 'e', 'l']);
        assert("mord"@ =~= seq!['m', 'o', 'r', 'd']);
    }
    match atom {
        ParseNode::Atom { family: AtomFamily::Bin, .. } => string_of("mbin"),
        ParseNode::Atom { family: AtomFamily::Rel, .. } => string_of("mrel"),
        _ => string_of("mord"),
    }
}

pub fn binrel_class(arg: &ParseNode) -> (s: String)
    ensures
        s@ == spec_binrel_class(*arg),
{
    match arg {
        ParseNode::OrdGroup { body, .. } => {
            if body.len() > 0 {
                atom_class(&body[0])
            } else {
                atom_class(arg)
            }
        },
        _ => atom_class(arg),
    }
}

} // verus!
