use vstd::prelude::*;
use crate::functions::FunctionContext;
use crate::functions::char_code::{is_text_group, group_text};
use crate::parse_node::{ParseNode, ParseError};
use crate::tables::{names_view, contains_name};
use crate::text::{concat_str, str_eq, string_of};

verus! {

/// The environments that `\begin` can open.
pub open spec fn spec_environment_names() -> Seq<Seq<char>> {
    seq!["array"@, "darray"@, "align"@, "align*"@, "aligned"@, "split"@]
}

fn environment_names() -> (v: Vec<&'static str>)
    ensures
        names_view(v@) == spec_environment_names(),
{
    let v = vec!["array", "darray", "align", "align*", "aligned", "split"];
    assert(names_view(v@) =~= spec_environment_names());
    v
}

/// The name that `\begin` or `\end` was given: the text of a group of
/// characters, or an error for any other argument.
pub open spec fn spec_env_name(arg: ParseNode) -> Result<Seq<char>, Seq<char>> {
    if arg is OrdGroup {
        Ok(group_text(arg))
    } else {
        Err("Invalid environment name"@)
    }
}

/// The name that `\begin` or `\end` was given.
pub fn env_name_of(arg: &ParseNode) -> (r: Result<String, ParseError>)
    requires
        *arg is OrdGroup ==> is_text_group(*arg),
    ensures
        match (r, spec_env_name(*arg)) {
            (Ok(s), Ok(t)) => s@ == t,
            (Err(e), Err(t)) => e.message@ == t,
            _ => false,
        },
{
    match arg {
        ParseNode::OrdGroup { body, .. } => {
            let mut acc = String::new();
            let mut i: usize = 0;
            while i < body.len()
                invariant
                    i <= body@.len(),
                    forall|j: int| 0 <= j < body@.len() ==> #[trigger] body@[j] is TextOrd,
                    acc@ == crate::functions::char_code::texts_concat(body@.take(i as int)),
                decreases body.len() - i,
            {
                match &body[i] {
                    ParseNode::TextOrd { text, .. } => {
                        acc = concat_str(acc.as_str(), text.as_str());
                    },
                    _ => {},
                }
                assert(body@.take(i + 1).drop_last() =~= body@.take(i as int));
                i = i + 1;
            }
            assert(body@.take(i as int) =~= body@);
            Ok(acc)
        },
        _ => Err(ParseError { message: string_of("Invalid environment name") }),
    }
}

/// What `\begin{name}` or `\end{name}` gives: the environment node, or an
/// error where the name is not a group of characters or `\begin` names an
/// environment that does not exist.
pub open spec fn env_handler_result(func_name: Seq<char>, arg: ParseNode) -> Result<Seq<char>, Seq<char>> {
    match spec_env_name(arg) {
        Err(e) => Err(e),
        Ok(name) => if func_name == "\\begin"@ && !spec_environment_names().contains(name) {
            Err("No such environment: "@ + name)
        } else {
            Ok(name)
        },
    }
}

/// `\begin{name}` and `\end{name}`: the environment node with its name and
/// the group it was written as. After `\begin`, the parser runs the named
/// environment and reads the matching `\end`, which `check_environment_end`
/// checks.
pub fn env_handler_fn(context: &FunctionContext, args: Vec<ParseNode>, opt_args: Vec<Option<ParseNode>>) -> (r: Result<ParseNode, ParseError>)
    requires
        args@.len() >= 1,
        args@[0] is OrdGroup ==> is_text_group(args@[0]),
    ensures
        match (r, env_handler_result(context.func_name@, args@[0])) {
            (Ok(n), Ok(name)) => n matches ParseNode::Environment { mode, name: nm, name_group }
                && mode == context.mode && nm@ == name && *name_group == args@[0],
            (Err(e), Err(msg)) => e.message@ == msg,
            _ => false,
        },
{
    let name = match env_name_of(&args[0]) {
        Ok(n) => n,
        Err(e) => return Err(e),
    };
    if str_eq(context.func_name.as_str(), "\\begin") {
        let known = environment_names();
        if !contains_name(&known, name.as_str()) {
            return Err(ParseError { message: concat_str("No such environment: ", name.as_str()) });
        }
    }
    let mut args = args;
    let group = args.swap_remove(0);
    Ok(ParseNode::Environment { mode: context.mode, name, name_group: Box::new(group) })
}

/// The name of an environment node.
pub open spec fn environment_name(n: ParseNode) -> Seq<char> {
    match n {
        ParseNode::Environment { name, .. } => name@,
        _ => Seq::empty(),
    }
}

/// Checks that the `\end` read after an environment closes the environment
/// that `\begin` opened.
pub fn check_environment_end(begin_name: &String, end: &ParseNode) -> (r: Result<(), ParseError>)
    requires
        *end is Environment,
    ensures
        r is Ok <==> environment_name(*end) == begin_name@,
        r matches Err(e) ==> e.message@ == "Mismatch: \\begin{"@ + begin_name@ + "} matched by \\end{"@
            + environment_name(*end) + "}"@,
{
    match end {
        ParseNode::Environment { name, .. } => {
            if str_eq(name.as_str(), begin_name.as_str()) {
                Ok(())
            } else {
                let m1 = concat_str("Mismatch: \\begin{", begin_name.as_str());
                let m2 = concat_str(m1.as_str(), "} matched by \\end{");
                let m3 = concat_str(m2.as_str(), name.as_str());
                let m4 = concat_str(m3.as_str(), "}");
                Err(ParseError { message: m4 })
            }
        },
        _ => Ok(()),
    }
}

} // verus!
