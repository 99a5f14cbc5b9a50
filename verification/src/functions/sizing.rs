use vstd::prelude::*;
use crate::functions::FunctionContext;
use crate::parse_node::{ParseNode, ParseError};
use crate::parser::{Parser, same_env};
use crate::parse_expr::{Parsed, spec_expression, brk_view};
use crate::node_view::nview_seq;
use crate::tables::{names_view, position_of};
use crate::dom::{HtmlKind, HtmlNode, make_fragment};
use crate::options::Options;
use crate::text::{decimal, strings_seq, str_eq, string_of, push_decimal};

verus! {

/// The size-changing commands, from the smallest size to the largest.
pub open spec fn spec_size_funcs() -> Seq<Seq<char>> {
    seq![
        "\\tiny"@, "\\sixptsize"@, "\\scriptsize"@, "\\footnotesize"@, "\\small"@,
        "\\normalsize"@, "\\large"@, "\\Large"@, "\\LARGE"@, "\\huge"@, "\\Huge"@,
    ]
}

fn size_funcs() -> (v: Vec<&'static str>)
    ensures
        names_view(v@) == spec_size_funcs(),
{
    let v = vec![
        "\\tiny", "\\sixptsize", "\\scriptsize", "\\footnotesize", "\\small",
        "\\normalsize", "\\large", "\\Large", "\\LARGE", "\\huge", "\\Huge",
    ];
    assert(names_view(v@) =~= spec_size_funcs());
    v
}

/// The size a command selects: its place among the size commands, counted
/// from one, or zero for another command.
pub open spec fn size_of_command(f: Seq<char>) -> usize {
    if f == "\\tiny"@ { 1 }
    else if f == "\\sixptsize"@ { 2 }
    else if f == "\\scriptsize"@ { 3 }
    else if f == "\\footnotesize"@ { 4 }
    else if f == "\\small"@ { 5 }
    else if f == "\\normalsize"@ { 6 }
    else if f == "\\large"@ { 7 }
    else if f == "\\Large"@ { 8 }
    else if f == "\\LARGE"@ { 9 }
    else if f == "\\huge"@ { 10 }
    else if f == "\\Huge"@ { 11 }
    else { 0 }
}

/// `\tiny` ... `\Huge`: the expression that follows, read to the end of
/// the group (or to the token `brk` the parser is to stop at), at the size
/// the command selects. The input must not reach what the parser does not
/// read (see `Parsed::Stuck`).
pub fn handler_fn(parser: &mut Parser, context: &FunctionContext, brk: Option<&str>) -> (r: Result<ParseNode, ParseError>)
    requires
        old(parser).wf(),
        !(spec_expression(old(parser).env(), old(parser)@, brk_view(brk)) is Stuck),
    ensures
        match spec_expression(old(parser).env(), old(parser)@, brk_view(brk)) {
            Parsed::Done(body, q) => r matches Ok(ParseNode::Sizing { mode, size, body: b }) && {
                &&& mode == old(parser).mode
                &&& size == size_of_command(context.func_name@)
                &&& nview_seq(b@) == body
                &&& final(parser)@ == q
                &&& final(parser).wf() && same_env(*old(parser), *final(parser))
            },
            Parsed::Failed(m) => r matches Err(e) && e.message@ == m,
            Parsed::Stuck => false,
        },
{
    let body = match parser.parse_expression(brk) {
        Ok(b) => b,
        Err(e) => return Err(e),
    };
    let names = size_funcs();
    proof {
        reveal_strlit("\\tiny");
        reveal_strlit("\\sixptsize");
        reveal_strlit("\\scriptsize");
        reveal_strlit("\\footnotesize");
        reveal_strlit("\\small");
        reveal_strlit("\\normalsize");
        reveal_strlit("\\large");
        reveal_strlit("\\Large");
        reveal_strlit("\\LARGE");
        reveal_strlit("\\huge");
        reveal_strlit("\\Huge");
        assert(names@.len() == names_view(names@).len());
    }
    let size = match position_of(&names, context.func_name.as_str()) {
        Some(i) => {
            i + 1
        },
        None => {
            assert(!spec_size_funcs().contains(context.func_name@));
            assert(spec_size_funcs()[0] == "\\tiny"@);
            0
        },
    };
    Ok(ParseNode::Sizing { mode: parser.mode, size, body })
}

/// The position of the first `sizing` class.
pub open spec fn first_sizing(cs: Seq<Seq<char>>) -> Option<int>
    decreases cs.len(),
{
    if cs.len() == 0 {
        None
    } else if cs[0] == "sizing"@ {
        Some(0)
    } else {
        match first_sizing(cs.drop_first()) {
            Some(p) => Some(p + 1),
            None => None,
        }
    }
}

proof fn lemma_first_sizing(cs: Seq<Seq<char>>)
    ensures
        match first_sizing(cs) {
            Some(p) => 0 <= p < cs.len() && cs[p] == "sizing"@ && forall|j: int| 0 <= j < p ==> cs[j] != "sizing"@,
            None => forall|j: int| 0 <= j < cs.len() ==> cs[j] != "sizing"@,
        },
    decreases cs.len(),
{
    if cs.len() > 0 {
        lemma_first_sizing(cs.drop_first());
        assert forall|j: int| 0 < j < cs.len() implies cs[j] == cs.drop_first()[j - 1] by {}
    }
}

/// The classes that switch from the size `base` to `size`: none when they
/// agree.
pub open spec fn size_switch(size: usize, base: usize) -> Seq<Seq<char>> {
    if size == base {
        Seq::empty()
    } else {
        seq!["sizing"@, "reset-size"@ + decimal(base as nat), "size"@ + decimal(size as nat)]
    }
}

/// The classes of a node inside a size change from `base` to `size`: a
/// node already sized keeps its new size but resets from `base` where it
/// reset from `size` (a nested size change); any other node gets the
/// classes of the change.
pub open spec fn resized(cs: Seq<Seq<char>>, size: usize, base: usize) -> Seq<Seq<char>> {
    match first_sizing(cs) {
        Some(p) => if cs[p + 1] == "reset-size"@ + decimal(size as nat) {
            cs.update(p + 1, "reset-size"@ + decimal(base as nat))
        } else {
            cs
        },
        None => cs + size_switch(size, base),
    }
}

/// A node's `sizing` class, if it has one, is followed by another class.
pub open spec fn sizing_followed(n: HtmlNode) -> bool {
    match first_sizing(strings_seq(n.classes@)) {
        Some(p) => p + 1 < n.classes@.len(),
        None => true,
    }
}

/// The fragment of a sized expression: the built nodes `inner`, each with
/// the classes that switch from the size of `base_options` to that of
/// `options`.
pub fn sizing_group(inner: Vec<HtmlNode>, options: &Options, base_options: &Options) -> (r: HtmlNode)
    requires
        forall|i: int| 0 <= i < inner@.len() ==> sizing_followed(#[trigger] inner@[i]),
    ensures
        r.kind == HtmlKind::Fragment,
        r.classes@.len() == 0,
        r.attributes@.len() == 0,
        r.children@.len() == inner@.len(),
        forall|i: int| 0 <= i < inner@.len() ==> {
            let n = #[trigger] r.children@[i];
            &&& n.kind == inner@[i].kind
            &&& n.children == inner@[i].children
            &&& n.attributes == inner@[i].attributes
            &&& strings_seq(n.classes@) == resized(strings_seq(inner@[i].classes@), options.size, base_options.size)
        },
{
    let mut nodes = inner;
    let ghost orig = nodes@;
    let n = nodes.len();
    let mut i: usize = 0;
    proof {
        reveal_strlit("sizing");
        reveal_strlit("reset-size");
    }
    while i < n
        invariant
            n == orig.len(),
            nodes@.len() == n,
            i <= n,
            forall|j: int| 0 <= j < n ==> sizing_followed(#[trigger] orig[j]),
            forall|j: int| i <= j < n ==> nodes@[j] == orig[j],
            forall|j: int| 0 <= j < i ==> {
                let m = #[trigger] nodes@[j];
                &&& m.kind == orig[j].kind
                &&& m.children == orig[j].children
                &&& m.attributes == orig[j].attributes
                &&& strings_seq(m.classes@) == resized(strings_seq(orig[j].classes@), options.size, base_options.size)
            },
        decreases n - i,
    {
        let ghost before = nodes@;
        let mut node = nodes.remove(i);
        assert(node == orig[i as int]);
        let ghost cs = strings_seq(node.classes@);
        proof {
            lemma_first_sizing(cs);
            reveal_strlit("sizing");
            reveal_strlit("reset-size");
        }
        let mut p: usize = 0;
        while p < node.classes.len() && !str_eq(node.classes[p].as_str(), "sizing")
            invariant
                p <= node.classes@.len(),
                cs == strings_seq(node.classes@),
                forall|j: int| 0 <= j < p ==> cs[j] != "sizing"@,
            decreases node.classes.len() - p,
        {
            p = p + 1;
        }
        if p < node.classes.len() {
            proof {
                assert(cs[p as int] == node.classes@[p as int]@);
                assert(cs[p as int] == "sizing"@);
                if first_sizing(cs) is None {
                    assert(false);
                }
                let q = first_sizing(cs)->0;
                if q < p {
                    assert(cs[q] != "sizing"@);
                }
                assert(first_sizing(cs) == Some(p as int));
            }
            let mut old_reset = string_of("reset-size");
            push_decimal(&mut old_reset, options.size);
            if str_eq(node.classes[p + 1].as_str(), old_reset.as_str()) {
                let mut new_reset = string_of("reset-size");
                push_decimal(&mut new_reset, base_options.size);
                node.classes.set(p + 1, new_reset);
                assert(strings_seq(node.classes@) =~= cs.update(p + 1, "reset-size"@ + decimal(base_options.size as nat)));
            }
        } else {
            assert(first_sizing(cs) is None);
            let mut extra = options.sizing_classes(base_options);
            let ghost ev = strings_seq(extra@);
            assert(ev =~= size_switch(options.size, base_options.size)) by {
                reveal_strlit("size");
                reveal_strlit("sizing");
                reveal_strlit("reset-size");
                if options.size != base_options.size {
                    assert("sizing"@ =~= seq!['s', 'i', 'z', 'i', 'n', 'g']);
                    assert("reset-size"@ =~= seq!['r', 'e', 's', 'e', 't', '-', 's', 'i', 'z', 'e']);
                    assert("size"@ =~= seq!['s', 'i', 'z', 'e']);
                }
            }
            node.classes.append(&mut extra);
            assert(strings_seq(node.classes@) =~= cs + ev);
        }
        nodes.insert(i, node);
        proof {
            assert forall|j: int| i + 1 <= j < n implies nodes@[j] == orig[j] by {
                assert(nodes@[j] == before[j]);
            }
            assert forall|j: int| 0 <= j < i implies nodes@[j] == before[j] by {}
        }
        i = i + 1;
    }
    make_fragment(nodes)
}

} // verus!
