use vstd::prelude::*;
use crate::functions::FunctionContext;
use crate::parse_node::{ParseNode, ord_argument, format_unsupported_cmd, is_unsupported_cmd_node};
use crate::setting::Settings;
use crate::str_map::StrMap;
use crate::text::{split_on, split_char, strings_seq, trim, trim_str, concat_str, str_eq, string_of};

verus! {

/// The commands that attach an HTML attribute to their body.
pub open spec fn is_html_command(f: Seq<char>) -> bool {
    f == "\\htmlClass"@ || f == "\\htmlId"@ || f == "\\htmlStyle"@ || f == "\\htmlData"@
}

/// Whether every comma-separated piece of an `\htmlData` value is one
/// `key=value` pair.
pub open spec fn html_data_well_formed(value: Seq<char>) -> bool {
    forall|i: int| 0 <= i < split_on(value, ',').len() ==>
        (#[trigger] split_on(split_on(value, ',')[i], '=')).len() == 2
}

/// The `data-` attributes of `key=value` pieces, later pieces overriding
/// earlier ones; keys and values are trimmed.
pub open spec fn data_attribute_map(pieces: Seq<Seq<char>>) -> Map<Seq<char>, Seq<char>>
    decreases pieces.len(),
{
    if pieces.len() == 0 {
        Map::empty()
    } else {
        let kv = split_on(pieces.last(), '=');
        data_attribute_map(pieces.drop_last()).insert("data-"@ + trim(kv[0]), trim(kv[1]))
    }
}

/// The attributes that an HTML command attaches.
pub open spec fn spec_html_attributes(f: Seq<char>, value: Seq<char>) -> Map<Seq<char>, Seq<char>> {
    if f == "\\htmlClass"@ {
        map!["class"@ => value]
    } else if f == "\\htmlId"@ {
        map!["id"@ => value]
    } else if f == "\\htmlStyle"@ {
        map!["style"@ => value]
    } else {
        data_attribute_map(split_on(value, ','))
    }
}

pub open spec fn string_values(m: Map<Seq<char>, String>) -> Map<Seq<char>, Seq<char>> {
    m.map_values(|s: String| s@)
}

/// The attributes that an HTML command attaches: `class`, `id` or `style`
/// with the value, or for `\htmlData` one `data-key` attribute per
/// comma-separated `key=value` piece.
pub fn html_attributes(func_name: &str, value: &str) -> (r: StrMap<String>)
    requires
        is_html_command(func_name@),
        func_name@ == "\\htmlData"@ ==> html_data_well_formed(value@),
    ensures
        r.wf(),
        string_values(r@) == spec_html_attributes(func_name@, value@),
{
    let mut m: StrMap<String> = StrMap::new();
    proof {
        reveal_strlit("\\htmlClass");
        reveal_strlit("\\htmlId");
        reveal_strlit("\\htmlStyle");
        reveal_strlit("\\htmlData");
    }
    if str_eq(func_name, "\\htmlClass") {
        m.insert(string_of("class"), string_of(value));
        assert(string_values(m@) =~= spec_html_attributes(func_name@, value@));
    } else if str_eq(func_name, "\\htmlId") {
        m.insert(string_of("id"), string_of(value));
        assert(string_values(m@) =~= spec_html_attributes(func_name@, value@));
    } else if str_eq(func_name, "\\htmlStyle") {
        m.insert(string_of("style"), string_of(value));
        assert(string_values(m@) =~= spec_html_attributes(func_name@, value@));
    } else {
        let pieces = split_char(value, ',');
        let ghost ps = split_on(value@, ',');
        let mut i: usize = 0;
        assert(string_values(m@) =~= data_attribute_map(ps.take(0)));
        while i < pieces.len()
            invariant
                strings_seq(pieces@) == ps,
                ps == split_on(value@, ','),
                html_data_well_formed(value@),
                i <= pieces@.len(),
                m.wf(),
                string_values(m@) == data_attribute_map(ps.take(i as int)),
            decreases pieces.len() - i,
        {
            assert(pieces@[i as int]@ == ps[i as int]);
            let kv = split_char(pieces[i].as_str(), '=');
            assert(strings_seq(kv@).len() == 2);
            let key = concat_str("data-", trim_str(kv[0].as_str()).as_str());
            let val = trim_str(kv[1].as_str());
            let ghost old_m = m@;
            m.insert(key, val);
            assert(ps.take(i + 1).drop_last() =~= ps.take(i as int));
            assert(string_values(m@) =~= data_attribute_map(ps.take(i + 1)));
            i = i + 1;
        }
        assert(ps.take(i as int) =~= ps);
    }
    m
}

/// The value of a raw-string node.
pub open spec fn raw_text(n: ParseNode) -> Seq<char> {
    match n {
        ParseNode::Raw { string, .. } => string@,
        _ => Seq::empty(),
    }
}

/// `\htmlClass`, `\htmlId`, `\htmlStyle`, `\htmlData`: the body with an HTML
/// attribute. These commands need trust, which the settings grant to no
/// command, so the result shows the command as unsupported.
pub fn handler_fn(context: &FunctionContext, settings: &Settings, args: Vec<ParseNode>, opt_args: Vec<Option<ParseNode>>) -> (r: ParseNode)
    requires
        args@.len() >= 2,
        args@[0] is Raw,
        is_html_command(context.func_name@),
        context.func_name@ == "\\htmlData"@ ==> html_data_well_formed(raw_text(args@[0])),
    ensures
        is_unsupported_cmd_node(r, context.mode, settings.error_color@, context.func_name@),
{
    let mut args = args;
    let body = args.swap_remove(1);
    let raw = args.swap_remove(0);
    let value = match raw {
        ParseNode::Raw { string, .. } => string,
        _ => String::new(),
    };
    let attributes = html_attributes(context.func_name.as_str(), value.as_str());
    if !settings.isTrusted(context.func_name.as_str()) {
        return format_unsupported_cmd(context.mode, &settings.error_color, context.func_name.as_str());
    }
    ParseNode::Html { mode: context.mode, attributes: attributes.into_pairs(), body: ord_argument(body) }
}

} // verus!
