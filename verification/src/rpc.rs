use vstd::prelude::*;
use crate::json::{Json, entry_value};
use crate::text::{str_eq, string_of, concat_str, str_chars, string_from_chars, trim, trim_str, parse_unsigned, parses_unsigned, digits_value, unsigned_digits};

verus! {

/// The value under `k` of an object (the first entry with that key), or
/// nothing for another value.
pub open spec fn field(j: Json, k: Seq<char>) -> Option<Json> {
    match j {
        Json::Object(v) => entry_value(v@, k),
        _ => None,
    }
}

/// The text of a string value.
pub open spec fn as_text(o: Option<Json>) -> Option<Seq<char>> {
    match o {
        Some(Json::Str(s)) => Some(s@),
        _ => None,
    }
}

/// The value of a non-negative integer.
pub open spec fn as_count(o: Option<Json>) -> Option<u64> {
    match o {
        Some(Json::PosInt(n)) => Some(n),
        _ => None,
    }
}

proof fn lemma_entry_value_first(v: Seq<(String, Json)>, k: Seq<char>, p: int)
    requires
        0 <= p <= v.len(),
        forall|j: int| 0 <= j < p ==> (#[trigger] v[j]).0@ != k,
    ensures
        p < v.len() && v[p].0@ == k ==> entry_value(v, k) == Some(v[p].1),
        p == v.len() ==> entry_value(v, k) is None,
    decreases p,
{
    if p > 0 {
        assert forall|j: int| 0 <= j < p - 1 implies (#[trigger] v.drop_first()[j]).0@ != k by {
            assert(v.drop_first()[j] == v[j + 1]);
        }
        lemma_entry_value_first(v.drop_first(), k, p - 1);
        assert(v[0].0@ != k);
    } else if v.len() == 0 {
    }
}

/// The position of the first entry with the key `k`.
fn find_entry(v: &Vec<(String, Json)>, k: &str) -> (r: Option<usize>)
    ensures
        match r {
            Some(p) => p < v@.len() && v@[p as int].0@ == k@ && entry_value(v@, k@) == Some(v@[p as int].1),
            None => entry_value(v@, k@) is None,
        },
{
    let mut p: usize = 0;
    while p < v.len()
        invariant
            p <= v@.len(),
            forall|j: int| 0 <= j < p ==> (#[trigger] v@[j]).0@ != k@,
        decreases v.len() - p,
    {
        if str_eq(v[p].0.as_str(), k) {
            proof {
                lemma_entry_value_first(v@, k@, p as int);
            }
            return Some(p);
        }
        p = p + 1;
    }
    proof {
        lemma_entry_value_first(v@, k@, p as int);
    }
    None
}

/// The value under `k` of an object.
pub fn get_field<'a>(j: &'a Json, k: &str) -> (r: Option<&'a Json>)
    ensures
        match r {
            Some(x) => field(*j, k@) == Some(*x),
            None => field(*j, k@) is None,
        },
{
    match j {
        Json::Object(v) => {
            match find_entry(v, k) {
                Some(p) => Some(&v[p].1),
                None => None,
            }
        },
        _ => None,
    }
}

/// The string under `k` of an object.
fn get_text(j: &Json, k: &str) -> (r: Option<String>)
    ensures
        match r {
            Some(s) => as_text(field(*j, k@)) == Some(s@),
            None => as_text(field(*j, k@)) is None,
        },
{
    match get_field(j, k) {
        Some(Json::Str(s)) => Some(s.clone()),
        _ => None,
    }
}

/// The non-negative integer under `k` of an object.
fn get_count(j: &Json, k: &str) -> (r: Option<u64>)
    ensures
        r == as_count(field(*j, k@)),
{
    match get_field(j, k) {
        Some(Json::PosInt(n)) => Some(*n),
        _ => None,
    }
}

/// What a tool asks for: a profile to read, and what to work out from it.
#[derive(Debug)]
pub enum ToolRequest {
    Summarize { path: String, top_n: usize },
    Inspect { path: String, node_id: u64 },
    ByUrl { path: String, top_n: usize },
    HotPaths { path: String, top_n: usize },
    BottomUp { path: String, top_n: usize },
    Diff { before: String, after: String, top_n: usize },
    Diagnose { path: String, top_n: usize },
}

/// A tool request, with its texts as character sequences.
pub enum ToolRequestView {
    Summarize { path: Seq<char>, top_n: usize },
    Inspect { path: Seq<char>, node_id: u64 },
    ByUrl { path: Seq<char>, top_n: usize },
    HotPaths { path: Seq<char>, top_n: usize },
    BottomUp { path: Seq<char>, top_n: usize },
    Diff { before: Seq<char>, after: Seq<char>, top_n: usize },
    Diagnose { path: Seq<char>, top_n: usize },
}

impl View for ToolRequest {
    type V = ToolRequestView;

    open spec fn view(&self) -> ToolRequestView {
        match self {
            ToolRequest::Summarize { path, top_n } => ToolRequestView::Summarize { path: path@, top_n: *top_n },
            ToolRequest::Inspect { path, node_id } => ToolRequestView::Inspect { path: path@, node_id: *node_id },
            ToolRequest::ByUrl { path, top_n } => ToolRequestView::ByUrl { path: path@, top_n: *top_n },
            ToolRequest::HotPaths { path, top_n } => ToolRequestView::HotPaths { path: path@, top_n: *top_n },
            ToolRequest::BottomUp { path, top_n } => ToolRequestView::BottomUp { path: path@, top_n: *top_n },
            ToolRequest::Diff { before, after, top_n } => ToolRequestView::Diff { before: before@, after: after@, top_n: *top_n },
            ToolRequest::Diagnose { path, top_n } => ToolRequestView::Diagnose { path: path@, top_n: *top_n },
        }
    }
}

/// The number of rows a tool is asked for: `topN` where it is a
/// non-negative integer, else `default`, brought into 1 to 100.
pub open spec fn spec_top_n(o: Option<Json>, default: u64) -> usize {
    let v = match o {
        Some(Json::PosInt(n)) => n,
        _ => default,
    };
    if v < 1 { 1 } else if v > 100 { 100 } else { v as usize }
}

/// The number of rows a tool is asked for.
pub fn get_top_n(args: &Json, default: u64) -> (n: usize)
    ensures
        n == spec_top_n(field(*args, "topN"@), default),
{
    let v = match get_field(args, "topN") {
        Some(Json::PosInt(n)) => *n,
        _ => default,
    };
    if v < 1 { 1 } else if v > 100 { 100 } else { v as usize }
}

/// The argument `k` of a tool call: the value under `k` of the call's
/// `arguments`.
pub open spec fn argument(params: Option<Json>, k: Seq<char>) -> Option<Json> {
    match field_of(params, "arguments"@) {
        Some(a) => field(a, k),
        None => None,
    }
}

/// The value under `k` of an optional object.
pub open spec fn field_of(o: Option<Json>, k: Seq<char>) -> Option<Json> {
    match o {
        Some(j) => field(j, k),
        None => None,
    }
}

/// The error of a tool that lacks the string argument `key`.
pub open spec fn requires_message(tool: Seq<char>, key: Seq<char>) -> Seq<char> {
    tool + " requires "@ + key
}

/// The tool that a `tools/call` asks for, or the error code and message
/// with which it is refused.
pub open spec fn spec_tool_call(params: Option<Json>) -> Result<ToolRequestView, (int, Seq<char>)> {
    match as_text(field_of(params, "name"@)) {
        None => Err((-32602, "tools/call missing name"@)),
        Some(name) => {
            let path = as_text(argument(params, "profilePath"@));
            let top20 = spec_top_n(argument(params, "topN"@), 20);
            if name == "summarize_cpuprofile"@ {
                match path { Some(p) => Ok(ToolRequestView::Summarize { path: p, top_n: top20 }), None => Err((-32602, requires_message(name, "profilePath"@))) }
            } else if name == "inspect_cpuprofile_node"@ {
                match path {
                    Some(p) => match as_count(argument(params, "nodeId"@)) {
                        Some(id) => Ok(ToolRequestView::Inspect { path: p, node_id: id }),
                        None => Err((-32602, "inspect_cpuprofile_node requires nodeId"@)),
                    },
                    None => Err((-32602, requires_message(name, "profilePath"@))),
                }
            } else if name == "summarize_cpuprofile_by_url"@ {
                match path { Some(p) => Ok(ToolRequestView::ByUrl { path: p, top_n: top20 }), None => Err((-32602, requires_message(name, "profilePath"@))) }
            } else if name == "get_cpuprofile_hot_paths"@ {
                match path { Some(p) => Ok(ToolRequestView::HotPaths { path: p, top_n: top20 }), None => Err((-32602, requires_message(name, "profilePath"@))) }
            } else if name == "get_cpuprofile_bottom_up"@ {
                match path { Some(p) => Ok(ToolRequestView::BottomUp { path: p, top_n: top20 }), None => Err((-32602, requires_message(name, "profilePath"@))) }
            } else if name == "diff_cpuprofiles"@ {
                match as_text(argument(params, "beforeProfilePath"@)) {
                    None => Err((-32602, requires_message(name, "beforeProfilePath"@))),
                    Some(b) => match as_text(argument(params, "afterProfilePath"@)) {
                        None => Err((-32602, requires_message(name, "afterProfilePath"@))),
                        Some(a) => Ok(ToolRequestView::Diff { before: b, after: a, top_n: top20 }),
                    },
                }
            } else if name == "diagnose_cpuprofile"@ {
                match path {
                    Some(p) => Ok(ToolRequestView::Diagnose { path: p, top_n: spec_top_n(argument(params, "topN"@), 10) }),
                    None => Err((-32602, requires_message(name, "profilePath"@))),
                }
            } else {
                Err((-32601, "Unknown tool: "@ + name))
            }
        },
    }
}

fn requires_error(tool: &str, key: &str) -> (r: (i64, String))
    ensures
        r.0 == -32602,
        r.1@ == requires_message(tool@, key@),
{
    let mut m = concat_str(tool, " requires ");
    m.append(key);
    (-32602, m)
}

/// Reads a `tools/call`: which tool, with which arguments; or the error with
/// which the call is refused.
pub fn parse_tool_call(params: &Json) -> (r: Result<ToolRequest, (i64, String)>)
    ensures
        match (r, spec_tool_call(Some(*params))) {
            (Ok(req), Ok(v)) => req@ == v,
            (Err(e), Err(s)) => e.0 == s.0 && e.1@ == s.1,
            _ => false,
        },
{
    let name = match get_text(params, "name") {
        Some(n) => n,
        None => { return Err((-32602, string_of("tools/call missing name"))); },
    };
    let empty: Vec<(String, Json)> = Vec::new();
    let none = Json::Object(empty);
    let args = match get_field(params, "arguments") {
        Some(a) => a,
        None => &none,
    };
    proof {
        assert forall|k: Seq<char>| #[trigger] argument(Some(*params), k) == field(*args, k) by {
            if field(*params, "arguments"@) is None {
                assert(entry_value(Seq::<(String, Json)>::empty(), k) is None);
            }
        }
        reveal_strlit("summarize_cpuprofile");
        reveal_strlit("inspect_cpuprofile_node");
        reveal_strlit("summarize_cpuprofile_by_url");
        reveal_strlit("get_cpuprofile_hot_paths");
        reveal_strlit("get_cpuprofile_bottom_up");
        reveal_strlit("diff_cpuprofiles");
        reveal_strlit("diagnose_cpuprofile");
    }
    let n = name.as_str();
    if str_eq(n, "summarize_cpuprofile") {
        let path = match get_text(args, "profilePath") { Some(p) => p, None => { return Err(requires_error(n, "profilePath")); } };
        let top_n = get_top_n(args, 20);
        Ok(ToolRequest::Summarize { path, top_n })
    } else if str_eq(n, "inspect_cpuprofile_node") {
        let path = match get_text(args, "profilePath") { Some(p) => p, None => { return Err(requires_error(n, "profilePath")); } };
        match get_count(args, "nodeId") {
            Some(node_id) => Ok(ToolRequest::Inspect { path, node_id }),
            None => Err((-32602, string_of("inspect_cpuprofile_node requires nodeId"))),
        }
    } else if str_eq(n, "summarize_cpuprofile_by_url") {
        let path = match get_text(args, "profilePath") { Some(p) => p, None => { return Err(requires_error(n, "profilePath")); } };
        let top_n = get_top_n(args, 20);
        Ok(ToolRequest::ByUrl { path, top_n })
    } else if str_eq(n, "get_cpuprofile_hot_paths") {
        let path = match get_text(args, "profilePath") { Some(p) => p, None => { return Err(requires_error(n, "profilePath")); } };
        let top_n = get_top_n(args, 20);
        Ok(ToolRequest::HotPaths { path, top_n })
    } else if str_eq(n, "get_cpuprofile_bottom_up") {
        let path = match get_text(args, "profilePath") { Some(p) => p, None => { return Err(requires_error(n, "profilePath")); } };
        let top_n = get_top_n(args, 20);
        Ok(ToolRequest::BottomUp { path, top_n })
    } else if str_eq(n, "diff_cpuprofiles") {
        let before = match get_text(args, "beforeProfilePath") { Some(p) => p, None => { return Err(requires_error(n, "beforeProfilePath")); } };
        let after = match get_text(args, "afterProfilePath") { Some(p) => p, None => { return Err(requires_error(n, "afterProfilePath")); } };
        let top_n = get_top_n(args, 20);
        Ok(ToolRequest::Diff { before, after, top_n })
    } else if str_eq(n, "diagnose_cpuprofile") {
        let path = match get_text(args, "profilePath") { Some(p) => p, None => { return Err(requires_error(n, "profilePath")); } };
        let top_n = get_top_n(args, 10);
        Ok(ToolRequest::Diagnose { path, top_n })
    } else {
        Err((-32601, concat_str("Unknown tool: ", n)))
    }
}

/// What a request is answered with.
#[derive(Debug)]
pub enum RpcReply {
    Initialize,
    Empty,
    ToolList,
    Error(i64, String),
}

pub enum RpcReplyView {
    Initialize,
    Empty,
    ToolList,
    Error(int, Seq<char>),
}

impl View for RpcReply {
    type V = RpcReplyView;

    open spec fn view(&self) -> RpcReplyView {
        match self {
            RpcReply::Initialize => RpcReplyView::Initialize,
            RpcReply::Empty => RpcReplyView::Empty,
            RpcReply::ToolList => RpcReplyView::ToolList,
            RpcReply::Error(c, m) => RpcReplyView::Error(*c as int, m@),
        }
    }
}

/// What to do with a request: nothing; answer it (under its id); or run a
/// tool and answer with what it gives.
#[derive(Debug)]
pub enum RpcAction {
    Ignore,
    Reply { id: Json, reply: RpcReply },
    Call { id: Json, request: ToolRequest },
}

pub enum RpcActionView {
    Ignore,
    Reply(Json, RpcReplyView),
    Call(Json, ToolRequestView),
}

impl View for RpcAction {
    type V = RpcActionView;

    open spec fn view(&self) -> RpcActionView {
        match self {
            RpcAction::Ignore => RpcActionView::Ignore,
            RpcAction::Reply { id, reply } => RpcActionView::Reply(*id, reply@),
            RpcAction::Call { id, request } => RpcActionView::Call(*id, request@),
        }
    }
}

/// How a JSON-RPC message is handled. Without a method it is refused as an
/// invalid request; a notification (no id) and `notifications/initialized`
/// get no answer; `initialize`, `ping` and `tools/list` are answered;
/// `tools/call` runs the tool it names, or is refused as `spec_tool_call`
/// says; any other method is not found.
pub open spec fn spec_route(msg: Json) -> RpcActionView {
    let id = field(msg, "id"@);
    match as_text(field(msg, "method"@)) {
        None => match id {
            None => RpcActionView::Ignore,
            Some(i) => RpcActionView::Reply(i, RpcReplyView::Error(-32600, "Invalid Request: missing method"@)),
        },
        Some(m) => if m == "notifications/initialized"@ {
            RpcActionView::Ignore
        } else {
            match id {
                None => RpcActionView::Ignore,
                Some(i) => if m == "initialize"@ {
                    RpcActionView::Reply(i, RpcReplyView::Initialize)
                } else if m == "ping"@ {
                    RpcActionView::Reply(i, RpcReplyView::Empty)
                } else if m == "tools/list"@ {
                    RpcActionView::Reply(i, RpcReplyView::ToolList)
                } else if m == "tools/call"@ {
                    match spec_tool_call(field(msg, "params"@)) {
                        Ok(v) => RpcActionView::Call(i, v),
                        Err(e) => RpcActionView::Reply(i, RpcReplyView::Error(e.0, e.1)),
                    }
                } else {
                    RpcActionView::Reply(i, RpcReplyView::Error(-32601, "Method not found: "@ + m))
                }
            }
        },
    }
}

/// A notification (a message without an id) is never answered: it is
/// ignored or, for `tools/call`, its tool gives nothing back.
pub proof fn law_notifications_get_no_answer(msg: Json)
    ensures
        field(msg, "id"@) is None ==> spec_route(msg) is Ignore,
{
}

/// Decides how a JSON-RPC message is handled.
pub fn route_request(msg: Json) -> (r: RpcAction)
    ensures
        r@ == spec_route(msg),
{
    let ghost m0 = msg;
    let mut entries = match msg {
        Json::Object(v) => v,
        _ => {
            return RpcAction::Ignore;
        },
    };
    let ghost e0 = entries@;
    let method: Option<String> = match find_entry(&entries, "method") {
        Some(p) => match &entries[p].1 {
            Json::Str(s) => Some(s.clone()),
            _ => None,
        },
        None => None,
    };
    let pi = find_entry(&entries, "params");
    let ii = find_entry(&entries, "id");
    proof {
        reveal_strlit("params");
        reveal_strlit("id");
        assert("params"@ != "id"@) by {
            assert("params"@[0] != "id"@[0]);
        }
    }
    // take the id and the params out, the later one first
    let mut id: Option<Json> = None;
    let mut params: Option<Json> = None;
    match (ii, pi) {
        (Some(i), Some(p)) => {
            assert(i != p);
            if i > p {
                let (_, v) = entries.remove(i);
                id = Some(v);
                assert(entries@[p as int] == e0[p as int]);
                let (_, w) = entries.remove(p);
                params = Some(w);
            } else {
                let (_, w) = entries.remove(p);
                params = Some(w);
                assert(entries@[i as int] == e0[i as int]);
                let (_, v) = entries.remove(i);
                id = Some(v);
            }
        },
        (Some(i), None) => {
            let (_, v) = entries.remove(i);
            id = Some(v);
        },
        (None, Some(p)) => {
            let (_, w) = entries.remove(p);
            params = Some(w);
        },
        (None, None) => {},
    }
    assert(id == field(m0, "id"@));
    assert(params == field(m0, "params"@));
    assert(match method { Some(s) => as_text(field(m0, "method"@)) == Some(s@), None => as_text(field(m0, "method"@)) is None });
    proof {
        reveal_strlit("notifications/initialized");
        reveal_strlit("initialize");
        reveal_strlit("ping");
        reveal_strlit("tools/list");
        reveal_strlit("tools/call");
    }
    match method {
        None => match id {
            None => RpcAction::Ignore,
            Some(i) => RpcAction::Reply { id: i, reply: RpcReply::Error(-32600, string_of("Invalid Request: missing method")) },
        },
        Some(m) => {
            if str_eq(m.as_str(), "notifications/initialized") {
                return RpcAction::Ignore;
            }
            match id {
                None => RpcAction::Ignore,
                Some(i) => {
                    if str_eq(m.as_str(), "initialize") {
                        RpcAction::Reply { id: i, reply: RpcReply::Initialize }
                    } else if str_eq(m.as_str(), "ping") {
                        RpcAction::Reply { id: i, reply: RpcReply::Empty }
                    } else if str_eq(m.as_str(), "tools/list") {
                        RpcAction::Reply { id: i, reply: RpcReply::ToolList }
                    } else if str_eq(m.as_str(), "tools/call") {
                        let call = match &params {
                            Some(p) => parse_tool_call(p),
                            None => Err((-32602, string_of("tools/call missing name"))),
                        };
                        match call {
                            Ok(request) => RpcAction::Call { id: i, request },
                            Err((c, s)) => RpcAction::Reply { id: i, reply: RpcReply::Error(c, s) },
                        }
                    } else {
                        RpcAction::Reply { id: i, reply: RpcReply::Error(-32601, concat_str("Method not found: ", m.as_str())) }
                    }
                },
            }
        },
    }
}

/// The lines of a message's header, split at each `\r\n` (the separator
/// cannot overlap itself, so splitting from either end gives these lines).
pub open spec fn crlf_split(s: Seq<char>) -> Seq<Seq<char>>
    decreases s.len(),
{
    if s.len() == 0 {
        seq![Seq::<char>::empty()]
    } else if s.len() >= 2 && s[s.len() - 2] == '\r' && s[s.len() - 1] == '\n' {
        crlf_split(s.take(s.len() - 2)).push(Seq::<char>::empty())
    } else {
        let r = crlf_split(s.drop_last());
        r.update(r.len() - 1, r.last().push(s.last()))
    }
}

proof fn lemma_crlf_split_len(s: Seq<char>)
    ensures
        crlf_split(s).len() >= 1,
    decreases s.len(),
{
    if s.len() >= 2 && s[s.len() - 2] == '\r' && s[s.len() - 1] == '\n' {
        lemma_crlf_split_len(s.take(s.len() - 2));
    } else if s.len() > 0 {
        lemma_crlf_split_len(s.drop_last());
    }
}

/// The position of the first `:` of a line, or its length where it has none.
pub open spec fn first_colon(line: Seq<char>) -> int
    decreases line.len(),
{
    if line.len() == 0 {
        0
    } else if line[0] == ':' {
        0
    } else {
        1 + first_colon(line.drop_first())
    }
}

/// The code of a character with ASCII capitals made small.
pub open spec fn ascii_lower_code(c: char) -> int {
    if 'A' <= c && c <= 'Z' { c as int + 32 } else { c as int }
}

/// Two texts are equal but for the case of ASCII letters.
pub open spec fn eq_ignore_ascii_case(a: Seq<char>, b: Seq<char>) -> bool {
    a.len() == b.len() && forall|i: int| 0 <= i < a.len() ==> #[trigger] ascii_lower_code(a[i]) == ascii_lower_code(b[i])
}

/// What a header line says of the body's length: `None` where the line is
/// not a `Content-Length` field; else the field's value, if it is a number.
pub open spec fn line_length(line: Seq<char>) -> Option<Option<nat>> {
    let c = first_colon(line);
    if c < line.len() && eq_ignore_ascii_case(line.take(c), "Content-Length"@) {
        let v = trim(line.skip(c + 1));
        Some(if parses_unsigned(v, usize::MAX as nat) { Some(digits_value(unsigned_digits(v))) } else { None })
    } else {
        None
    }
}

/// The body's length that a header's lines give: the last `Content-Length`
/// field decides.
pub open spec fn header_length(lines: Seq<Seq<char>>) -> Option<nat>
    decreases lines.len(),
{
    if lines.len() == 0 {
        None
    } else {
        match line_length(lines.last()) {
            Some(v) => v,
            None => header_length(lines.drop_last()),
        }
    }
}

fn lower_code(c: char) -> (r: u32)
    ensures
        r == ascii_lower_code(c),
{
    let u = c as u32;
    if u >= 65 && u <= 90 { u + 32 } else { u }
}

proof fn lemma_first_colon(line: Seq<char>)
    ensures
        0 <= first_colon(line) <= line.len(),
        forall|j: int| 0 <= j < first_colon(line) ==> line[j] != ':',
        first_colon(line) < line.len() ==> line[first_colon(line)] == ':',
    decreases line.len(),
{
    if line.len() > 0 && line[0] != ':' {
        lemma_first_colon(line.drop_first());
        assert forall|j: int| 0 < j < first_colon(line) implies line[j] != ':' by {
            assert(line[j] == line.drop_first()[j - 1]);
        }
    }
}

fn exec_line_length(line: &Vec<char>) -> (r: Option<Option<usize>>)
    ensures
        match (r, line_length(line@)) {
            (None, None) => true,
            (Some(None), Some(None)) => true,
            (Some(Some(n)), Some(Some(m))) => n == m,
            _ => false,
        },
{
    proof {
        lemma_first_colon(line@);
    }
    let mut c: usize = 0;
    while c < line.len() && line[c] != ':'
        invariant
            c <= line@.len(),
            forall|j: int| 0 <= j < c ==> line@[j] != ':',
        decreases line.len() - c,
    {
        c = c + 1;
    }
    assert(c == first_colon(line@)) by {
        if c < first_colon(line@) {
            assert(line@[c as int] != ':');
        }
    }
    if c == line.len() {
        return None;
    }
    let target = str_chars("Content-Length");
    proof {
        reveal_strlit("Content-Length");
    }
    if c != target.len() {
        assert(!eq_ignore_ascii_case(line@.take(c as int), "Content-Length"@)) by {
            assert(line@.take(c as int).len() == c);
        }
        assert(first_colon(line@) == c);
        assert(line_length(line@) is None);
        return None;
    }
    let mut k: usize = 0;
    while k < c
        invariant
            k <= c,
            c == target@.len(),
            c < line@.len(),
            c == first_colon(line@),
            target@ == "Content-Length"@,
            forall|j: int| 0 <= j < k ==> #[trigger] ascii_lower_code(line@[j]) == ascii_lower_code(target@[j]),
        decreases c - k,
    {
        if lower_code(line[k]) != lower_code(target[k]) {
            assert(!eq_ignore_ascii_case(line@.take(c as int), "Content-Length"@)) by {
                assert(line@.take(c as int)[k as int] == line@[k as int]);
            }
            return None;
        }
        k = k + 1;
    }
    assert(eq_ignore_ascii_case(line@.take(c as int), "Content-Length"@)) by {
        assert forall|j: int| 0 <= j < c implies #[trigger] ascii_lower_code(line@.take(c as int)[j]) == ascii_lower_code("Content-Length"@[j]) by {
            assert(line@.take(c as int)[j] == line@[j]);
        }
    }
    let rest = string_from_chars(line, c + 1, line.len());
    assert(rest@ == line@.skip(c + 1));
    let v = trim_str(rest.as_str());
    match parse_unsigned(v.as_str(), usize::MAX as u64) {
        Some(n) => Some(Some(n as usize)),
        None => Some(None),
    }
}

/// The body's length that a message's header gives: the value of its last
/// `Content-Length` field (its name in any case), or `None` where there is
/// no such field or its value is not a number that fits a `usize`.
pub fn content_length(header: &str) -> (r: Option<usize>)
    ensures
        match (r, header_length(crlf_split(header@))) {
            (None, None) => true,
            (Some(n), Some(m)) => n == m,
            _ => false,
        },
{
    let s = str_chars(header);
    let n = s.len();
    let mut cur: Vec<char> = Vec::new();
    let ghost mut lines: Seq<Seq<char>> = Seq::empty();
    let mut result: Option<usize> = None;
    let mut i: usize = 0;
    while i < n
        invariant
            s@ == header@,
            n == s@.len(),
            i <= n,
            crlf_split(s@.take(i as int)) == lines.push(cur@),
            0 < i < n ==> !(s@[i - 1] == '\r' && s@[i as int] == '\n'),
            match (result, header_length(lines)) {
                (None, None) => true,
                (Some(a), Some(b)) => a == b,
                _ => false,
            },
        decreases n - i,
    {
        if s[i] == '\r' && i + 1 < n && s[i + 1] == '\n' {
            let got = exec_line_length(&cur);
            match got {
                Some(v) => { result = v; },
                None => {},
            }
            proof {
                let t = s@.take(i + 2);
                assert(t.take(t.len() - 2) =~= s@.take(i as int));
                assert(t[t.len() - 2] == '\r' && t[t.len() - 1] == '\n');
                assert(lines.push(cur@).drop_last() =~= lines);
                lines = lines.push(cur@);
            }
            cur = Vec::new();
            proof {
                assert(cur@ =~= Seq::<char>::empty());
            }
            i = i + 2;
        } else {
            let ghost before = cur@;
            cur.push(s[i]);
            proof {
                let t = s@.take(i + 1);
                assert(t.drop_last() =~= s@.take(i as int));
                lemma_crlf_split_len(s@.take(i as int));
                if t.len() >= 2 {
                    assert(t[t.len() - 2] == s@[i - 1]);
                    assert(t[t.len() - 1] == s@[i as int]);
                }
                assert(crlf_split(t) =~= lines.push(cur@));
            }
            i = i + 1;
        }
    }
    assert(s@.take(i as int) =~= header@);
    let got = exec_line_length(&cur);
    match got {
        Some(v) => { result = v; },
        None => {},
    }
    proof {
        assert(lines.push(cur@).drop_last() =~= lines);
    }
    result
}

} // verus!
