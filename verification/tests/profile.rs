use katex::bottom_up::get_bottom_up;
use katex::cpuprofile::{check_profile, inspect_node, CallFrame, CpuNode, CpuProfile, NodeReport};
use katex::harness::fixture_formulas;
use katex::json::Json;
use katex::minimizer::{MinimizeResult, MinimizeStep, Minimizer};
use katex::profile_diff::diff_profiles;
use katex::profile_paths::{get_hot_paths, join_str};
use katex::profile_stats::{summarize_by_url, summarize_profile};
use katex::rpc::{content_length, get_top_n, parse_tool_call, route_request, RpcAction, RpcReply, ToolRequest};

fn frame(name: &str, url: &str, line: i64, column: i64) -> CallFrame {
    CallFrame { function_name: name.to_string(), url: url.to_string(), line_number: line, column_number: column }
}

fn mock_profile() -> CpuProfile {
    CpuProfile {
        nodes: vec![
            CpuNode { id: 1, call_frame: frame("root", "/tmp/a.js", 0, 0), children: vec![2, 3], hit_count: 0 },
            CpuNode { id: 2, call_frame: frame("foo", "/tmp/a.js", 1, 0), children: vec![], hit_count: 2 },
            CpuNode { id: 3, call_frame: frame("bar", "/tmp/b.js", 2, 0), children: vec![], hit_count: 1 },
        ],
        samples: vec![2, 2, 3],
        time_deltas: vec![100, 300, 600],
    }
}

fn obj(entries: Vec<(&str, Json)>) -> Json {
    let mut v: Vec<(String, Json)> = Vec::new();
    for (k, j) in entries {
        katex::json::object_insert(&mut v, k.to_string(), j);
    }
    Json::Object(v)
}

fn text(s: &str) -> Json {
    Json::Str(s.to_string())
}

#[test]
fn summarize_profile_orders_by_self_time() {
    let summary = summarize_profile(&mock_profile(), 10);
    assert_eq!(summary.hotspots[0].function_name, "bar");
    assert_eq!(summary.hotspots[0].self_time_us, 600);
}

#[test]
fn inspect_contains_parent_children_hitcount() {
    match inspect_node(&mock_profile(), 2) {
        NodeReport::Found(info) => {
            assert_eq!(info.hit_count, 2);
            assert_eq!(info.parent_id, Some(1));
            assert!(info.children.is_empty());
        }
        NodeReport::Missing(_) => panic!("node 2 is in the profile"),
    }
}

#[test]
fn hot_paths_and_bottom_up_work() {
    let p = mock_profile();
    let paths = get_hot_paths(&p, 5);
    let bu = get_bottom_up(&p, 5);
    assert!(!paths.is_empty());
    assert!(!bu.is_empty());
}

#[test]
fn invalid_request_without_method() {
    let msg = obj(vec![("jsonrpc", text("2.0")), ("id", Json::PosInt(1))]);
    match route_request(msg) {
        RpcAction::Reply { id, reply: RpcReply::Error(code, message) } => {
            assert_eq!(id, Json::PosInt(1));
            assert_eq!(code, -32600);
            assert_eq!(message, "Invalid Request: missing method");
        }
        other => panic!("unexpected {:?}", other),
    }
}

#[test]
fn summary_totals_and_rows() {
    let summary = summarize_profile(&mock_profile(), 10);
    assert_eq!(summary.total_time_us, 1000);
    assert_eq!(summary.total_samples, 3);
    assert_eq!(summary.hotspots.len(), 2);
    let second = &summary.hotspots[1];
    assert_eq!(second.id, 2);
    assert_eq!(second.function_name, "foo");
    assert_eq!(second.url, "/tmp/a.js");
    assert_eq!(second.line_number, 2);
    assert_eq!(second.column_number, 1);
    assert_eq!(second.self_time_us, 400);
    let top = summarize_profile(&mock_profile(), 1);
    assert_eq!(top.hotspots.len(), 1);
    assert_eq!(top.hotspots[0].id, 3);
}

#[test]
fn unknown_sampled_node_is_anonymous() {
    let mut p = mock_profile();
    p.samples = vec![9];
    p.time_deltas = vec![5];
    let summary = summarize_profile(&p, 10);
    assert_eq!(summary.hotspots[0].function_name, "(anonymous)");
    assert_eq!(summary.hotspots[0].url, "");
    assert_eq!(summary.hotspots[0].line_number, 1);
    let urls = summarize_by_url(&p, 10);
    assert_eq!(urls[0].url, "(internal)");
    let paths = get_hot_paths(&p, 10);
    assert_eq!(paths[0].path, vec!["unknown#9".to_string()]);
}

#[test]
fn by_url_sums_scripts() {
    let rows = summarize_by_url(&mock_profile(), 10);
    assert_eq!(rows.len(), 2);
    assert_eq!(rows[0].url, "/tmp/b.js");
    assert_eq!(rows[0].self_time_us, 600);
    assert_eq!(rows[1].url, "/tmp/a.js");
    assert_eq!(rows[1].self_time_us, 400);
}

#[test]
fn hot_paths_run_from_the_root() {
    let paths = get_hot_paths(&mock_profile(), 5);
    assert_eq!(paths.len(), 2);
    assert_eq!(paths[0].path, vec!["root @ /tmp/a.js:1:1".to_string(), "bar @ /tmp/b.js:3:1".to_string()]);
    assert_eq!(paths[0].time_us, 600);
    assert_eq!(paths[1].time_us, 400);
    assert_eq!(join_str(&paths[1].path, " -> "), "root @ /tmp/a.js:1:1 -> foo @ /tmp/a.js:2:1");
}

#[test]
fn bottom_up_counts_callers() {
    let rows = get_bottom_up(&mock_profile(), 5);
    assert_eq!(rows[0].function, "root @ /tmp/a.js:1:1");
    assert_eq!(rows[0].total_time_us, 1000);
    assert_eq!(rows[0].self_time_us, 0);
    assert!(rows[0].main_callers.is_empty());
    assert_eq!(rows[1].function, "bar @ /tmp/b.js:3:1");
    assert_eq!(rows[1].self_time_us, 600);
    assert_eq!(rows[1].main_callers.len(), 1);
    assert_eq!(rows[1].main_callers[0].caller, "root @ /tmp/a.js:1:1");
    assert_eq!(rows[1].main_callers[0].time_us, 600);
}

#[test]
fn diff_finds_regressions_and_improvements() {
    let before = mock_profile();
    let mut after = mock_profile();
    after.time_deltas = vec![500, 500, 100];
    let d = diff_profiles(&before, &after, 10);
    assert_eq!(d.before_total_us, 1000);
    assert_eq!(d.after_total_us, 1100);
    assert_eq!(d.regressions.len(), 1);
    assert_eq!(d.regressions[0].function, "foo @ /tmp/a.js:2:1");
    assert_eq!(d.regressions[0].before_us, 400);
    assert_eq!(d.regressions[0].after_us, 1000);
    assert_eq!(d.regressions[0].delta_us, 600);
    assert_eq!(d.improvements.len(), 1);
    assert_eq!(d.improvements[0].function, "bar @ /tmp/b.js:3:1");
    assert_eq!(d.improvements[0].delta_us, -500);
}

#[test]
fn diff_counts_a_function_missing_before_as_zero() {
    let mut before = mock_profile();
    before.samples = vec![2];
    before.time_deltas = vec![10];
    let after = mock_profile();
    let d = diff_profiles(&before, &after, 10);
    assert_eq!(d.regressions[0].function, "bar @ /tmp/b.js:3:1");
    assert_eq!(d.regressions[0].before_us, 0);
    assert_eq!(d.regressions[0].after_us, 600);
    assert_eq!(d.regressions[1].function, "foo @ /tmp/a.js:2:1");
    assert_eq!(d.regressions[1].delta_us, 390);
    assert!(d.improvements.is_empty());
}

#[test]
fn inspect_text_and_missing_node() {
    match inspect_node(&mock_profile(), 1) {
        NodeReport::Found(info) => {
            assert_eq!(info.text, "Node 1: root @ /tmp/a.js:1:1 (hitCount=0, parent=None, children=[2, 3])");
            assert_eq!(info.line, 1);
            assert_eq!(info.children, vec![2, 3]);
        }
        NodeReport::Missing(_) => panic!("node 1 is in the profile"),
    }
    match inspect_node(&mock_profile(), 7) {
        NodeReport::Missing(t) => assert_eq!(t, "Node 7 not found."),
        NodeReport::Found(_) => panic!("node 7 is not in the profile"),
    }
}

#[test]
fn profile_length_mismatch_is_refused() {
    let mut p = mock_profile();
    assert!(check_profile(&p).is_ok());
    p.time_deltas.pop();
    assert_eq!(
        check_profile(&p),
        Err("Invalid .cpuprofile: samples (3) and timeDeltas (2) length mismatch".to_string())
    );
}

#[test]
fn content_length_reads_the_last_field() {
    assert_eq!(content_length("Content-Length: 42\r\n\r\n"), Some(42));
    assert_eq!(content_length("content-length:7\r\nX: y\r\n\r\n"), Some(7));
    assert_eq!(content_length("Content-Length: 5\r\nCONTENT-LENGTH: 9\r\n\r\n"), Some(9));
    assert_eq!(content_length("Content-Length: 5\r\nContent-Length: x\r\n\r\n"), None);
    assert_eq!(content_length("Content-Type: json\r\n\r\n"), None);
    assert_eq!(content_length("Content-Length 5\r\n\r\n"), None);
}

#[test]
fn routes_each_method() {
    let with = |method: &str| obj(vec![("jsonrpc", text("2.0")), ("id", Json::PosInt(3)), ("method", text(method))]);
    assert!(matches!(route_request(with("initialize")), RpcAction::Reply { reply: RpcReply::Initialize, .. }));
    assert!(matches!(route_request(with("ping")), RpcAction::Reply { reply: RpcReply::Empty, .. }));
    assert!(matches!(route_request(with("tools/list")), RpcAction::Reply { reply: RpcReply::ToolList, .. }));
    assert!(matches!(route_request(with("notifications/initialized")), RpcAction::Ignore));
    match route_request(with("nope")) {
        RpcAction::Reply { reply: RpcReply::Error(code, m), .. } => {
            assert_eq!(code, -32601);
            assert_eq!(m, "Method not found: nope");
        }
        other => panic!("unexpected {:?}", other),
    }
    match route_request(with("tools/call")) {
        RpcAction::Reply { reply: RpcReply::Error(code, m), .. } => {
            assert_eq!(code, -32602);
            assert_eq!(m, "tools/call missing name");
        }
        other => panic!("unexpected {:?}", other),
    }
    let notification = obj(vec![("jsonrpc", text("2.0")), ("method", text("ping"))]);
    assert!(matches!(route_request(notification), RpcAction::Ignore));
    assert!(matches!(route_request(obj(vec![])), RpcAction::Ignore));
}

#[test]
fn tool_calls_are_read() {
    let call = |name: &str, args: Json| obj(vec![("name", text(name)), ("arguments", args)]);
    let r = parse_tool_call(&call("summarize_cpuprofile", obj(vec![("profilePath", text("/p")), ("topN", Json::PosInt(500))])));
    match r {
        Ok(ToolRequest::Summarize { path, top_n }) => {
            assert_eq!(path, "/p");
            assert_eq!(top_n, 100);
        }
        other => panic!("unexpected {:?}", other),
    }
    match parse_tool_call(&call("diagnose_cpuprofile", obj(vec![("profilePath", text("/p"))]))) {
        Ok(ToolRequest::Diagnose { top_n, .. }) => assert_eq!(top_n, 10),
        other => panic!("unexpected {:?}", other),
    }
    match parse_tool_call(&call("inspect_cpuprofile_node", obj(vec![("profilePath", text("/p"))]))) {
        Err((code, m)) => {
            assert_eq!(code, -32602);
            assert_eq!(m, "inspect_cpuprofile_node requires nodeId");
        }
        other => panic!("unexpected {:?}", other),
    }
    match parse_tool_call(&call("diff_cpuprofiles", obj(vec![("beforeProfilePath", text("/a"))]))) {
        Err((_, m)) => assert_eq!(m, "diff_cpuprofiles requires afterProfilePath"),
        other => panic!("unexpected {:?}", other),
    }
    match parse_tool_call(&call("get_cpuprofile_hot_paths", obj(vec![]))) {
        Err((_, m)) => assert_eq!(m, "get_cpuprofile_hot_paths requires profilePath"),
        other => panic!("unexpected {:?}", other),
    }
    match parse_tool_call(&call("other", obj(vec![]))) {
        Err((code, m)) => {
            assert_eq!(code, -32601);
            assert_eq!(m, "Unknown tool: other");
        }
        other => panic!("unexpected {:?}", other),
    }
    assert_eq!(get_top_n(&obj(vec![("topN", Json::PosInt(0))]), 20), 1);
    assert_eq!(get_top_n(&obj(vec![]), 20), 20);
}

/// Runs the minimizer with an answer function in place of the JS parser.
fn minimize_with(input: &str, still_fails: impl Fn(&str) -> bool) -> MinimizeResult {
    let mut m = Minimizer::new(input);
    loop {
        match m.next_step() {
            MinimizeStep::Check(candidate) => {
                let answer = still_fails(&candidate);
                m.report(answer);
            }
            MinimizeStep::Done(r) => return r,
        }
    }
}

#[test]
fn minimizer_keeps_what_the_failure_needs() {
    let r = minimize_with(r"\frac{a}{b}+x", |c| c.contains("b"));
    assert_eq!(r.original, r"\frac{a}{b}+x");
    assert_eq!(r.minimized, "b");
    assert_eq!(r.original_token_count, 9);
    assert_eq!(r.minimized_token_count, 1);
    let kept = minimize_with("x^2", |_| false);
    assert_eq!(kept.minimized, "x^2");
    assert_eq!(kept.minimized_token_count, 3);
}

#[test]
fn minimize_result_report() {
    let r = MinimizeResult {
        original: "x^2".to_string(),
        minimized: "x".to_string(),
        original_token_count: 3,
        minimized_token_count: 1,
    };
    assert_eq!(r.fmt(), "minimized 3 tokens \u{2192} 1 tokens\n  original:  x^2\n  minimized: x");
}

#[test]
fn fixture_formulas_skip_comments_blanks_and_repeats() {
    let content = "# comment\n  x^2  \n\n\\frac{a}{b}\r\nx^2\n   # indented comment\n";
    assert_eq!(fixture_formulas(content), vec!["x^2".to_string(), "\\frac{a}{b}".to_string()]);
}
