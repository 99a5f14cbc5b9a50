use katex::cli::{parse_line_number, select_tasks};
use katex::cpuprofile::{build_parent_map, display_name, CallFrame, CpuNode, CpuProfile};
use katex::dom::{build_html, get_type_of_dom_tree, split_lines, DomType, HtmlKind, HtmlNode, Side};
use katex::array_parse::parse_array;
use katex::environments::{aligned_handler, aligned_parse_args, array_handler_fn, array_parse_args, dCellStyle, get_auto_tag};
use katex::parser::{Parser, SymbolGroup, SymbolTables};
use katex::functions::def::{handler_fn as prefix_handler, handler_fn_2 as def_handler, handler_fn_3 as let_handler, handler_fn_4 as futurelet_handler, read_definition, store_definition};
use katex::functions::FunctionContext;
use katex::gullet::Gullet;
use katex::macros::{MacroDefinition, Token};
use katex::namespace::Namespace;
use katex::parse_node::{AlignSpec, ColSeparationType, Mode, ParseNode, StyleStr};
use katex::setting::Settings;
use katex::str_map::StrMap;
use katex::style::StyleInterface;
use katex::functions::genfrac::adjust_style;
use katex::mathml::{get_variant, FontVariant, VariantChoice};

fn ctx(name: &str) -> FunctionContext {
    FunctionContext { func_name: name.to_string(), mode: Mode::Math, left_right_depth: 0 }
}

/// A gullet that will read `tokens` in order.
fn gullet(tokens: &[&str]) -> Gullet {
    let stack: Vec<Token> = tokens.iter().rev().map(|t| Token::new(t.to_string())).collect();
    let mut functions = StrMap::new();
    functions.insert("\\frac".to_string(), false);
    functions.insert("\\relax".to_string(), true);
    Gullet::new(stack, Namespace::new(StrMap::new(), StrMap::new()), functions)
}

fn texts(stack: &[Token]) -> Vec<String> {
    stack.iter().rev().map(|t| t.text.clone()).collect()
}

fn expansion_texts(d: &MacroDefinition) -> Vec<String> {
    match d {
        MacroDefinition::Expansion(e) => e.tokens.iter().rev().map(|t| t.text.clone()).collect(),
        MacroDefinition::Str(s) => vec![s.clone()],
    }
}

#[test]
fn consume_arg_reads_a_braced_group_without_its_braces() {
    let mut g = gullet(&[" ", "{", "a", "{", "b", "}", "}", "c"]);
    let arg = g.consume_arg().unwrap();
    assert_eq!(texts(&arg), vec!["a", "{", "b", "}"]);
    assert_eq!(texts(&g.stack), vec!["c"]);
    let mut g = gullet(&["x", "y"]);
    assert_eq!(texts(&g.consume_arg().unwrap()), vec!["x"]);
}

#[test]
fn consume_arg_reports_unbalanced_input() {
    let mut g = gullet(&["}"]);
    assert_eq!(g.consume_arg().unwrap_err().message, "Extra }");
    let mut g = gullet(&["{", "a"]);
    assert_eq!(g.consume_arg().unwrap_err().message, "Unexpected end of input in a macro argument, expected '}'");
}

#[test]
fn def_stores_parameters_delimiters_and_body() {
    let mut g = gullet(&["\\foo", "#", "1", "x", "#", "2", "{", "a", "#", "1", "}", "rest"]);
    let parts = read_definition(&mut g);
    assert_eq!(parts.name, "\\foo");
    assert_eq!(parts.num_args, 2);
    assert_eq!(parts.delimiters, vec![vec![], vec!["x".to_string()], vec![]]);
    let node = store_definition(&ctx("\\def"), &mut g, parts);
    assert!(matches!(node, ParseNode::Internal { .. }));
    let d = g.macros.get("\\foo").unwrap();
    assert_eq!(expansion_texts(&d), vec!["a", "#", "1"]);
    assert_eq!(texts(&g.stack), vec!["rest"]);
}

#[test]
fn def_reads_and_stores_in_one_step() {
    let mut g = gullet(&["\\foo", "#", "1", "#", "2", "{", "#", "1", "+", "#", "2", "}", "rest"]);
    let node = def_handler(&ctx("\\def"), &mut g);
    assert!(matches!(node, ParseNode::Internal { .. }));
    match g.macros.get("\\foo").unwrap() {
        MacroDefinition::Expansion(e) => {
            assert_eq!(e.num_args, 2);
            assert!(!e.unexpandable);
        }
        _ => panic!("expected an expansion"),
    }
    assert_eq!(texts(&g.stack), vec!["rest"]);
}

#[test]
fn def_with_trailing_hash_appends_a_brace() {
    let mut g = gullet(&["\\foo", "#", "{", "b", "}"]);
    let parts = read_definition(&mut g);
    assert_eq!(parts.delimiters, vec![vec!["{".to_string()]]);
    assert_eq!(texts(&parts.tokens), vec!["b", "{"]);
}

#[test]
fn local_definitions_end_with_their_group_and_global_ones_survive() {
    let mut g = gullet(&["\\a", "{", "1", "}", "\\b", "{", "2", "}"]);
    g.macros.begin_group();
    def_handler(&ctx("\\def"), &mut g);
    def_handler(&ctx("\\gdef"), &mut g);
    assert!(g.macros.has("\\a") && g.macros.has("\\b"));
    g.macros.end_group();
    assert!(!g.macros.has("\\a"));
    assert!(g.macros.has("\\b"));
}

#[test]
fn let_copies_a_definition_and_marks_undefined_tokens() {
    let mut g = gullet(&["\\b", "{", "z", "}", "\\a", " ", "=", " ", "\\b", "\\c", "\\frac", "tail"]);
    def_handler(&ctx("\\def"), &mut g);
    let_handler(&ctx("\\let"), &mut g);
    assert_eq!(expansion_texts(&g.macros.get("\\a").unwrap()), vec!["z"]);
    let_handler(&ctx("\\let"), &mut g);
    match g.macros.get("\\c").unwrap() {
        MacroDefinition::Expansion(e) => {
            assert_eq!(e.tokens[0].text, "\\frac");
            assert!(e.tokens[0].noexpand);
            assert!(!e.unexpandable);
        }
        _ => panic!("expected an expansion"),
    }
    assert_eq!(texts(&g.stack), vec!["tail"]);
}

#[test]
fn futurelet_leaves_the_two_tokens_to_be_read() {
    let mut g = gullet(&["\\x", "a", "b", "c"]);
    futurelet_handler(&ctx("\\futurelet"), &mut g);
    assert_eq!(texts(&g.stack), vec!["a", "b", "c"]);
    assert!(g.stack[1].noexpand);
    assert!(g.macros.has("\\x"));
}

#[test]
fn global_prefix_rewrites_the_next_command() {
    let mut g = gullet(&[" ", "\\def", "\\x"]);
    prefix_handler(&ctx("\\global"), &mut g);
    assert_eq!(texts(&g.stack), vec!["\\gdef", "\\x"]);
    let mut g = gullet(&["\\let"]);
    prefix_handler(&ctx("\\long"), &mut g);
    assert_eq!(texts(&g.stack), vec!["\\let"]);
}

/// A math parser that will read `tokens` in order; the letters `a` to `d`
/// are ordinary symbols.
fn parser(tokens: &[&str]) -> Parser {
    let stack: Vec<Token> = tokens.iter().rev().map(|t| Token::new(t.to_string())).collect();
    let gullet = Gullet::new(stack, Namespace::new(StrMap::new(), StrMap::new()), StrMap::new());
    let mut math = StrMap::new();
    for l in ["a", "b", "c", "d"] {
        math.insert(l.to_string(), SymbolGroup::MathOrd);
    }
    Parser {
        mode: Mode::Math,
        gullet,
        left_right_depth: 0,
        next_token: None,
        tables: SymbolTables { math, text: StrMap::new(), accents: StrMap::new(), scripts: StrMap::new() },
        throw_on_error: false,
        error_color: "#cc0000".to_string(),
    }
}

#[test]
fn hlines_are_read_after_relax() {
    let mut p = parser(&[" ", "\\relax", "\\hline", " ", "\\hdashline", "x"]);
    assert_eq!(p.get_hlines(), vec![false, true]);
    assert_eq!(p.fetch().text, "x");
}

#[test]
fn environment_helpers() {
    assert!(get_auto_tag("align"));
    assert!(!get_auto_tag("aligned"));
    assert!(!get_auto_tag("align*"));
    assert_eq!(dCellStyle(&"darray".to_string()), StyleStr::Display);
    assert_eq!(dCellStyle(&"array".to_string()), StyleStr::Text);
}

fn sym(t: &str) -> ParseNode {
    ParseNode::MathOrd { mode: Mode::Math, text: t.to_string() }
}

#[test]
fn array_columns_from_the_specification() {
    let spec = ParseNode::OrdGroup { mode: Mode::Math, body: vec![sym("l"), sym("|"), sym("c"), sym(":"), sym("r")], semisimple: false };
    let (args, style) = array_parse_args(&ctx("darray"), vec![spec]);
    assert_eq!(style, StyleStr::Display);
    assert_eq!(args.cols.len(), 5);
    assert_eq!(args.max_num_cols, Some(5));
    match &args.cols[1] {
        AlignSpec::Separator(s) => assert_eq!(s.separator, "|"),
        _ => panic!("expected a separator"),
    }
    match &args.cols[4] {
        AlignSpec::Align(a) => assert_eq!(a.align, "r"),
        _ => panic!("expected an alignment"),
    }
}

fn cell_text(n: &ParseNode) -> (StyleStr, Vec<String>) {
    match n {
        ParseNode::Styling { style, body, .. } => match &body[0] {
            ParseNode::OrdGroup { body, .. } => (*style, body.iter().map(|b| match b {
                ParseNode::MathOrd { text, .. } => text.clone(),
                ParseNode::OrdGroup { body, .. } if body.is_empty() => "{}".to_string(),
                _ => "?".to_string(),
            }).collect()),
            _ => panic!("expected an ordgroup"),
        },
        _ => panic!("expected a styling node"),
    }
}

#[test]
fn an_array_reads_rows_and_cells_of_its_body() {
    let spec = ParseNode::OrdGroup { mode: Mode::Math, body: vec![sym("l"), sym("|"), sym("c")], semisimple: false };
    let mut p = parser(&["a", "&", "b", "\\\\", "\\hline", "c", "&", "d", "\\end"]);
    let a = array_handler_fn(&mut p, &ctx("darray"), vec![spec], vec![]).unwrap();
    assert_eq!(a.body.len(), 2);
    assert_eq!(a.body[0].len(), 2);
    assert_eq!(cell_text(&a.body[1][1]), (StyleStr::Display, vec!["d".to_string()]));
    assert_eq!(a.cols.len(), 3);
    assert!(a.hskip_before_and_after && !a.add_jot && a.tags.is_none());
    assert_eq!(a.col_separation_type, None);
    assert_eq!(a.h_lines_before_row, vec![vec![], vec![false], vec![]]);
    assert_eq!(a.row_gaps.len(), 1);
    let spec = ParseNode::OrdGroup { mode: Mode::Math, body: vec![sym("c")], semisimple: false };
    let mut p = parser(&["a", "\\end"]);
    let a = array_handler_fn(&mut p, &ctx("array"), vec![spec], vec![]).unwrap();
    assert_eq!(cell_text(&a.body[0][0]), (StyleStr::Text, vec!["a".to_string()]));
}

#[test]
fn array_body_errors() {
    let spec = ParseNode::OrdGroup { mode: Mode::Math, body: vec![sym("c")], semisimple: false };
    let mut p = parser(&["a", "}", "\\end"]);
    let e = array_handler_fn(&mut p, &ctx("array"), vec![spec], vec![]).unwrap_err();
    assert_eq!(e.message, "Expected & or \\\\ or \\cr or \\end");
}

#[test]
fn parse_array_keeps_the_arguments_and_drops_an_empty_last_row() {
    let (args, _) = array_parse_args(&ctx("array"), vec![sym("c")]);
    let mut p = parser(&["a", "\\\\", "\\end"]);
    let a = parse_array(&mut p, args, StyleStr::Script).unwrap();
    assert_eq!(a.body.len(), 1);
    assert_eq!(a.array_stretch, "1");
    assert_eq!(cell_text(&a.body[0][0]).0, StyleStr::Script);
    assert_eq!(a.h_lines_before_row.len(), 2);
}

#[test]
fn aligned_environments_need_display_mode() {
    let settings = Settings::new();
    let args = aligned_parse_args(&ctx("aligned"), &settings);
    assert_eq!(args.col_separation_type, Some(ColSeparationType::Align));
    assert!(!args.auto_tag);
    let mut display = Settings::new();
    display.set_display_mode(true);
    let split = aligned_parse_args(&ctx("split"), &display);
    let align = aligned_parse_args(&ctx("align"), &display);
    assert!(align.auto_tag);
    assert_eq!(split.max_num_cols, Some(2));
}

fn cell(t: &str) -> ParseNode {
    ParseNode::Styling {
        mode: Mode::Math,
        style: StyleStr::Display,
        body: vec![ParseNode::OrdGroup { mode: Mode::Math, body: vec![sym(t)], semisimple: false }],
    }
}

#[test]
fn aligned_rows_get_an_empty_group_in_every_second_cell() {
    let settings = Settings::new();
    let mut p = parser(&["a", "&", "b", "&", "c", "\\end"]);
    let res = aligned_handler(&mut p, &ctx("aligned"), vec![], &settings).unwrap();
    assert!(res.add_jot && !res.hskip_before_and_after && res.tags.is_none());
    assert_eq!(res.cols.len(), 3);
    match &res.cols[2] {
        AlignSpec::Align(a) => {
            assert_eq!(a.align, "r");
            assert_eq!(a.pregap.as_deref(), Some("1"));
        }
        _ => panic!(),
    }
    assert_eq!(cell_text(&res.body[0][1]), (StyleStr::Display, vec!["{}".to_string(), "b".to_string()]));
    assert_eq!(cell_text(&res.body[0][0]), (StyleStr::Display, vec!["a".to_string()]));
    assert_eq!(res.col_separation_type, Some(ColSeparationType::Align));
}

#[test]
fn alignedat_sets_twice_as_many_columns_as_maths() {
    let settings = Settings::new();
    let one = || ParseNode::OrdGroup { mode: Mode::Math, body: vec![ParseNode::TextOrd { mode: Mode::Math, text: "1".to_string() }], semisimple: false };
    let mut p = parser(&["a", "&", "b", "\\end"]);
    let res = aligned_handler(&mut p, &ctx("alignedat"), vec![one()], &settings).unwrap();
    assert_eq!(res.col_separation_type, Some(ColSeparationType::AlignAt));
    assert_eq!(res.cols.len(), 2);
    match &res.cols[0] {
        AlignSpec::Align(a) => assert_eq!(a.pregap.as_deref(), Some("0")),
        _ => panic!(),
    }
    let mut p = parser(&["a", "&", "b", "&", "c", "&", "d", "\\end"]);
    let e = aligned_handler(&mut p, &ctx("alignedat"), vec![one()], &settings).unwrap_err();
    assert_eq!(e.message, "Too many math in a row: row[0] expected 1, but got 2");
}

#[test]
fn align_outside_display_mode_is_refused() {
    let settings = Settings::new();
    let mut p = parser(&["a", "\\end"]);
    let e = aligned_handler(&mut p, &ctx("align"), vec![], &settings).unwrap_err();
    assert_eq!(e.message, "align can be used only in display mode.");
    let mut display = Settings::new();
    display.set_display_mode(true);
    let mut p = parser(&["a", "&", "b", "\\end"]);
    let res = aligned_handler(&mut p, &ctx("align*"), vec![], &display).unwrap();
    assert_eq!(res.cols.len(), 2);
}

fn span(classes: &[&str]) -> HtmlNode {
    HtmlNode { kind: HtmlKind::Span, classes: classes.iter().map(|c| c.to_string()).collect(), children: vec![], attributes: vec![] }
}

#[test]
fn lines_break_after_operators_unless_nobreak() {
    let e = vec![span(&["mord"]), span(&["mbin"]), span(&["mspace"]), span(&["mord"]), span(&["mrel"]), span(&["mspace", "nobreak"]), span(&["mord"])];
    let lines = split_lines(e);
    assert_eq!(lines.len(), 2);
    assert_eq!(lines[0].children.len(), 3);
    assert_eq!(lines[1].children.len(), 4);
    assert_eq!(lines[0].classes, vec!["base".to_string()]);
}

#[test]
fn a_newline_node_stands_between_lines() {
    let e = vec![span(&["mord"]), span(&["newline"]), span(&["mord"])];
    let lines = split_lines(e);
    assert_eq!(lines.len(), 3);
    assert_eq!(lines[1].classes, vec!["newline".to_string()]);
    let html = build_html(vec![span(&["mord"]), span(&["tag"])], None);
    assert_eq!(html.classes, vec!["katex-html".to_string()]);
    assert_eq!(html.children.len(), 2);
    assert_eq!(html.children[1].classes, vec!["tag".to_string()]);
}

#[test]
fn type_of_dom_tree_looks_through_partial_groups() {
    let frag = HtmlNode { kind: HtmlKind::Fragment, classes: vec![], children: vec![span(&["mopen"]), span(&["mbin", "x"])], attributes: vec![] };
    assert_eq!(get_type_of_dom_tree(&frag, Some(Side::Right)), Some(DomType::Mbin));
    assert_eq!(get_type_of_dom_tree(&frag, Some(Side::Left)), Some(DomType::Mopen));
    assert_eq!(get_type_of_dom_tree(&frag, None), None);
    assert_eq!("mrel".parse::<DomType>(), Ok(DomType::Mrel));
    assert_eq!(DomType::Mpunct.as_str(), "mpunct");
}

#[test]
fn line_numbers_must_be_positive_integers() {
    assert_eq!(parse_line_number("12"), Ok(12));
    assert_eq!(parse_line_number("0"), Err("line numbers must start at 1".to_string()));
    assert_eq!(parse_line_number("x1"), Err("'x1' is not a valid positive integer".to_string()));
}

#[test]
fn tasks_skip_empty_and_comment_lines() {
    let content = "a\n  # note\n\n  b  \nc";
    let tasks = select_tasks(content, 1, Some(4)).unwrap();
    assert_eq!(tasks.len(), 2);
    assert_eq!((tasks[0].line_num, tasks[0].formula.as_str()), (1, "a"));
    assert_eq!((tasks[1].line_num, tasks[1].formula.as_str()), (4, "b"));
    assert_eq!(select_tasks(content, 7, None).unwrap_err(), "Invalid line range: 7-5 (file has 5 lines)");
}

fn frame(name: &str, url: &str, line: i64, col: i64) -> CallFrame {
    CallFrame { function_name: name.to_string(), url: url.to_string(), line_number: line, column_number: col }
}

#[test]
fn frames_are_shown_with_one_based_positions() {
    assert_eq!(display_name(&frame("f", "a.js", 0, 4)), "f @ a.js:1:5");
    assert_eq!(display_name(&frame("", "", -1, -1)), "(anonymous) @ (internal):0:0");
}

#[test]
fn each_node_gets_its_first_parent() {
    let node = |id: u64, children: Vec<u64>| CpuNode { id, call_frame: frame("f", "", 0, 0), children, hit_count: 0 };
    let profile = CpuProfile { nodes: vec![node(1, vec![2, 3]), node(2, vec![4]), node(5, vec![4])], samples: vec![], time_deltas: vec![] };
    let parent = build_parent_map(&profile);
    assert_eq!(parent.get(&2), Some(&1));
    assert_eq!(parent.get(&3), Some(&1));
    assert_eq!(parent.get(&4), Some(&2));
    assert_eq!(parent.get(&1), None);
}

#[test]
fn styles_shrink_and_cramp() {
    let d = StyleInterface::from_id(katex::style::D);
    assert_eq!(d.sup().id, katex::style::S);
    assert_eq!(d.sub().id, katex::style::SC);
    assert_eq!(d.fracNum().id, katex::style::T);
    assert_eq!(d.fracDen().id, katex::style::TC);
    assert_eq!(d.cramp().cramped, true);
    assert!(!d.isTight());
    assert!(StyleInterface::from_id(katex::style::SS).isTight());
}

fn classed(classes: &[&str], children: Vec<HtmlNode>) -> HtmlNode {
    katex::dom::make_span(classes.iter().map(|c| c.to_string()).collect(), children)
}

fn first_classes(nodes: &[HtmlNode]) -> Vec<String> {
    nodes.iter().map(|n| n.classes.first().cloned().unwrap_or_default()).collect()
}

#[test]
fn bin_cancellation_turns_leading_operators_ordinary() {
    let mut nodes = vec![
        classed(&["mbin"], vec![]),
        classed(&["mord"], vec![]),
        classed(&["mrel"], vec![]),
        classed(&["mspace"], vec![]),
        classed(&["mbin"], vec![]),
        katex::dom::make_fragment(vec![classed(&["mbin"], vec![])]),
    ];
    let mut prev = Some("leftmost".to_string());
    katex::bin_cancel::traverse_non_space_nodes(&mut nodes, &mut prev, None, true);
    assert_eq!(first_classes(&nodes), vec!["mord", "mord", "mrel", "mspace", "mord", ""]);
    assert_eq!(first_classes(&nodes[5].children), vec!["mbin"]);
    assert_eq!(prev, Some("mbin".to_string()));
}

#[test]
fn bin_cancellation_restarts_after_a_root_newline() {
    let mut nodes = vec![
        classed(&["mord"], vec![]),
        classed(&["mspace", "newline"], vec![]),
        classed(&["mbin"], vec![]),
    ];
    let mut prev = None;
    katex::bin_cancel::traverse_non_space_nodes(&mut nodes, &mut prev, None, true);
    assert_eq!(first_classes(&nodes), vec!["mord", "mspace", "mord"]);
    let mut inner = vec![classed(&["mord"], vec![]), classed(&["mspace", "newline"], vec![]), classed(&["mbin"], vec![])];
    let mut prev = None;
    katex::bin_cancel::traverse_non_space_nodes(&mut inner, &mut prev, None, false);
    assert_eq!(first_classes(&inner), vec!["mord", "mspace", "mbin"]);
}

#[test]
fn a_binary_operator_before_a_right_canceller_is_ordinary() {
    let mut nodes = vec![
        classed(&["mord"], vec![]),
        classed(&["mbin"], vec![]),
        classed(&["mspace"], vec![]),
        katex::dom::make_fragment(vec![classed(&["mrel"], vec![])]),
        classed(&["mord"], vec![]),
        classed(&["mbin"], vec![]),
    ];
    let mut prev = Some("leftmost".to_string());
    katex::bin_cancel::traverse_non_space_nodes(&mut nodes, &mut prev, Some("rightmost".to_string()), true);
    assert_eq!(first_classes(&nodes), vec!["mord", "mord", "mspace", "", "mord", "mord"]);
    let mut kept = vec![classed(&["mord"], vec![]), classed(&["mbin"], vec![]), classed(&["mord"], vec![])];
    let mut prev = Some("leftmost".to_string());
    katex::bin_cancel::traverse_non_space_nodes(&mut kept, &mut prev, Some("rightmost".to_string()), true);
    assert_eq!(first_classes(&kept), vec!["mord", "mbin", "mord"]);
}

#[test]
fn fraction_styles_follow_the_command() {
    let text = StyleInterface::from_id(2);
    let script = StyleInterface::from_id(4);
    let display = StyleInterface::from_id(0);
    assert_eq!(adjust_style(&"display".to_string(), text).id, 0);
    assert_eq!(adjust_style(&"display".to_string(), script).id, 2);
    assert_eq!(adjust_style(&"text".to_string(), display).id, 2);
    assert_eq!(adjust_style(&"text".to_string(), script).id, 4);
    assert_eq!(adjust_style(&"script".to_string(), display).id, 4);
    assert_eq!(adjust_style(&"scriptscript".to_string(), text).id, 6);
    assert_eq!(adjust_style(&"auto".to_string(), script).id, 4);
}

#[test]
fn math_choice_builds_the_display_body() {
    let node = katex::functions::mathchoice::handler_fn(
        &ctx("\\mathchoice"),
        vec![
            ParseNode::TextOrd { mode: Mode::Math, text: "d".to_string() },
            ParseNode::TextOrd { mode: Mode::Math, text: "t".to_string() },
            ParseNode::TextOrd { mode: Mode::Math, text: "s".to_string() },
            ParseNode::TextOrd { mode: Mode::Math, text: "x".to_string() },
        ],
        vec![],
    );
    let options = katex::options::Options::new();
    let body = katex::functions::mathchoice::chooseMathStyle(&node, &options);
    assert_eq!(body.len(), 1);
    assert!(matches!(&body[0], ParseNode::TextOrd { text, .. } if text == "d"));
}

#[test]
fn sizing_group_resets_nested_sizes() {
    let base = katex::options::Options::new();
    let options = base.having_size(8);
    let inner = vec![classed(&["mord"], vec![]), classed(&["sizing", "reset-size8", "size3"], vec![])];
    let group = katex::functions::sizing::sizing_group(inner, &options, &base);
    assert_eq!(group.kind, HtmlKind::Fragment);
    assert_eq!(group.children[0].classes, vec!["mord", "sizing", "reset-size6", "size8"]);
    assert_eq!(group.children[1].classes, vec!["sizing", "reset-size6", "size3"]);
    let same = katex::functions::sizing::sizing_group(vec![classed(&["mord"], vec![])], &base, &base);
    assert_eq!(same.children[0].classes, vec!["mord"]);
}

#[test]
fn mathml_variants_of_fonts() {
    let x = ParseNode::MathOrd { mode: Mode::Math, text: "x".to_string() };
    let imath = ParseNode::MathOrd { mode: Mode::Math, text: "\\imath".to_string() };
    let plain = katex::options::Options::new();
    assert_eq!(get_variant(&x, &plain), VariantChoice::Decided(None));
    let bb = plain.with_font("mathbb".to_string());
    assert_eq!(get_variant(&x, &bb), VariantChoice::Decided(Some(FontVariant::DoubleStruck)));
    let tt = plain.with_text_font_family("texttt".to_string());
    assert_eq!(get_variant(&x, &tt), VariantChoice::Decided(Some(FontVariant::Monospace)));
    let rm = plain.with_font("mathrm".to_string());
    assert_eq!(get_variant(&x, &rm), VariantChoice::ByFontTables);
    assert_eq!(get_variant(&imath, &rm), VariantChoice::Decided(None));
}
