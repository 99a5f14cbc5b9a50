use katex::functions::delimsizing::{big_handler_fn, lr_handler_fn, middle_handler_fn};
use katex::functions::FunctionContext;
use katex::gullet::Gullet;
use katex::macros::Token;
use katex::namespace::Namespace;
use katex::parse_node::{parse_error, AtomFamily, Mode, ParseNode};
use katex::parser::{Parser, SymbolGroup, SymbolTables};
use katex::str_map::StrMap;

fn parser(tokens: &[&str], mode: Mode) -> Parser {
    let stack: Vec<Token> = tokens.iter().rev().map(|t| Token::new(t.to_string())).collect();
    let gullet = Gullet::new(stack, Namespace::new(StrMap::new(), StrMap::new()), StrMap::new());
    let mut math = StrMap::new();
    math.insert("x".to_string(), SymbolGroup::MathOrd);
    math.insert("a".to_string(), SymbolGroup::MathOrd);
    math.insert("+".to_string(), SymbolGroup::Bin);
    math.insert(")".to_string(), SymbolGroup::Close);
    math.insert("\\sum".to_string(), SymbolGroup::Op);
    math.insert("\u{131}".to_string(), SymbolGroup::MathOrd);
    let mut text = StrMap::new();
    text.insert("a".to_string(), SymbolGroup::TextOrd);
    let mut accents = StrMap::new();
    accents.insert("\u{301}".to_string(), ("\\'".to_string(), "\\acute".to_string()));
    accents.insert("\u{308}".to_string(), ("\\\"".to_string(), "\\ddot".to_string()));
    let mut scripts = StrMap::new();
    scripts.insert("\u{2082}".to_string(), "2".to_string());
    Parser {
        mode,
        gullet,
        left_right_depth: 0,
        next_token: None,
        tables: SymbolTables { math, text, accents, scripts },
        throw_on_error: false,
        error_color: "#cc0000".to_string(),
    }
}

#[test]
fn a_symbol_of_the_table_gives_its_node_and_is_consumed() {
    let mut p = parser(&["x", "+"], Mode::Math);
    match p.parse_symbol() {
        Some(ParseNode::MathOrd { mode, text }) => {
            assert_eq!(mode, Mode::Math);
            assert_eq!(text, "x");
        }
        other => panic!("unexpected {:?}", other),
    }
    assert!(p.next_token.is_none());
    match p.parse_symbol() {
        Some(ParseNode::Atom { family, text, .. }) => {
            assert_eq!(family, AtomFamily::Bin);
            assert_eq!(text, "+");
        }
        other => panic!("unexpected {:?}", other),
    }
}

#[test]
fn an_operator_symbol_gives_an_operator_node() {
    let mut p = parser(&["\\sum"], Mode::Math);
    match p.parse_symbol() {
        Some(ParseNode::Op { limits, symbol, name, body, .. }) => {
            assert!(!limits && !symbol && name.is_none() && body.is_none());
        }
        other => panic!("unexpected {:?}", other),
    }
}

#[test]
fn no_symbol_leaves_the_token_to_be_read() {
    let mut p = parser(&["^", "x"], Mode::Math);
    assert!(p.parse_symbol().is_none());
    assert_eq!(p.next_token.as_ref().unwrap().text, "^");
    let mut t = parser(&["x"], Mode::Text);
    assert!(t.parse_symbol().is_none());
}

#[test]
fn verb_gives_its_body_in_text_mode() {
    let mut p = parser(&["\\verb|a b|"], Mode::Math);
    match p.parse_symbol() {
        Some(ParseNode::Verb { mode, body, star }) => {
            assert_eq!(mode, Mode::Text);
            assert_eq!(body, "a b");
            assert!(!star);
        }
        other => panic!("unexpected {:?}", other),
    }
    let mut p = parser(&["\\verb*+x+"], Mode::Math);
    match p.parse_symbol() {
        Some(ParseNode::Verb { body, star, .. }) => {
            assert_eq!(body, "x");
            assert!(star);
        }
        other => panic!("unexpected {:?}", other),
    }
}

#[test]
fn combining_marks_become_accents_first_mark_innermost() {
    let mut p = parser(&["a\u{301}\u{308}"], Mode::Math);
    match p.parse_symbol() {
        Some(ParseNode::Accent { label, is_shifty, is_stretchy, base, .. }) => {
            assert_eq!(label, "\\ddot");
            assert!(is_shifty && !is_stretchy);
            match *base {
                ParseNode::Accent { label, base, .. } => {
                    assert_eq!(label, "\\acute");
                    assert!(matches!(*base, ParseNode::MathOrd { ref text, .. } if text == "a"));
                }
                other => panic!("unexpected {:?}", other),
            }
        }
        other => panic!("unexpected {:?}", other),
    }
    let mut t = parser(&["a\u{301}"], Mode::Text);
    match t.parse_symbol() {
        Some(ParseNode::Accent { label, base, .. }) => {
            assert_eq!(label, "\\'");
            assert!(matches!(*base, ParseNode::TextOrd { .. }));
        }
        other => panic!("unexpected {:?}", other),
    }
}

#[test]
fn an_accented_i_is_dotless() {
    let mut p = parser(&["i\u{301}"], Mode::Math);
    match p.parse_symbol() {
        Some(ParseNode::Accent { base, .. }) => {
            assert!(matches!(*base, ParseNode::MathOrd { ref text, .. } if text == "\u{131}"));
        }
        other => panic!("unexpected {:?}", other),
    }
}

fn ctx(name: &str, depth: usize) -> FunctionContext {
    FunctionContext { func_name: name.to_string(), mode: Mode::Math, left_right_depth: depth }
}

fn sym(t: &str) -> ParseNode {
    ParseNode::TextOrd { mode: Mode::Math, text: t.to_string() }
}

#[test]
fn big_delimiters_get_their_size_and_class() {
    match big_handler_fn(&ctx("\\Biggl", 0), vec![sym("(")], vec![]) {
        ParseNode::Delimsizing { size, mclass, delim, .. } => {
            assert_eq!(size, 4);
            assert_eq!(mclass, "mopen");
            assert_eq!(delim, "(");
        }
        other => panic!("unexpected {:?}", other),
    }
    match big_handler_fn(&ctx("\\bigm", 0), vec![sym("|")], vec![]) {
        ParseNode::Delimsizing { size, mclass, .. } => {
            assert_eq!(size, 1);
            assert_eq!(mclass, "(.*)");
        }
        other => panic!("unexpected {:?}", other),
    }
}

#[test]
fn middle_inside_left_right_gives_its_delimiter() {
    match middle_handler_fn(&ctx("\\middle", 1), vec![sym("|")], vec![]) {
        ParseNode::Middle { delim, .. } => assert_eq!(delim, "|"),
        other => panic!("unexpected {:?}", other),
    }
}

#[test]
fn left_reads_its_body_up_to_right() {
    let mut p = parser(&["x", "+", "a", "\\right", ")", "a"], Mode::Math);
    match lr_handler_fn(&mut p, &ctx("\\left", 0), vec![sym("(")], vec![]) {
        Ok(ParseNode::LeftRight { body, left, right, right_color, .. }) => {
            assert_eq!(body.len(), 3);
            assert_eq!(left, "(");
            assert_eq!(right, ")");
            assert_eq!(right_color, None);
        }
        other => panic!("unexpected {:?}", other),
    }
    assert_eq!(p.left_right_depth, 0);
    assert_eq!(p.fetch().text, "a");
}

#[test]
fn left_without_right_or_delimiter_is_an_error() {
    let mut p = parser(&["x", "}"], Mode::Math);
    let e = lr_handler_fn(&mut p, &ctx("\\left", 0), vec![sym("(")], vec![]).unwrap_err();
    assert_eq!(e.message, "Expected '\\right', got '}'");
    let mut p = parser(&["x", "\\right", "a"], Mode::Math);
    let e = lr_handler_fn(&mut p, &ctx("\\left", 0), vec![sym("(")], vec![]).unwrap_err();
    assert_eq!(e.message, "Invalid delimiter 'a' after '\\right'");
    let mut p = parser(&["x", "\\right", "{", "}"], Mode::Math);
    let e = lr_handler_fn(&mut p, &ctx("\\left", 0), vec![sym("(")], vec![]).unwrap_err();
    assert_eq!(e.message, "Invalid delimiter type 'ordgroup'");
}

#[test]
fn inline_math_in_text_is_read_in_math_mode() {
    let mut p = parser(&["x", "+", "a", "$", "a"], Mode::Text);
    let c = FunctionContext { func_name: "$".to_string(), mode: Mode::Text, left_right_depth: 0 };
    match katex::functions::math::handler_fn(&mut p, &c) {
        Ok(ParseNode::Styling { mode, body, .. }) => {
            assert_eq!(mode, Mode::Text);
            assert_eq!(body.len(), 3);
            assert!(matches!(&body[0], ParseNode::MathOrd { mode: Mode::Math, .. }));
        }
        other => panic!("unexpected {:?}", other),
    }
    assert_eq!(p.mode, Mode::Text);
    assert_eq!(p.fetch().text, "a");
    let mut p = parser(&["x", "\\)"], Mode::Text);
    let c = FunctionContext { func_name: "\\(".to_string(), mode: Mode::Text, left_right_depth: 0 };
    assert!(katex::functions::math::handler_fn(&mut p, &c).is_ok());
    let mut p = parser(&["x"], Mode::Text);
    let e = katex::functions::math::handler_fn(&mut p, &c).unwrap_err();
    assert_eq!(e.message, "Expected '\\)', got 'EOF'");
}

#[test]
fn switches_read_the_rest_of_the_group() {
    let mut p = parser(&["x", "+", "}", "a"], Mode::Math);
    match katex::functions::sizing::handler_fn(&mut p, &ctx("\\Large", 0), None) {
        Ok(ParseNode::Sizing { size, body, .. }) => {
            assert_eq!(size, 8);
            assert_eq!(body.len(), 2);
        }
        other => panic!("unexpected {:?}", other),
    }
    assert_eq!(p.fetch().text, "}");
    let mut p = parser(&["x", "a", "+"], Mode::Math);
    match katex::functions::font::font_handler_fn_3(&mut p, &ctx("\\bf", 0), Some("+")) {
        Ok(ParseNode::Font { font, body, .. }) => {
            assert_eq!(font, "mathbf");
            assert!(matches!(*body, ParseNode::OrdGroup { ref body, .. } if body.len() == 2));
        }
        other => panic!("unexpected {:?}", other),
    }
    assert_eq!(p.fetch().text, "+");
    let mut p = parser(&["x", "\\right"], Mode::Math);
    let color = ParseNode::ColorToken { mode: Mode::Math, color: "red".to_string() };
    match katex::functions::color::handler_fn_2(&mut p, &ctx("\\color", 0), vec![color], None) {
        Ok(ParseNode::Color { color, body, .. }) => {
            assert_eq!(color, "red");
            assert_eq!(body.len(), 1);
        }
        other => panic!("unexpected {:?}", other),
    }
    assert!(p.gullet.macros.has("\\current@color"));
}

#[test]
fn parse_errors_without_a_location_carry_the_prefix() {
    assert_eq!(parse_error("Expected group", "x", 1, 0).message, "KaTeX parse error: Expected group");
}

#[test]
fn parse_errors_show_the_located_text_underlined() {
    assert_eq!(parse_error("Double superscript", "x^^", 2, 3).message, "KaTeX parse error: Double superscript at position 3: x^^\u{332}");
    assert_eq!(parse_error("Unexpected end", "ab", 2, 2).message, "KaTeX parse error: Unexpected end at end of input: ab");
    let long = "abcdefghijklmnopqrstuvwxyz0123456789";
    assert_eq!(
        parse_error("Bad", long, 20, 21).message,
        "KaTeX parse error: Bad at position 21: \u{2026} fghijklmnopqrstu\u{332}vwxyz0123456789"
    );
    assert_eq!(
        parse_error("Bad", long, 2, 3).message,
        "KaTeX parse error: Bad at position 3: abc\u{332}defghijklmnopqr ..."
    );
}

use katex::ord::make_ord;
use katex::options::Options;

fn mathord(t: &str) -> ParseNode {
    ParseNode::MathOrd { mode: Mode::Math, text: t.to_string() }
}

#[test]
fn a_math_ordinary_defaults_to_math_italic() {
    let o = make_ord(&mathord("x"), &Options::new(), "mathord", &vec![], "main");
    assert_eq!(o.font_name, "Math-Italic");
    assert_eq!(o.classes, vec!["mord", "mathnormal"]);
    assert_eq!(o.text, "x");
}

#[test]
fn a_font_command_is_used_where_its_font_has_the_glyph() {
    let bold = Options::new().with_font("mathbf".to_string());
    let o = make_ord(&mathord("x"), &bold, "mathord", &vec!["Main-Bold".to_string()], "main");
    assert_eq!(o.font_name, "Main-Bold");
    assert_eq!(o.classes, vec!["mord", "mathbf"]);
    let o = make_ord(&mathord("x"), &bold, "mathord", &vec![], "main");
    assert_eq!(o.font_name, "Math-Italic");
}

#[test]
fn boldsymbol_prefers_bold_italic_math() {
    let b = Options::new().with_font("boldsymbol".to_string());
    let o = make_ord(&mathord("x"), &b, "mathord", &vec!["Math-BoldItalic".to_string()], "main");
    assert_eq!(o.font_name, "Math-BoldItalic");
    assert_eq!(o.classes, vec!["mord", "boldsymbol"]);
    let t = ParseNode::TextOrd { mode: Mode::Math, text: "1".to_string() };
    let o = make_ord(&t, &b, "textord", &vec!["Math-BoldItalic".to_string(), "Main-Bold".to_string()], "main");
    assert_eq!(o.font_name, "Main-Bold");
    assert_eq!(o.classes, vec!["mord", "mathbf"]);
}

#[test]
fn a_text_ordinary_uses_the_text_font_of_its_symbol() {
    let t = ParseNode::TextOrd { mode: Mode::Math, text: "1".to_string() };
    let o = make_ord(&t, &Options::new(), "textord", &vec![], "main");
    assert_eq!(o.font_name, "Main-Regular");
    let o = make_ord(&t, &Options::new(), "textord", &vec![], "ams");
    assert_eq!(o.font_name, "AMS-Regular");
    assert_eq!(o.classes[1], "amsrm");
}

fn letters(p: &mut Parser) {
    for c in ["y", "b", "1", "2", "(", ")"] {
        let g = if c == "(" || c == ")" { SymbolGroup::Open } else { SymbolGroup::MathOrd };
        p.tables.math.insert(c.to_string(), g);
    }
}

fn text_of(n: &ParseNode) -> String {
    match n {
        ParseNode::MathOrd { text, .. } | ParseNode::TextOrd { text, .. } => text.clone(),
        other => panic!("unexpected {:?}", other),
    }
}

#[test]
fn an_expression_reads_atoms_up_to_its_end() {
    let mut p = parser(&["x", " ", "+", "y", "}", "z"], Mode::Math);
    letters(&mut p);
    let body = p.parse_expression(None).unwrap();
    assert_eq!(body.len(), 3);
    assert_eq!(text_of(&body[0]), "x");
    assert!(matches!(&body[1], ParseNode::Atom { family: AtomFamily::Bin, .. }));
    assert_eq!(p.next_token.as_ref().unwrap().text, "}");
}

#[test]
fn superscripts_and_subscripts_make_a_supsub() {
    let mut p = parser(&["x", "_", "1", "^", "{", "2", "y", "}"], Mode::Math);
    letters(&mut p);
    match p.parse_atom(None).unwrap() {
        Some(ParseNode::SupSub { base, sup, sub, .. }) => {
            assert_eq!(text_of(&base.unwrap()), "x");
            assert_eq!(text_of(&sub.unwrap()), "1");
            match *sup.unwrap() {
                ParseNode::OrdGroup { body, semisimple, .. } => {
                    assert_eq!(body.len(), 2);
                    assert!(!semisimple);
                }
                other => panic!("unexpected {:?}", other),
            }
        }
        other => panic!("unexpected {:?}", other),
    }
}

#[test]
fn primes_become_a_superscript() {
    let mut p = parser(&["x", "'", "'", "^", "2"], Mode::Math);
    letters(&mut p);
    match p.parse_atom(None).unwrap() {
        Some(ParseNode::SupSub { sup, sub, .. }) => {
            assert!(sub.is_none());
            match *sup.unwrap() {
                ParseNode::OrdGroup { body, .. } => {
                    assert_eq!(body.len(), 3);
                    assert_eq!(text_of(&body[0]), "\\prime");
                    assert_eq!(text_of(&body[1]), "\\prime");
                    assert_eq!(text_of(&body[2]), "2");
                }
                other => panic!("unexpected {:?}", other),
            }
        }
        other => panic!("unexpected {:?}", other),
    }
}

#[test]
fn script_errors() {
    let mut p = parser(&["x", "^", "1", "^", "2"], Mode::Math);
    letters(&mut p);
    assert_eq!(p.parse_atom(None).unwrap_err().message, "Double superscript");
    let mut p = parser(&["x", "_", "1", "_", "2"], Mode::Math);
    letters(&mut p);
    assert_eq!(p.parse_atom(None).unwrap_err().message, "Double subscript");
    let mut p = parser(&["x", "^", "}"], Mode::Math);
    letters(&mut p);
    assert_eq!(p.parse_atom(None).unwrap_err().message, "Expected group after '^'");
    let mut p = parser(&["x", "\\limits"], Mode::Math);
    letters(&mut p);
    assert_eq!(p.parse_atom(None).unwrap_err().message, "Limit controls must follow a math operator");
}

#[test]
fn groups_and_unknown_commands() {
    let mut p = parser(&["\\begingroup", "x", "\\endgroup"], Mode::Math);
    match p.parse_group(None).unwrap() {
        Some(ParseNode::OrdGroup { semisimple, body, .. }) => {
            assert!(semisimple);
            assert_eq!(body.len(), 1);
        }
        other => panic!("unexpected {:?}", other),
    }
    let mut p = parser(&["{", "x"], Mode::Math);
    assert_eq!(p.parse_group(None).unwrap_err().message, "Expected '}', got 'EOF'");
    let mut p = parser(&["\\foo"], Mode::Math);
    match p.parse_group(None).unwrap() {
        Some(ParseNode::Color { color, .. }) => assert_eq!(color, "#cc0000"),
        other => panic!("unexpected {:?}", other),
    }
    let mut p = parser(&["\\foo"], Mode::Math);
    p.throw_on_error = true;
    assert_eq!(p.parse_group(None).unwrap_err().message, "Undefined control sequence: \\foo");
    let mut p = parser(&["^"], Mode::Math);
    assert!(p.parse_group(None).unwrap().is_none());
}

#[test]
fn text_mode_atoms_take_no_scripts() {
    let mut p = parser(&["a", "^", "x"], Mode::Text);
    assert!(matches!(p.parse_atom(None).unwrap(), Some(ParseNode::TextOrd { .. })));
    assert!(p.parse_atom(None).unwrap().is_none());
    assert_eq!(p.next_token.as_ref().unwrap().text, "^");
}
