use katex::minimize::{reassemble, tokenize_latex};

#[test]
fn tokenize_simple_expression() {
    let tokens = tokenize_latex(r"x^2");
    assert_eq!(tokens, vec!["x", "^", "2"]);
}

#[test]
fn tokenize_command() {
    let tokens = tokenize_latex(r"\frac{a}{b}");
    assert_eq!(tokens, vec!["\\frac", "{", "a", "}", "{", "b", "}"]);
}

#[test]
fn tokenize_preserves_braces() {
    let tokens = tokenize_latex(r"{x}");
    assert_eq!(tokens, vec!["{", "x", "}"]);
}

#[test]
fn reassemble_with_no_skips() {
    let tokens = vec!["x".to_string(), "^".to_string(), "2".to_string()];
    let skip = vec![false, false, false];
    assert_eq!(reassemble(&tokens, &skip), "x^2");
}

#[test]
fn reassemble_with_skips() {
    let tokens = vec!["x".to_string(), "^".to_string(), "2".to_string()];
    let skip = vec![false, true, true];
    assert_eq!(reassemble(&tokens, &skip), "x");
}

#[test]
fn tokenizer_handles_latex_commands() {
    let tokens = tokenize_latex(r"\frac{a}{b}");
    assert!(tokens.len() >= 3);
    assert_eq!(tokens[0], r"\frac");
}

#[test]
fn tokenize_keeps_whitespace_runs_and_reassembles_to_input() {
    let input = "a  \\alpha+{b}";
    let tokens = tokenize_latex(input);
    assert_eq!(tokens, vec!["a", "  ", "\\alpha", "+", "{", "b", "}"]);
    let skip = vec![false; tokens.len()];
    assert_eq!(reassemble(&tokens, &skip), input);
}

#[test]
fn reassemble_all_skipped_is_empty() {
    let tokens = vec!["x".to_string(), "y".to_string()];
    assert_eq!(reassemble(&tokens, &[true, true]), "");
}

#[test]
fn tokens_are_never_empty() {
    let tokens = tokenize_latex("a  \\,\\alpha2\\");
    assert_eq!(tokens, vec!["a", "  ", "\\,", "\\alpha", "2", "\\"]);
    assert!(tokens.iter().all(|t| !t.is_empty()));
}

#[test]
fn joining_any_tokens_without_skips_concatenates_them() {
    let tokens = vec!["x".to_string(), "^".to_string(), "2".to_string()];
    assert_eq!(reassemble(&tokens, &[false, false, false]), "x^2");
}
