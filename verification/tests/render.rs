use lisp::codemap::Source;
use lisp::diagnostics;
use lisp::eval;
use lisp::interner::Interner;
use lisp::parse;

#[test]
fn renders_eval_error_with_caret_and_tildes() {
    let mut interner = Interner::new();
    let mut env = lisp::env::default(&mut interner);
    let source = Source::new("(abc 1 2 3)");
    let expr = parse::expr(&source, &mut interner).unwrap();
    let err = eval::expr(&expr, &source, &mut env).unwrap_err();
    let text = diagnostics::eval(err, &source);
    assert_eq!(text, "error: undefined symbol\n(abc 1 2 3)\n ^~~\n");
}

#[test]
fn renders_syntax_error_at_end_of_input() {
    let mut interner = Interner::new();
    let source = Source::new("(1 2");
    let err = parse::expr(&source, &mut interner).unwrap_err();
    let text = diagnostics::syntax(err, &source);
    assert_eq!(text, "error: un-closed delimiter\n(1 2\n    ^\n");
}

#[test]
fn renders_unterminated_string() {
    let mut interner = Interner::new();
    let source = Source::new("\"abc");
    let err = parse::expr(&source, &mut interner).unwrap_err();
    let text = diagnostics::syntax(err, &source);
    assert_eq!(text, "error: unterminated string literal\n\"abc\n^~~~\n");
}

#[test]
fn caret_column_counts_display_width() {
    // a wide (CJK) character occupies two columns, so the caret under the
    // trailing `;` sits after two spaces, not one
    let mut interner = Interner::new();
    let source = Source::new("\u{65e5};");
    let err = parse::expr(&source, &mut interner).unwrap_err();
    let text = diagnostics::syntax(err, &source);
    assert_eq!(text, "error: expected end of line\n\u{65e5};\n  ^\n");
}

#[test]
fn renders_expected_end_of_line() {
    let mut interner = Interner::new();
    let source = Source::new("(+ 1 2) 3");
    let err = parse::expr(&source, &mut interner).unwrap_err();
    let text = diagnostics::syntax(err, &source);
    assert_eq!(text, "error: expected end of line\n(+ 1 2) 3\n        ^\n");
}
