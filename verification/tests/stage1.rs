use lisp::codemap::Source;
use lisp::interner::Interner;
use lisp::parse;
use lisp::pp;

fn roundtrip(input: &str) -> String {
    let source = Source::new(input);
    let mut interner = Interner::new();
    let expr = parse::expr(&source, &mut interner).unwrap();
    pp::expr(&expr, &source)
}

fn parse_fails(input: &str) -> bool {
    let source = Source::new(input);
    let mut interner = Interner::new();
    parse::expr(&source, &mut interner).is_err()
}

#[test]
fn stage1_nil_true_false() {
    assert_eq!(roundtrip("nil"), "nil");
    assert_eq!(roundtrip("true"), "true");
    assert_eq!(roundtrip("false"), "false");
}

#[test]
fn stage1_numbers() {
    assert_eq!(roundtrip("1"), "1");
    assert_eq!(roundtrip("7"), "7");
    assert_eq!(roundtrip("  7   "), "7");
}

#[test]
fn stage1_symbols() {
    assert_eq!(roundtrip("+"), "+");
    assert_eq!(roundtrip("abc"), "abc");
    assert_eq!(roundtrip("   abc   "), "abc");
    assert_eq!(roundtrip("abc5"), "abc5");
    assert_eq!(roundtrip("abc-def"), "abc-def");
}

#[test]
fn stage1_string() {
    assert_eq!(roundtrip("\"abc\""), "\"abc\"");
    assert_eq!(roundtrip("   \"abc\"   "), "\"abc\"");
    assert_eq!(roundtrip("\"abc (with parens)\""), "\"abc (with parens)\"");
    assert_eq!(roundtrip(r#""abc\ndef""#), "\"abc\\ndef\"");
}

#[test]
fn stage1_lists() {
    assert_eq!(roundtrip("(+ 1 2)"), "(+ 1 2)");
    assert_eq!(roundtrip("((3 4))"), "((3 4))");
    assert_eq!(roundtrip("(+ 1 (+ 2 3))"), "(+ 1 (+ 2 3))");
    assert_eq!(roundtrip("  ( +   1   (+   2 3   )   )  "), "(+ 1 (+ 2 3))");
    assert_eq!(roundtrip("(* 1 2)"), "(* 1 2)");
    assert_eq!(roundtrip("(** 1 2)"), "(** 1 2)");
}

#[test]
fn stage1_commas() {
    assert_eq!(roundtrip("(1 2, 3,,,,),,"), "(1 2 3)");
}

#[test]
fn stage1_errors() {
    assert!(parse_fails("(1 2"));
    assert!(parse_fails("\"abc"));
}
