use lisp::codemap::Source;
use lisp::env::Stack;
use lisp::eval;
use lisp::interner::Interner;
use lisp::parse;
use lisp::pp;
use lisp::syntax;

fn run(input: &str, env: &mut Stack, interner: &mut Interner) -> Result<eval::Value, eval::Error> {
    let source = Source::new(input);
    let expr = parse::expr(&source, interner).unwrap();
    eval::expr(&expr, &source, env)
}

fn run_display(input: &str, env: &mut Stack, interner: &mut Interner) -> String {
    let r = run(input, env, interner).unwrap();
    r.display(interner)
}

fn parse_err(input: &str) -> syntax::Error {
    let source = Source::new(input);
    let mut interner = Interner::new();
    parse::expr(&source, &mut interner).unwrap_err()
}

#[test]
fn intern_idempotent() {
    let mut interner = Interner::new();
    let a1 = interner.intern("alpha");
    let b1 = interner.intern("beta");
    let a2 = interner.intern("alpha");
    let b2 = interner.intern("beta");
    assert_eq!(a1, a2);
    assert_eq!(b1, b2);
    assert_ne!(a1, b1);
    assert_eq!(interner.get(a1).as_str(), "alpha");
    assert_eq!(interner.get(b1).as_str(), "beta");
}

#[test]
fn let_binding_does_not_leak() {
    let ref mut interner = Interner::new();
    let ref mut env = lisp::env::default(interner);

    assert_eq!(run_display("(let* (x 9) x)", env, interner), "9");
    let err = run("x", env, interner).unwrap_err();
    assert_eq!(err.node, eval::Error_::UndefinedSymbol);
}

#[test]
fn sequential_let_bindings() {
    let ref mut interner = Interner::new();
    let ref mut env = lisp::env::default(interner);

    assert_eq!(run_display("(let* (p (+ 2 3) q (+ 2 p)) (+ p q))", env, interner), "12");
}

#[test]
fn empty_input_is_nil() {
    let ref mut interner = Interner::new();
    let ref mut env = lisp::env::default(interner);

    assert_eq!(run_display("", env, interner), "nil");
    assert_eq!(run_display("   ", env, interner), "nil");
}

#[test]
fn if_branches() {
    let ref mut interner = Interner::new();
    let ref mut env = lisp::env::default(interner);

    assert_eq!(run_display("(if true 1 2)", env, interner), "1");
    assert_eq!(run_display("(if false 1 2)", env, interner), "2");
    assert_eq!(run_display("(if nil 1 2)", env, interner), "2");
    assert_eq!(run_display("(if 0 1 2)", env, interner), "1");
    assert_eq!(run_display("(if (< 1 2) 1 2)", env, interner), "1");
    // the untaken branch is never evaluated
    assert_eq!(run_display("(if true 1 (undefined-thing))", env, interner), "1");
}

#[test]
fn comparisons() {
    let ref mut interner = Interner::new();
    let ref mut env = lisp::env::default(interner);

    assert_eq!(run_display("(< 1 2)", env, interner), "true");
    assert_eq!(run_display("(<= 2 2)", env, interner), "true");
    assert_eq!(run_display("(> 1 2)", env, interner), "false");
    assert_eq!(run_display("(>= 3 2)", env, interner), "true");
}

#[test]
fn strings_evaluate_to_their_text() {
    let ref mut interner = Interner::new();
    let ref mut env = lisp::env::default(interner);

    assert_eq!(run_display("\"abc\"", env, interner), "\"abc\"");
}

#[test]
fn function_value_display() {
    let ref mut interner = Interner::new();
    let ref mut env = lisp::env::default(interner);

    assert_eq!(run_display("+", env, interner), "<function>");
}

#[test]
fn keyword_value_display() {
    let mut interner = Interner::new();
    let sym = interner.intern("tag");
    let value = eval::Value::Keyword(sym);
    assert_eq!(value.display(&interner), "tag");
}

#[test]
fn eval_error_kinds() {
    let ref mut interner = Interner::new();
    let ref mut env = lisp::env::default(interner);

    assert_eq!(run("()", env, interner).unwrap_err().node, eval::Error_::EmptyList);
    assert_eq!(run("(1 2 3)", env, interner).unwrap_err().node, eval::Error_::ExpectedSymbol);
    assert_eq!(run("(zz 1)", env, interner).unwrap_err().node, eval::Error_::UndefinedSymbol);
    assert_eq!(run_display("(def! a 2)", env, interner), "2");
    assert_eq!(run("(a 1)", env, interner).unwrap_err().node, eval::Error_::ExpectedFunction);
    assert_eq!(run("(+ 1)", env, interner).unwrap_err().node, eval::Error_::UnsupportedOperation);
    assert_eq!(
        run("(+ 1 nil)", env, interner).unwrap_err().node,
        eval::Error_::UnsupportedOperation
    );
    assert_eq!(run("(/ 1 0)", env, interner).unwrap_err().node, eval::Error_::UnsupportedOperation);
    assert_eq!(
        run("(/ (- (- 0 9223372036854775807) 1) (- 0 1))", env, interner).unwrap_err().node,
        eval::Error_::UnsupportedOperation
    );
    assert_eq!(
        run("(if true 1)", env, interner).unwrap_err().node,
        eval::Error_::UnsupportedOperation
    );
    assert_eq!(
        run("(def! b)", env, interner).unwrap_err().node,
        eval::Error_::UnsupportedOperation
    );
    assert_eq!(run("(def! 1 2)", env, interner).unwrap_err().node, eval::Error_::ExpectedSymbol);
    assert_eq!(
        run("(let* (a 1 b) a)", env, interner).unwrap_err().node,
        eval::Error_::UnsupportedOperation
    );
    assert_eq!(
        run("(let* (1 2) 3)", env, interner).unwrap_err().node,
        eval::Error_::ExpectedSymbol
    );
    assert_eq!(
        run("(let* 5 3)", env, interner).unwrap_err().node,
        eval::Error_::UnsupportedOperation
    );
}

#[test]
fn division_truncates() {
    let ref mut interner = Interner::new();
    let ref mut env = lisp::env::default(interner);

    assert_eq!(run_display("(/ 7 2)", env, interner), "3");
    assert_eq!(run_display("(/ (- 0 7) 2)", env, interner), "-3");
}

#[test]
fn undefined_symbol_span_covers_name() {
    let mut interner = Interner::new();
    let mut env = lisp::env::default(&mut interner);
    let source = Source::new("(abc 1 2 3)");
    let expr = parse::expr(&source, &mut interner).unwrap();
    let err = eval::expr(&expr, &source, &mut env).unwrap_err();
    assert_eq!(err.node, eval::Error_::UndefinedSymbol);
    assert_eq!((err.span.lo, err.span.hi), (1, 4));
    assert_eq!(source.slice(err.span), "abc");
}

#[test]
fn syntax_error_kinds() {
    assert_eq!(parse_err("(1 2").node, syntax::Error_::UnclosedDelimiter);
    assert_eq!(parse_err("[1 2").node, syntax::Error_::UnclosedDelimiter);
    assert_eq!(parse_err("\"abc").node, syntax::Error_::UnterminatedString);
    assert_eq!(parse_err("\"").node, syntax::Error_::UnterminatedString);
    assert_eq!(parse_err("(+ 1 2]").node, syntax::Error_::IncorrectCloseDelimiter);
    assert_eq!(parse_err(")").node, syntax::Error_::IncorrectCloseDelimiter);
    assert_eq!(parse_err("{1 2}").node, syntax::Error_::IncorrectCloseDelimiter);
    assert_eq!(parse_err("9223372036854775808").node, syntax::Error_::IntegerTooLarge);
    assert_eq!(parse_err(";").node, syntax::Error_::UnknownStartOfToken);
    assert_eq!(parse_err("'quoted").node, syntax::Error_::UnknownStartOfToken);
    assert_eq!(parse_err("(+ 1 2) 3").node, syntax::Error_::ExpectedEndOfLine);
}

#[test]
fn largest_integer_literal() {
    let ref mut interner = Interner::new();
    let ref mut env = lisp::env::default(interner);

    assert_eq!(run_display("9223372036854775807", env, interner), "9223372036854775807");
}

#[test]
fn addition_wraps_on_overflow() {
    let ref mut interner = Interner::new();
    let ref mut env = lisp::env::default(interner);

    assert_eq!(
        run_display("(+ 9223372036854775807 1)", env, interner),
        "-9223372036854775808"
    );
}

#[test]
fn operator_name_outside_head_is_a_symbol() {
    let mut interner = Interner::new();
    let source = Source::new("(+ def! 1)");
    // parses: `def!` in non-head position is an ordinary symbol
    let expr = parse::expr(&source, &mut interner).unwrap();
    assert_eq!(pp::expr(&expr, &source), "(+ def! 1)");
    let mut env = lisp::env::default(&mut interner);
    let err = eval::expr(&expr, &source, &mut env).unwrap_err();
    assert_eq!(err.node, eval::Error_::UndefinedSymbol);
}

#[test]
fn pretty_print_canonicalizes() {
    let mut interner = Interner::new();
    let source = Source::new("  ( let*   (x 1)  [x,, \"s\"] ) ");
    let expr = parse::expr(&source, &mut interner).unwrap();
    assert_eq!(pp::expr(&expr, &source), "(let* (x 1) [x \"s\"])");
}
