use lisp::codemap::Source;
use lisp::env::Stack;
use lisp::eval;
use lisp::interner::Interner;
use lisp::parse;

fn eval_eq(input: &str, output: &str, env: &mut Stack, interner: &mut Interner) {
    let source = Source::new(input);

    let ast = parse::expr(&source, interner).unwrap();

    assert_eq!(output, eval::expr(&ast, &source, env).unwrap().display(interner))
}

fn eval_err(input: &str, error: eval::Error_, env: &mut Stack, interner: &mut Interner) {
    let source = Source::new(input);

    let ast = parse::expr(&source, interner).unwrap();

    assert_eq!(error, eval::expr(&ast, &source, env).unwrap_err().node)
}

#[test]
fn eq() {
    let ref mut interner = Interner::new();
    let ref mut env = lisp::env::default(interner);

    eval_eq("(+ 1 2)", "3", env, interner);
    eval_eq("(+ 5 (* 2 3))", "11", env, interner);
    eval_eq("(- (+ 5 (* 2 3)) 3)", "8", env, interner);
    eval_eq("(/ (- (+ 5 (* 2 3)) 3) 4)", "2", env, interner);
    eval_eq("(/ (- (+ 515 (* 222 311)) 302) 27)", "2565", env, interner);
}

#[test]
fn err() {
    let ref mut interner = Interner::new();
    let ref mut env = lisp::env::default(interner);

    eval_err("(abc 1 2 3)", eval::Error_::UndefinedSymbol, env, interner);
}
