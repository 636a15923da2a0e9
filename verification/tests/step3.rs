use lisp::codemap::Source;
use lisp::env::Stack;
use lisp::eval;
use lisp::interner::Interner;
use lisp::parse;

fn eval_eq(input: &str, output: &str, env: &mut Stack, interner: &mut Interner) {
    let source = Source::new(input);

    let ast = parse::expr(&source, interner).unwrap();

    assert_eq!(output, eval::expr(&ast, &source, env).unwrap().display(interner))
}

#[test]
fn env() {
    let ref mut interner = Interner::new();
    let ref mut env = lisp::env::default(interner);

    eval_eq("(+ 1 2)", "3", env, interner);
    eval_eq("(/ (- (+ 5 (* 2 3)) 3) 4)", "2", env, interner);
}

#[test]
fn def() {
    let ref mut interner = Interner::new();
    let ref mut env = lisp::env::default(interner);

    eval_eq("(def! x 3)", "3", env, interner);
    eval_eq("(def! x 4)", "4", env, interner);
    eval_eq("x", "4", env, interner);
    eval_eq("(def! y (+ 1 7))", "8", env, interner);
    eval_eq("y", "8", env, interner);
}

#[test]
fn let_() {
    let ref mut interner = Interner::new();
    let ref mut env = lisp::env::default(interner);

    eval_eq("(def! x 4)", "4", env, interner);

    eval_eq("(let* (z 9) z)", "9", env, interner);
    eval_eq("(let* (x 9) x)", "9", env, interner);
    eval_eq("x", "4", env, interner);
    eval_eq("(let* (z (+ 2 3)) (+ 1 z))", "6", env, interner);
    eval_eq("(let* (p (+ 2 3) q (+ 2 p)) (+ p q))", "12", env, interner);
}

#[test]
fn outer() {
    let ref mut interner = Interner::new();
    let ref mut env = lisp::env::default(interner);

    eval_eq("(def! a 4)", "4", env, interner);
    eval_eq("(let* (q 9) q)", "9", env, interner);
    eval_eq("(let* (q 9) a)", "4", env, interner);
    eval_eq("(let* (z 2) (let* (q 9) a))", "4", env, interner);
}

#[test]
fn vector() {
    let ref mut interner = Interner::new();
    let ref mut env = lisp::env::default(interner);

    eval_eq("(let* [z 9] z)", "9", env, interner);
    eval_eq("(let* [p (+ 2 3) q (+ 2 p)] (+ p q))", "12", env, interner);
    eval_eq("(let* (a 5 b 6) [3 4 a [b 7] 8])", "[3 4 5 [6 7] 8]", env, interner);
}
