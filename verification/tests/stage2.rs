use lisp::codemap::Source;
use lisp::eval;
use lisp::interner::Interner;
use lisp::parse;

#[test]
fn eval() {
    let mut interner = Interner::new();
    let mut stack = lisp::env::default(&mut interner);

    let mut run = |input: &str| -> String {
        let source = Source::new(input);
        let expr = parse::expr(&source, &mut interner).unwrap();
        match eval::expr(&expr, &source, &mut stack) {
            Err(e) => format!("{:?}({:?})", e.node, source.slice(e.span)),
            Ok(val) => val.display(&interner),
        }
    };

    assert_eq!(run("(+ 1 2)"), "3");
    assert_eq!(run("(+ 5 (* 2 3))"), "11");
    assert_eq!(run("(- (+ 5 (* 2 3)) 3)"), "8");
    assert_eq!(run("(/ (- (+ 5 (* 2 3)) 3) 4)"), "2");
    assert_eq!(run("(/ (- (+ 515 (* 222 311)) 302) 27)"), "2565");
    assert_eq!(run("(abc 1 2 3)"), "UndefinedSymbol(\"abc\")");
}
