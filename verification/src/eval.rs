//! Evaluation.
//!
//! A tree-walking interpreter over the syntax tree: leaves evaluate to
//! themselves, symbols are looked up in the scope stack, lists dispatch on
//! their head (special operators `def!`, `if` and `let*`, or a built-in
//! function applied to evaluated arguments), and vectors evaluate their
//! elements in order.  [`spec_eval`] is the mathematical model: the result
//! and the stack a single evaluation leaves behind.

use vstd::prelude::*;

use crate::ast::{Expr, Expr_, Operator, SpecExpr, SpecExpr_};
use crate::codemap::{Source, Span, Spanned};
use crate::env::{stack_lookup, stack_set_top, Env, Stack};
use crate::interner::Symbol;

verus! {

broadcast use {vstd::std_specs::vec::axiom_vec_index_decreases, vstd::seq::axiom_seq_index_decreases, vstd::seq::axiom_seq_subrange_decreases};

/// Spanned evaluation error.
pub type Error = Spanned<Error_>;

/// Evaluation error.
#[derive(Clone, Copy, Debug, PartialEq, Eq, Structural)]
pub enum Error_ {
    /// `()`
    EmptyList,
    /// `(a 1 2)` where `a = 2`
    ExpectedFunction,
    /// `(1 2 3)`
    ExpectedSymbol,
    /// `(foo 1 2)`
    UndefinedSymbol,
    /// `(+ 1)`
    UnsupportedOperation,
}

/// A built-in function: an index into the closed set of native
/// operations.
#[derive(Clone, Copy, Debug, PartialEq, Eq, Structural)]
pub enum Builtin {
    /// `+`
    Add,
    /// `/`
    Div,
    /// `>=`
    Ge,
    /// `>`
    Gt,
    /// `<=`
    Le,
    /// `<`
    Lt,
    /// `*`
    Mul,
    /// `-`
    Sub,
}

/// A value.
#[derive(Debug)]
pub enum Value {
    /// `true` or `false`
    Bool(bool),
    /// `+`
    Function(Builtin),
    /// `123`
    Integer(i64),
    /// `:a`
    Keyword(Symbol),
    /// `nil`
    Nil,
    /// `"Hello, world!"`
    String(String),
    /// `[1 "two" [3]]`
    Vector(Vec<Value>),
}

/// The mathematical model of a value.
pub enum SpecValue {
    /// `true` or `false`
    Bool(bool),
    /// `+`
    Function(Builtin),
    /// `123`
    Integer(i64),
    /// `:a`
    Keyword(int),
    /// `nil`
    Nil,
    /// `"Hello, world!"`
    String(Seq<char>),
    /// `[1 "two" [3]]`
    Vector(Seq<SpecValue>),
}

/// The models of the first `n` elements of `vs`, in order.
pub open spec fn values_view(vs: Vec<Value>, n: int) -> Seq<SpecValue>
    decreases vs, n,
{
    if n <= 0 || n > vs.len() {
        Seq::empty()
    } else {
        values_view(vs, n - 1).push(vs[n - 1]@)
    }
}

/// `values_view` is the element-wise model of the vector.
pub proof fn lemma_values_view(vs: Vec<Value>, n: int)
    requires
        0 <= n <= vs.len(),
    ensures
        values_view(vs, n).len() == n,
        forall|i: int| 0 <= i < n ==> values_view(vs, n)[i] == vs[i]@,
    decreases n,
{
    if n > 0 {
        lemma_values_view(vs, n - 1);
        assert(values_view(vs, n) == values_view(vs, n - 1).push(vs[n - 1]@));
    } else {
        assert(values_view(vs, n).len() == 0);
    }
}

impl View for Value {
    type V = SpecValue;

    open spec fn view(&self) -> SpecValue
        decreases self,
    {
        match self {
            Value::Bool(b) => SpecValue::Bool(*b),
            Value::Function(f) => SpecValue::Function(*f),
            Value::Integer(i) => SpecValue::Integer(*i),
            Value::Keyword(sym) => SpecValue::Keyword(sym.0 as int),
            Value::Nil => SpecValue::Nil,
            Value::String(s) => SpecValue::String(s@),
            Value::Vector(vs) => SpecValue::Vector(values_view(*vs, vs.len() as int)),
        }
    }
}

/// Deep copy of a value; the copy models the same value.
pub fn clone_value(v: &Value) -> (r: Value)
    ensures
        r@ == v@,
    decreases v,
{
    match v {
        Value::Bool(b) => Value::Bool(*b),
        Value::Function(f) => Value::Function(*f),
        Value::Integer(i) => Value::Integer(*i),
        Value::Keyword(sym) => Value::Keyword(*sym),
        Value::Nil => Value::Nil,
        Value::String(s) => Value::String(s.clone()),
        Value::Vector(vs) => Value::Vector(clone_values(vs, 0)),
    }
}

/// Deep copies of the elements of `vs` from index `i` on.
fn clone_values(vs: &Vec<Value>, i: usize) -> (r: Vec<Value>)
    requires
        i <= vs@.len(),
    ensures
        r@.len() == vs@.len() - i,
        forall|j: int| 0 <= j < r@.len() ==> r@[j]@ == vs@[i + j]@,
        i == 0 ==> values_view(r, r@.len() as int) == values_view(*vs, vs@.len() as int),
    decreases vs, vs@.len() - i,
{
    let mut out: Vec<Value> = if i < vs.len() {
        let c = clone_value(&vs[i]);
        let mut rest = clone_values(vs, i + 1);
        rest.insert(0, c);
        rest
    } else {
        Vec::new()
    };
    proof {
        lemma_values_view(out, out@.len() as int);
        lemma_values_view(*vs, vs@.len() as int);
        if i == 0 {
            assert(values_view(out, out@.len() as int) =~= values_view(*vs, vs@.len() as int));
        }
    }
    out
}

/// The model of a scope stack: one map per frame, bottom first.
pub type StackM = Seq<Map<int, SpecValue>>;

/// The evaluation of one expression against a stack: the value or spanned
/// error, and the stack the evaluation leaves behind (a `def!` anywhere
/// inside may have changed the top frame; errors keep the changes made
/// before them).
///
/// - `true`, `false`, integers and `nil` evaluate to themselves, and a
///   string to the text of its span;
/// - a symbol evaluates to the first value bound to it, walking the stack
///   from the innermost frame out, or `UndefinedSymbol`;
/// - an empty list is `EmptyList`; a list headed by `def!` evaluates its
///   second argument and binds it in the top frame; one headed by `if`
///   takes its `then` branch unless the condition is `false` or `nil`;
///   one headed by `let*` evaluates its bindings sequentially in a fresh
///   frame, then its body, and discards the frame; one headed by a symbol
///   bound to a function evaluates the remaining elements left to right
///   and applies the function; anything else in head position is an
///   error;
/// - a vector evaluates its elements left to right.
pub open spec fn spec_eval(e: SpecExpr, src: Seq<char>, st: StackM) -> (
    Result<SpecValue, Error>,
    StackM,
)
    decreases e, 0int,
{
    match e.node {
        SpecExpr_::Bool(b) => (Ok(SpecValue::Bool(b)), st),
        SpecExpr_::Integer(v) => (Ok(SpecValue::Integer(v as i64)), st),
        SpecExpr_::Nil => (Ok(SpecValue::Nil), st),
        SpecExpr_::Operator(_) => {
            // never reached: the grammar produces operators only in the
            // head position of a list, which is dispatched on, not
            // evaluated
            (Err(Spanned { span: e.span, node: Error_::ExpectedSymbol }), st)
        },
        SpecExpr_::String => (
            Ok(SpecValue::String(src.subrange(e.span.lo as int, e.span.hi as int))),
            st,
        ),
        SpecExpr_::Symbol(sym) => match stack_lookup(st, sym) {
            Some(v) => (Ok(v), st),
            None => (Err(Spanned { span: e.span, node: Error_::UndefinedSymbol }), st),
        },
        SpecExpr_::Vector(es) => match spec_eval_args(es, 0, src, st) {
            (Ok(vals), st1) => (Ok(SpecValue::Vector(vals)), st1),
            (Err(err), st1) => (Err(err), st1),
        },
        SpecExpr_::List(es) => {
            if es.len() == 0 {
                (Err(Spanned { span: e.span, node: Error_::EmptyList }), st)
            } else {
                let head = es[0];
                match head.node {
                    SpecExpr_::Operator(Operator::Def) => {
                        if es.len() != 3 {
                            (Err(Spanned { span: e.span, node: Error_::UnsupportedOperation }), st)
                        } else if !(es[1].node is Symbol) {
                            (Err(Spanned { span: es[1].span, node: Error_::ExpectedSymbol }), st)
                        } else {
                            let sym = es[1].node->Symbol_0;
                            match spec_eval(es[2], src, st) {
                                (Ok(v), st1) => (Ok(v), stack_set_top(st1, sym, v)),
                                (Err(err), st1) => (Err(err), st1),
                            }
                        }
                    },
                    SpecExpr_::Operator(Operator::If) => {
                        if es.len() != 4 {
                            (Err(Spanned { span: e.span, node: Error_::UnsupportedOperation }), st)
                        } else {
                            match spec_eval(es[1], src, st) {
                                (Ok(c), st1) => {
                                    if c == SpecValue::Bool(false) || c is Nil {
                                        spec_eval(es[3], src, st1)
                                    } else {
                                        spec_eval(es[2], src, st1)
                                    }
                                },
                                (Err(err), st1) => (Err(err), st1),
                            }
                        }
                    },
                    SpecExpr_::Operator(Operator::Let) => {
                        if es.len() != 3 {
                            (Err(Spanned { span: e.span, node: Error_::UnsupportedOperation }), st)
                        } else {
                            let bs = if es[1].node is List {
                                Some(es[1].node->List_0)
                            } else if es[1].node is Vector {
                                Some(es[1].node->Vector_0)
                            } else {
                                None
                            };
                            match bs {
                                None => (
                                    Err(Spanned { span: e.span, node: Error_::UnsupportedOperation }),
                                    st,
                                ),
                                Some(bs) => {
                                    let st1 = st.push(Map::empty());
                                    match spec_eval_binds(bs, 0, src, st1, e.span) {
                                        (Some(err), st2) => (Err(err), st2.drop_last()),
                                        (None, st2) => {
                                            let (r, st3) = spec_eval(es[2], src, st2);
                                            (r, st3.drop_last())
                                        },
                                    }
                                },
                            }
                        }
                    },
                    SpecExpr_::Symbol(sym) => match stack_lookup(st, sym) {
                        None => (
                            Err(Spanned { span: head.span, node: Error_::UndefinedSymbol }),
                            st,
                        ),
                        Some(SpecValue::Function(f)) => match spec_eval_args(es, 1, src, st) {
                            (Ok(vals), st1) => match spec_apply(f, vals) {
                                Some(v) => (Ok(v), st1),
                                None => (
                                    Err(
                                        Spanned {
                                            span: e.span,
                                            node: Error_::UnsupportedOperation,
                                        },
                                    ),
                                    st1,
                                ),
                            },
                            (Err(err), st1) => (Err(err), st1),
                        },
                        Some(_) => (
                            Err(Spanned { span: head.span, node: Error_::ExpectedFunction }),
                            st,
                        ),
                    },
                    _ => (Err(Spanned { span: head.span, node: Error_::ExpectedSymbol }), st),
                }
            }
        },
    }
}

/// The left-to-right evaluation of the elements of `es` from index `i`
/// on: the argument values, or the first error.
pub open spec fn spec_eval_args(es: Seq<SpecExpr>, i: int, src: Seq<char>, st: StackM) -> (
    Result<Seq<SpecValue>, Error>,
    StackM,
)
    decreases es, es.len() - i, 0int,
{
    if i < 0 || i >= es.len() {
        (Ok(Seq::empty()), st)
    } else {
        match spec_eval(es[i], src, st) {
            (Ok(v), st1) => match spec_eval_args(es, i + 1, src, st1) {
                (Ok(rest), st2) => (Ok(seq![v] + rest), st2),
                (Err(err), st2) => (Err(err), st2),
            },
            (Err(err), st1) => (Err(err), st1),
        }
    }
}

/// The sequential evaluation of `let*` binding pairs from index `i` on:
/// each pair's initializer sees the bindings made before it, and each
/// binding lands in the top frame.  `span` is the span of the whole
/// `let*` form, reported when the binding list has an odd length.
pub open spec fn spec_eval_binds(
    bs: Seq<SpecExpr>,
    i: int,
    src: Seq<char>,
    st: StackM,
    span: Span,
) -> (Option<Error>, StackM)
    decreases bs, bs.len() - i, 0int,
{
    if i < 0 || i >= bs.len() {
        (None, st)
    } else if i + 1 >= bs.len() {
        (Some(Spanned { span, node: Error_::UnsupportedOperation }), st)
    } else if !(bs[i].node is Symbol) {
        (Some(Spanned { span: bs[i].span, node: Error_::ExpectedSymbol }), st)
    } else {
        let sym = bs[i].node->Symbol_0;
        match spec_eval(bs[i + 1], src, st) {
            (Ok(v), st1) => spec_eval_binds(bs, i + 2, src, stack_set_top(st1, sym, v), span),
            (Err(err), st1) => (Some(err), st1),
        }
    }
}

/// Evaluation cannot touch the frames below the top one, and it never
/// pushes or pops a frame that outlives it: the stack an evaluation
/// leaves behind has exactly the frames it was given, with at most the
/// top frame changed.  In particular a binding made inside `let*` never
/// leaks into the surrounding stack.
pub proof fn lemma_eval_frames(e: SpecExpr, src: Seq<char>, st: StackM)
    requires
        st.len() >= 1,
    ensures
        ({
            let (r, st2) = spec_eval(e, src, st);
            &&& st2.len() == st.len()
            &&& forall|i: int| 0 <= i < st.len() - 1 ==> st2[i] == #[trigger] st[i]
        }),
    decreases e, 0int,
{
    match e.node {
        SpecExpr_::Vector(es) => {
            lemma_eval_args_frames(es, 0, src, st);
        },
        SpecExpr_::List(es) => {
            if es.len() > 0 {
                let head = es[0];
                match head.node {
                    SpecExpr_::Operator(Operator::Def) => {
                        if es.len() == 3 && es[1].node is Symbol {
                            lemma_eval_frames(es[2], src, st);
                        }
                    },
                    SpecExpr_::Operator(Operator::If) => {
                        if es.len() == 4 {
                            lemma_eval_frames(es[1], src, st);
                            let (r1, st1) = spec_eval(es[1], src, st);
                            if r1 is Ok {
                                lemma_eval_frames(es[2], src, st1);
                                lemma_eval_frames(es[3], src, st1);
                            }
                        }
                    },
                    SpecExpr_::Operator(Operator::Let) => {
                        if es.len() == 3 && (es[1].node is List || es[1].node is Vector) {
                            let bs = if es[1].node is List {
                                es[1].node->List_0
                            } else {
                                es[1].node->Vector_0
                            };
                            let st1 = st.push(Map::empty());
                            lemma_eval_binds_frames(bs, 0, src, st1, e.span);
                            let (ob, st2) = spec_eval_binds(bs, 0, src, st1, e.span);
                            assert(forall|i: int| 0 <= i < st.len() ==> st1[i] == #[trigger] st[i]);
                            match ob {
                                Some(_) => {
                                    assert forall|i: int| 0 <= i < st.len() - 1 implies st2.drop_last()[i]
                                        == #[trigger] st[i] by {
                                        assert(st2[i] == st1[i]);
                                    }
                                },
                                None => {
                                    lemma_eval_frames(es[2], src, st2);
                                    let (r3, st3) = spec_eval(es[2], src, st2);
                                    assert forall|i: int| 0 <= i < st.len() - 1 implies st3.drop_last()[i]
                                        == #[trigger] st[i] by {
                                        assert(st3[i] == st2[i]);
                                        assert(st2[i] == st1[i]);
                                    }
                                },
                            }
                        }
                    },
                    SpecExpr_::Symbol(sym) => {
                        match stack_lookup(st, sym) {
                            Some(SpecValue::Function(_)) => {
                                lemma_eval_args_frames(es, 1, src, st);
                            },
                            _ => {},
                        }
                    },
                    _ => {},
                }
            }
        },
        _ => {},
    }
}

/// Frame preservation for argument evaluation; see [`lemma_eval_frames`].
pub proof fn lemma_eval_args_frames(es: Seq<SpecExpr>, i: int, src: Seq<char>, st: StackM)
    requires
        st.len() >= 1,
    ensures
        ({
            let (r, st2) = spec_eval_args(es, i, src, st);
            &&& st2.len() == st.len()
            &&& forall|j: int| 0 <= j < st.len() - 1 ==> st2[j] == #[trigger] st[j]
        }),
    decreases es, es.len() - i, 1int,
{
    if 0 <= i < es.len() {
        lemma_eval_frames(es[i], src, st);
        let (r1, st1) = spec_eval(es[i], src, st);
        if r1 is Ok {
            lemma_eval_args_frames(es, i + 1, src, st1);
        }
    }
}

/// Frame preservation for binding evaluation; see [`lemma_eval_frames`].
pub proof fn lemma_eval_binds_frames(
    bs: Seq<SpecExpr>,
    i: int,
    src: Seq<char>,
    st: StackM,
    span: Span,
)
    requires
        st.len() >= 1,
    ensures
        ({
            let (ob, st2) = spec_eval_binds(bs, i, src, st, span);
            &&& st2.len() == st.len()
            &&& forall|j: int| 0 <= j < st.len() - 1 ==> st2[j] == #[trigger] st[j]
        }),
    decreases bs, bs.len() - i, 1int,
{
    if 0 <= i < bs.len() && i + 1 < bs.len() && bs[i].node is Symbol {
        let sym = bs[i].node->Symbol_0;
        lemma_eval_frames(bs[i + 1], src, st);
        let (r1, st1) = spec_eval(bs[i + 1], src, st);
        match r1 {
            Ok(v) => {
                let stt = stack_set_top(st1, sym, v);
                lemma_eval_binds_frames(bs, i + 2, src, stt, span);
                let (ob2, st2) = spec_eval_binds(bs, i + 2, src, stt, span);
                assert forall|j: int| 0 <= j < st.len() - 1 implies st2[j] == #[trigger] st[j] by {
                    assert(st2[j] == stt[j]);
                    assert(stt[j] == st1[j]);
                }
            },
            Err(_) => {},
        }
    }
}

/// What a built-in returns on the given argument values, or none where it
/// is not applicable.
///
/// Every built-in takes exactly two integers.  Addition, subtraction and
/// multiplication wrap on 64-bit overflow; division truncates toward zero
/// and is not applicable on a zero divisor or on an overflowing
/// `MIN / -1`; comparisons return booleans.
pub open spec fn spec_apply(f: Builtin, args: Seq<SpecValue>) -> Option<SpecValue> {
    if args.len() == 2 && args[0] is Integer && args[1] is Integer {
        let a = args[0]->Integer_0;
        let b = args[1]->Integer_0;
        match f {
            Builtin::Add => Some(SpecValue::Integer(a.wrapping_add(b))),
            Builtin::Div => match a.checked_div(b) {
                Some(q) => Some(SpecValue::Integer(q)),
                None => None,
            },
            Builtin::Ge => Some(SpecValue::Bool(a >= b)),
            Builtin::Gt => Some(SpecValue::Bool(a > b)),
            Builtin::Le => Some(SpecValue::Bool(a <= b)),
            Builtin::Lt => Some(SpecValue::Bool(a < b)),
            Builtin::Mul => Some(SpecValue::Integer(a.wrapping_mul(b))),
            Builtin::Sub => Some(SpecValue::Integer(a.wrapping_sub(b))),
        }
    } else {
        None
    }
}

/// Applies a built-in function to evaluated argument values.
pub fn apply(f: Builtin, args: &Vec<Value>) -> (r: Option<Value>)
    ensures
        ({
            let sr = spec_apply(f, values_view(*args, args@.len() as int));
            match (r, sr) {
                (Some(v), Some(sv)) => v@ == sv,
                (None, None) => true,
                _ => false,
            }
        }),
{
    match f {
        Builtin::Add => crate::eval::add(args),
        Builtin::Div => crate::eval::div(args),
        Builtin::Ge => crate::eval::ge(args),
        Builtin::Gt => crate::eval::gt(args),
        Builtin::Le => crate::eval::le(args),
        Builtin::Lt => crate::eval::lt(args),
        Builtin::Mul => crate::eval::mul(args),
        Builtin::Sub => crate::eval::sub(args),
    }
}

/// The two integer operands, where the arguments are exactly two
/// integers.
fn two_integers(args: &Vec<Value>) -> (r: Option<(i64, i64)>)
    ensures
        ({
            let vs = values_view(*args, args@.len() as int);
            match r {
                Some((a, b)) => vs.len() == 2 && vs[0] == SpecValue::Integer(a) && vs[1]
                    == SpecValue::Integer(b),
                None => !(vs.len() == 2 && vs[0] is Integer && vs[1] is Integer),
            }
        }),
{
    proof {
        if args@.len() >= 2 {
            lemma_values_view(*args, args@.len() as int);
        } else {
            lemma_values_view(*args, args@.len() as int);
        }
    }
    if args.len() != 2 {
        return None;
    }
    let a = match &args[0] {
        Value::Integer(a) => *a,
        _ => {
            return None;
        },
    };
    let b = match &args[1] {
        Value::Integer(b) => *b,
        _ => {
            return None;
        },
    };
    Some((a, b))
}

/// `+`: wrapping 64-bit addition of exactly two integers.
fn add(args: &Vec<Value>) -> (r: Option<Value>)
    ensures
        ({
            let sr = spec_apply(Builtin::Add, values_view(*args, args@.len() as int));
            match (r, sr) {
                (Some(v), Some(sv)) => v@ == sv,
                (None, None) => true,
                _ => false,
            }
        }),
{
    match two_integers(args) {
        Some((a, b)) => Some(Value::Integer(a.wrapping_add(b))),
        None => None,
    }
}

/// `/`: truncating 64-bit division of exactly two integers; a zero
/// divisor or an overflowing `MIN / -1` is not applicable.
fn div(args: &Vec<Value>) -> (r: Option<Value>)
    ensures
        ({
            let sr = spec_apply(Builtin::Div, values_view(*args, args@.len() as int));
            match (r, sr) {
                (Some(v), Some(sv)) => v@ == sv,
                (None, None) => true,
                _ => false,
            }
        }),
{
    match two_integers(args) {
        Some((a, b)) => match a.checked_div(b) {
            Some(q) => Some(Value::Integer(q)),
            None => None,
        },
        None => None,
    }
}

/// `>=`: comparison of exactly two integers.
fn ge(args: &Vec<Value>) -> (r: Option<Value>)
    ensures
        ({
            let sr = spec_apply(Builtin::Ge, values_view(*args, args@.len() as int));
            match (r, sr) {
                (Some(v), Some(sv)) => v@ == sv,
                (None, None) => true,
                _ => false,
            }
        }),
{
    match two_integers(args) {
        Some((a, b)) => Some(Value::Bool(a >= b)),
        None => None,
    }
}

/// `>`: comparison of exactly two integers.
fn gt(args: &Vec<Value>) -> (r: Option<Value>)
    ensures
        ({
            let sr = spec_apply(Builtin::Gt, values_view(*args, args@.len() as int));
            match (r, sr) {
                (Some(v), Some(sv)) => v@ == sv,
                (None, None) => true,
                _ => false,
            }
        }),
{
    match two_integers(args) {
        Some((a, b)) => Some(Value::Bool(a > b)),
        None => None,
    }
}

/// `<=`: comparison of exactly two integers.
fn le(args: &Vec<Value>) -> (r: Option<Value>)
    ensures
        ({
            let sr = spec_apply(Builtin::Le, values_view(*args, args@.len() as int));
            match (r, sr) {
                (Some(v), Some(sv)) => v@ == sv,
                (None, None) => true,
                _ => false,
            }
        }),
{
    match two_integers(args) {
        Some((a, b)) => Some(Value::Bool(a <= b)),
        None => None,
    }
}

/// `<`: comparison of exactly two integers.
fn lt(args: &Vec<Value>) -> (r: Option<Value>)
    ensures
        ({
            let sr = spec_apply(Builtin::Lt, values_view(*args, args@.len() as int));
            match (r, sr) {
                (Some(v), Some(sv)) => v@ == sv,
                (None, None) => true,
                _ => false,
            }
        }),
{
    match two_integers(args) {
        Some((a, b)) => Some(Value::Bool(a < b)),
        None => None,
    }
}

/// `*`: wrapping 64-bit multiplication of exactly two integers.
fn mul(args: &Vec<Value>) -> (r: Option<Value>)
    ensures
        ({
            let sr = spec_apply(Builtin::Mul, values_view(*args, args@.len() as int));
            match (r, sr) {
                (Some(v), Some(sv)) => v@ == sv,
                (None, None) => true,
                _ => false,
            }
        }),
{
    match two_integers(args) {
        Some((a, b)) => Some(Value::Integer(a.wrapping_mul(b))),
        None => None,
    }
}

/// `-`: wrapping 64-bit subtraction of exactly two integers.
fn sub(args: &Vec<Value>) -> (r: Option<Value>)
    ensures
        ({
            let sr = spec_apply(Builtin::Sub, values_view(*args, args@.len() as int));
            match (r, sr) {
                (Some(v), Some(sv)) => v@ == sv,
                (None, None) => true,
                _ => false,
            }
        }),
{
    match two_integers(args) {
        Some((a, b)) => Some(Value::Integer(a.wrapping_sub(b))),
        None => None,
    }
}

/// A value whose keyword handles (at any depth) are defined in an
/// interner of `names` symbols, so that it can be displayed.
pub open spec fn value_wf(v: SpecValue, names: nat) -> bool
    decreases v, 0int,
{
    match v {
        SpecValue::Keyword(k) => 0 <= k < names,
        SpecValue::Vector(vs) => values_wf_upto(vs, vs.len() as int, names),
        _ => true,
    }
}

/// Whether the first `n` elements are all well formed.
pub open spec fn values_wf_upto(vs: Seq<SpecValue>, n: int, names: nat) -> bool
    decreases vs, n, 1int,
{
    n <= 0 || n > vs.len() || (values_wf_upto(vs, n - 1, names) && value_wf(vs[n - 1], names))
}

/// `values_wf_upto` holds exactly when each element is well formed.
pub proof fn lemma_values_wf_upto(vs: Seq<SpecValue>, n: int, names: nat)
    requires
        0 <= n <= vs.len(),
    ensures
        values_wf_upto(vs, n, names) <==> (forall|i: int|
            0 <= i < n ==> value_wf(#[trigger] vs[i], names)),
    decreases n,
{
    if n > 0 {
        lemma_values_wf_upto(vs, n - 1, names);
    }
}

/// The display text of a value: booleans, integers and `nil` from their
/// values, a function as an opaque tag, a keyword as its interned name,
/// a string as its text (unquoted), and a vector as its elements joined
/// by single spaces inside brackets.
pub open spec fn spec_display(v: SpecValue, names: Seq<Seq<char>>) -> Seq<char>
    decreases v, 0int,
{
    match v {
        SpecValue::Bool(b) => if b {
            "true"@
        } else {
            "false"@
        },
        SpecValue::Function(_) => "<function>"@,
        SpecValue::Integer(i) => crate::text::spec_dec_i64(i as int),
        SpecValue::Keyword(k) => names[k],
        SpecValue::Nil => "nil"@,
        SpecValue::String(s) => s,
        SpecValue::Vector(vs) => seq!['['] + spec_display_elems(vs, 0, names) + seq![']'],
    }
}

/// The display texts of the elements from index `i` on, joined by single
/// spaces.
pub open spec fn spec_display_elems(vs: Seq<SpecValue>, i: int, names: Seq<Seq<char>>) -> Seq<
    char,
>
    decreases vs, vs.len() - i, 1int,
{
    if i < 0 || i >= vs.len() {
        Seq::empty()
    } else if i == vs.len() - 1 {
        spec_display(vs[i], names)
    } else {
        spec_display(vs[i], names) + seq![' '] + spec_display_elems(vs, i + 1, names)
    }
}

impl Value {
    /// Formats this value for the session's user, resolving keyword
    /// handles through the interner that issued them.
    pub fn display(&self, interner: &crate::interner::Interner) -> (out: String)
        requires
            value_wf(self@, interner@.len()),
        ensures
            out@ == spec_display(self@, interner@),
    {
        let mut string = String::new();
        self.display_(interner, &mut string);
        string
    }

    /// Appends this value's display text to `string`.
    fn display_(&self, interner: &crate::interner::Interner, string: &mut String)
        requires
            value_wf(self@, interner@.len()),
        ensures
            final(string)@ == old(string)@ + spec_display(self@, interner@),
        decreases self, 0int, 0int,
    {
        proof {
            reveal_strlit("true");
            reveal_strlit("false");
            reveal_strlit("nil");
            reveal_strlit("<function>");
            reveal_strlit("[");
            reveal_strlit("]");
        }
        match self {
            Value::Bool(b) => {
                if *b {
                    string.append("true");
                    proof {
                        assert(string@ =~= old(string)@ + "true"@);
                    }
                } else {
                    string.append("false");
                    proof {
                        assert(string@ =~= old(string)@ + "false"@);
                    }
                }
            },
            Value::Function(_) => {
                string.append("<function>");
            },
            Value::Integer(i) => {
                let text = crate::text::i64_to_string(*i);
                string.append(text.as_str());
            },
            Value::Keyword(sym) => {
                let name = interner.get(*sym);
                string.append(name.as_str());
            },
            Value::Nil => {
                string.append("nil");
            },
            Value::String(s) => {
                string.append(s.as_str());
            },
            Value::Vector(vs) => {
                proof {
                    lemma_values_view(*vs, vs@.len() as int);
                    let svs = values_view(*vs, vs@.len() as int);
                    assert(self@ == SpecValue::Vector(svs));
                    lemma_values_wf_upto(svs, svs.len() as int, interner@.len());
                    assert forall|j: int| 0 <= j < vs@.len() implies value_wf(
                        #[trigger] vs@[j]@,
                        interner@.len(),
                    ) by {
                        assert(svs[j] == vs@[j]@);
                        assert(value_wf(svs[j], interner@.len()));
                    }
                }
                string.append("[");
                display_elems(vs, 0, interner, string);
                string.append("]");
                proof {
                    assert(string@ =~= old(string)@ + spec_display(self@, interner@));
                }
            },
        }
    }
}

/// Appends the display texts of the elements from index `i` on, joined by
/// single spaces.
fn display_elems(
    vs: &Vec<Value>,
    i: usize,
    interner: &crate::interner::Interner,
    string: &mut String,
)
    requires
        i <= vs@.len(),
        forall|j: int| i <= j < vs@.len() ==> value_wf(#[trigger] vs@[j]@, interner@.len()),
    ensures
        final(string)@ == old(string)@ + spec_display_elems(
            values_view(*vs, vs@.len() as int),
            i as int,
            interner@,
        ),
    decreases vs, vs@.len() - i, 1int,
{
    proof {
        reveal_strlit(" ");
        lemma_values_view(*vs, vs@.len() as int);
    }
    if i >= vs.len() {
        proof {
            assert(string@ =~= old(string)@ + Seq::<char>::empty());
        }
        return ;
    }
    vs[i].display_(interner, string);
    if i + 1 < vs.len() {
        string.append(" ");
        display_elems(vs, i + 1, interner, string);
        proof {
            assert(string@ =~= old(string)@ + spec_display_elems(
                values_view(*vs, vs@.len() as int),
                i as int,
                interner@,
            ));
        }
    } else {
        proof {
            assert(string@ =~= old(string)@ + spec_display_elems(
                values_view(*vs, vs@.len() as int),
                i as int,
                interner@,
            ));
        }
    }
}

/// The contract of [`expr`]: the exec result and stack agree with
/// [`spec_eval`].
pub open spec fn eval_post(
    e: SpecExpr,
    src: Seq<char>,
    st0: StackM,
    r: Result<Value, Error>,
    st_now: StackM,
) -> bool {
    let (sr, st2) = spec_eval(e, src, st0);
    &&& st_now == st2
    &&& match (r, sr) {
        (Ok(v), Ok(sv)) => v@ == sv,
        (Err(err), Err(serr)) => err == serr,
        _ => false,
    }
}

/// Evaluates an expression against the scope stack.
///
/// The result and the stack left behind are exactly those of
/// [`spec_eval`] on the expression's model; the stack keeps its frame
/// structure, with at most its top frame changed, so a binding made in a
/// `let*` frame never leaks into the surrounding stack.
pub fn expr(e: &Expr, source: &Source, env: &mut Stack) -> (r: Result<Value, Error>)
    requires
        crate::ast::expr_evalable(e@, source@.len()),
        !(e@.node is Operator),
        old(env).wf(),
    ensures
        final(env).wf(),
        eval_post(e@, source@, old(env)@, r, final(env)@),
        final(env)@.len() == old(env)@.len(),
        forall|i: int| 0 <= i < old(env)@.len() - 1 ==> final(env)@[i] == #[trigger] old(env)@[i],
    decreases e, 0int, 0int,
{
    proof {
        lemma_eval_frames(e@, source@, env@);
    }
    match &e.node {
        Expr_::Bool(b) => Ok(Value::Bool(*b)),
        Expr_::Integer(i) => Ok(Value::Integer(*i)),
        Expr_::Nil => Ok(Value::Nil),
        Expr_::Operator(_) => {
            proof {
                assert(false);
            }
            vstd::pervasive::unreached()
        },
        Expr_::String => {
            let text = source.slice(e.span);
            Ok(Value::String(text.to_owned()))
        },
        Expr_::Symbol(sym) => {
            let sym = *sym;
            match env.get(sym) {
                Some(v) => Ok(clone_value(v)),
                None => Err(Spanned { span: e.span, node: Error_::UndefinedSymbol }),
            }
        },
        Expr_::Vector(es) => {
            proof {
                crate::ast::lemma_exprs_view(*es, es@.len() as int);
                assert forall|j: int|
                    0 <= j < es@.len() implies crate::ast::expr_evalable(
                    #[trigger] es@[j]@,
                    source@.len(),
                ) && !(es@[j]@.node is Operator) by {
                    let ses = crate::ast::exprs_view(*es, es@.len() as int);
                    assert(ses[j] == es@[j]@);
                    assert(crate::ast::expr_evalable(ses[j], source@.len()));
                    assert(!(ses[j].node is Operator));
                }
            }
            match eval_args(es, 0, source, env) {
                Ok(vals) => {
                    proof {
                        lemma_values_view(vals, vals@.len() as int);
                    }
                    Ok(Value::Vector(vals))
                },
                Err(err) => Err(err),
            }
        },
        Expr_::List(es) => {
            if es.len() == 0 {
                return Err(Spanned { span: e.span, node: Error_::EmptyList });
            }
            let ghost ses = crate::ast::exprs_view(*es, es@.len() as int);
            proof {
                crate::ast::lemma_exprs_view(*es, es@.len() as int);
                assert forall|j: int|
                    0 <= j < es@.len() implies crate::ast::expr_evalable(
                    #[trigger] es@[j]@,
                    source@.len(),
                ) && (j >= 1 ==> !(es@[j]@.node is Operator)) by {
                    assert(ses[j] == es@[j]@);
                    assert(crate::ast::expr_evalable(ses[j], source@.len()));
                }
            }
            match &es[0].node {
                Expr_::Operator(Operator::Def) => {
                    if es.len() != 3 {
                        return Err(
                            Spanned { span: e.span, node: Error_::UnsupportedOperation },
                        );
                    }
                    match &es[1].node {
                        Expr_::Symbol(s) => {
                            let s = *s;
                            match eval_nth(es, 2, source, env) {
                                Err(err) => Err(err),
                                Ok(v) => {
                                    let c = clone_value(&v);
                                    env.insert(s, c);
                                    Ok(v)
                                },
                            }
                        },
                        _ => Err(Spanned { span: es[1].span, node: Error_::ExpectedSymbol }),
                    }
                },
                Expr_::Operator(Operator::If) => {
                    if es.len() != 4 {
                        return Err(
                            Spanned { span: e.span, node: Error_::UnsupportedOperation },
                        );
                    }
                    match eval_nth(es, 1, source, env) {
                        Err(err) => Err(err),
                        Ok(c) => {
                            let truthy = match &c {
                                Value::Bool(b) => *b,
                                Value::Nil => false,
                                _ => true,
                            };
                            if truthy {
                                eval_nth(es, 2, source, env)
                            } else {
                                eval_nth(es, 3, source, env)
                            }
                        },
                    }
                },
                Expr_::Operator(Operator::Let) => {
                    if es.len() != 3 {
                        return Err(
                            Spanned { span: e.span, node: Error_::UnsupportedOperation },
                        );
                    }
                    let bs: &Vec<Expr> = match &es[1].node {
                        Expr_::List(bs) => bs,
                        Expr_::Vector(bs) => bs,
                        _ => {
                            return Err(
                                Spanned { span: e.span, node: Error_::UnsupportedOperation },
                            );
                        },
                    };
                    proof {
                        crate::ast::lemma_exprs_view(*bs, bs@.len() as int);
                        let sbs = crate::ast::exprs_view(*bs, bs@.len() as int);
                        assert(crate::ast::expr_evalable(es@[1]@, source@.len()));
                        assert forall|j: int|
                            0 <= j < bs@.len() implies crate::ast::expr_evalable(
                            #[trigger] bs@[j]@,
                            source@.len(),
                        ) && (j >= 1 ==> !(bs@[j]@.node is Operator)) by {
                            assert(sbs[j] == bs@[j]@);
                            assert(crate::ast::expr_evalable(sbs[j], source@.len()));
                        }
                    }
                    env.push(Vec::new());
                    proof {
                        lemma_eval_binds_frames(
                            crate::ast::exprs_view(*bs, bs@.len() as int),
                            0,
                            source@,
                            env@,
                            e.span,
                        );
                    }
                    match eval_binds(bs, 0, source, env, e.span) {
                        Some(err) => {
                            env.pop();
                            Err(err)
                        },
                        None => {
                            proof {
                                lemma_eval_frames(crate::ast::exprs_view(*es, es@.len() as int)[2], source@, env@);
                            }
                            let r = eval_nth(es, 2, source, env);
                            env.pop();
                            r
                        },
                    }
                },
                Expr_::Symbol(sym) => {
                    let sym = *sym;
                    let looked: Result<Builtin, Error> = match env.get(sym) {
                        None => Err(Spanned { span: es[0].span, node: Error_::UndefinedSymbol }),
                        Some(Value::Function(f)) => Ok(*f),
                        Some(_) => Err(
                            Spanned { span: es[0].span, node: Error_::ExpectedFunction },
                        ),
                    };
                    match looked {
                        Err(err) => Err(err),
                        Ok(f) => {
                            match eval_args(es, 1, source, env) {
                                Err(err) => Err(err),
                                Ok(vals) => {
                                    match crate::eval::apply(f, &vals) {
                                        Some(v) => Ok(v),
                                        None => Err(
                                            Spanned {
                                                span: e.span,
                                                node: Error_::UnsupportedOperation,
                                            },
                                        ),
                                    }
                                },
                            }
                        },
                    }
                },
                _ => Err(Spanned { span: es[0].span, node: Error_::ExpectedSymbol }),
            }
        },
    }
}

/// Evaluates the `j`-th element of `es`.
fn eval_nth(es: &Vec<Expr>, j: usize, source: &Source, env: &mut Stack) -> (r: Result<
    Value,
    Error,
>)
    requires
        j < es@.len(),
        crate::ast::expr_evalable(es@[j as int]@, source@.len()),
        !(es@[j as int]@.node is Operator),
        old(env).wf(),
    ensures
        final(env).wf(),
        eval_post(es@[j as int]@, source@, old(env)@, r, final(env)@),
    decreases es, 0int, 1int,
{
    crate::eval::expr(&es[j], source, env)
}

/// Evaluates the elements of `es` from index `i` on, left to right.
fn eval_args(es: &Vec<Expr>, i: usize, source: &Source, env: &mut Stack) -> (r: Result<
    Vec<Value>,
    Error,
>)
    requires
        i <= es@.len(),
        forall|j: int|
            i <= j < es@.len() ==> crate::ast::expr_evalable(#[trigger] es@[j]@, source@.len()),
        forall|j: int| i <= j < es@.len() ==> !(#[trigger] es@[j]@.node is Operator),
        old(env).wf(),
    ensures
        final(env).wf(),
        ({
            let ses = crate::ast::exprs_view(*es, es@.len() as int);
            let (sr, st2) = spec_eval_args(ses, i as int, source@, old(env)@);
            &&& final(env)@ == st2
            &&& match (r, sr) {
                (Ok(vals), Ok(svals)) => vals@.len() == svals.len() && values_view(
                    vals,
                    vals@.len() as int,
                ) == svals,
                (Err(err), Err(serr)) => err == serr,
                _ => false,
            }
        }),
    decreases es, es@.len() - i, 2int,
{
    proof {
        crate::ast::lemma_exprs_view(*es, es@.len() as int);
    }
    if i >= es.len() {
        let vals: Vec<Value> = Vec::new();
        return Ok(vals);
    }
    match eval_nth(es, i, source, env) {
        Err(err) => Err(err),
        Ok(v) => {
            match eval_args(es, i + 1, source, env) {
                Err(err) => Err(err),
                Ok(mut rest) => {
                    let ghost srest = values_view(rest, rest@.len() as int);
                    let ghost old_rest = rest;
                    rest.insert(0, v);
                    proof {
                        lemma_values_view(old_rest, old_rest@.len() as int);
                        lemma_values_view(rest, rest@.len() as int);
                        assert forall|k: int|
                            0 <= k < rest@.len() implies values_view(rest, rest@.len() as int)[k]
                            == (seq![v@] + srest)[k] by {
                            if k > 0 {
                                assert(rest@[k] == old_rest@[k - 1]);
                            }
                        }
                        assert(values_view(rest, rest@.len() as int) =~= seq![v@] + srest);
                    }
                    Ok(rest)
                },
            }
        },
    }
}

/// Evaluates `let*` binding pairs from index `i` on, binding each pair in
/// the top frame.
fn eval_binds(bs: &Vec<Expr>, i: usize, source: &Source, env: &mut Stack, span: Span) -> (r:
    Option<Error>)
    requires
        i <= bs@.len(),
        forall|j: int|
            i <= j < bs@.len() ==> crate::ast::expr_evalable(#[trigger] bs@[j]@, source@.len()),
        forall|j: int| 1 <= j < bs@.len() ==> !(#[trigger] bs@[j]@.node is Operator),
        old(env).wf(),
    ensures
        final(env).wf(),
        ({
            let sbs = crate::ast::exprs_view(*bs, bs@.len() as int);
            let (ob, st2) = spec_eval_binds(sbs, i as int, source@, old(env)@, span);
            &&& final(env)@ == st2
            &&& r == ob
        }),
    decreases bs, bs@.len() - i, 2int,
{
    proof {
        crate::ast::lemma_exprs_view(*bs, bs@.len() as int);
    }
    if i >= bs.len() {
        return None;
    }
    if i + 1 >= bs.len() {
        return Some(Spanned { span, node: Error_::UnsupportedOperation });
    }
    match &bs[i].node {
        Expr_::Symbol(s) => {
            let s = *s;
            match eval_nth(bs, i + 1, source, env) {
                Err(err) => Some(err),
                Ok(v) => {
                    env.insert(s, v);
                    eval_binds(bs, i + 2, source, env, span)
                },
            }
        },
        _ => Some(Spanned { span: bs[i].span, node: Error_::ExpectedSymbol }),
    }
}

} // verus!
