//! Abstract syntax tree.

use vstd::prelude::*;

use crate::codemap::Spanned;
use crate::interner::Symbol;
use crate::text::str_eq;

verus! {

broadcast use {vstd::std_specs::vec::axiom_vec_index_decreases, vstd::seq::axiom_seq_index_decreases};

/// A spanned expression.
pub type Expr = Spanned<Expr_>;

/// An expression.
#[derive(Debug)]
pub enum Expr_ {
    /// `true` or `false`
    Bool(bool),
    /// `123`
    Integer(i64),
    /// `(+ 1 2)`
    List(Vec<Expr>),
    /// `nil`
    Nil,
    /// `def!`, `if`, `let*`
    Operator(Operator),
    /// `"Hello, world!"` (the text is recovered from the span)
    String,
    /// `+`, `-`
    Symbol(Symbol),
    /// `[1 "two" 3]`
    Vector(Vec<Expr>),
}

/// Special operators: list heads that control the evaluation of their own
/// arguments instead of being evaluated and applied as functions.
#[derive(Clone, Copy, Debug, PartialEq, Eq, Structural)]
pub enum Operator {
    /// `def!`
    Def,
    /// `if`
    If,
    /// `let*`
    Let,
}

impl Operator {
    /// Checks if `str` is a special operator.
    pub fn from_str(str: &str) -> (op: Option<Operator>)
        ensures
            op == spec_operator_of(str@),
    {
        if str_eq(str, "def!") {
            Some(Operator::Def)
        } else if str_eq(str, "if") {
            Some(Operator::If)
        } else if str_eq(str, "let*") {
            Some(Operator::Let)
        } else {
            None
        }
    }
}

/// Which special operator, if any, a piece of source text names.
pub open spec fn spec_operator_of(s: Seq<char>) -> Option<Operator> {
    if s == "def!"@ {
        Some(Operator::Def)
    } else if s == "if"@ {
        Some(Operator::If)
    } else if s == "let*"@ {
        Some(Operator::Let)
    } else {
        None
    }
}

/// The mathematical model of an expression: the same tree with sequences
/// for children and unbounded integers for literals.
pub struct SpecExpr {
    /// The node.
    pub node: SpecExpr_,
    /// The span.
    pub span: crate::codemap::Span,
}

/// The mathematical model of an expression node.
pub enum SpecExpr_ {
    /// `true` or `false`
    Bool(bool),
    /// `123`
    Integer(int),
    /// `(+ 1 2)`
    List(Seq<SpecExpr>),
    /// `nil`
    Nil,
    /// `def!`, `if`, `let*`
    Operator(Operator),
    /// `"Hello, world!"`
    String,
    /// `+`, `-`
    Symbol(int),
    /// `[1 "two" 3]`
    Vector(Seq<SpecExpr>),
}

/// The models of the first `n` elements of `es`, in order.
pub open spec fn exprs_view(es: Vec<Expr>, n: int) -> Seq<SpecExpr>
    decreases es, n,
{
    if n <= 0 || n > es.len() {
        Seq::empty()
    } else {
        exprs_view(es, n - 1).push(es[n - 1]@)
    }
}

/// `exprs_view` is the element-wise model of the vector.
pub proof fn lemma_exprs_view(es: Vec<Expr>, n: int)
    requires
        0 <= n <= es.len(),
    ensures
        exprs_view(es, n).len() == n,
        forall|i: int| 0 <= i < n ==> exprs_view(es, n)[i] == es[i]@,
    decreases n,
{
    if n > 0 {
        lemma_exprs_view(es, n - 1);
        assert(exprs_view(es, n) == exprs_view(es, n - 1).push(es[n - 1]@));
    } else {
        assert(exprs_view(es, n).len() == 0);
    }
}

impl View for Expr_ {
    type V = SpecExpr_;

    open spec fn view(&self) -> SpecExpr_
        decreases self,
    {
        match self {
            Expr_::Bool(b) => SpecExpr_::Bool(*b),
            Expr_::Integer(i) => SpecExpr_::Integer(*i as int),
            Expr_::List(es) => SpecExpr_::List(exprs_view(*es, es.len() as int)),
            Expr_::Nil => SpecExpr_::Nil,
            Expr_::Operator(op) => SpecExpr_::Operator(*op),
            Expr_::String => SpecExpr_::String,
            Expr_::Symbol(sym) => SpecExpr_::Symbol(sym.0 as int),
            Expr_::Vector(es) => SpecExpr_::Vector(exprs_view(*es, es.len() as int)),
        }
    }
}

impl View for Expr {
    type V = SpecExpr;

    open spec fn view(&self) -> SpecExpr
        decreases self,
    {
        SpecExpr { node: self.node@, span: self.span }
    }
}

/// A well-formed expression has every span inside a source of `len`
/// characters, every interned symbol below `names` (the number of symbols
/// the interner holds), its integer literals in the signed 64-bit range,
/// and operators only in the head position of a list.
pub open spec fn expr_wf(e: SpecExpr, len: nat, names: nat) -> bool
    decreases e,
{
    e.span.wf(len) && match e.node {
        SpecExpr_::Bool(_) => true,
        SpecExpr_::Integer(v) => i64::MIN <= v <= i64::MAX,
        SpecExpr_::List(es) => {
            &&& forall|i: int| 0 <= i < es.len() ==> expr_wf(#[trigger] es[i], len, names)
            &&& forall|i: int| 1 <= i < es.len() ==> !(#[trigger] es[i].node is Operator)
        },
        SpecExpr_::Nil => true,
        SpecExpr_::Operator(_) => true,
        SpecExpr_::String => true,
        SpecExpr_::Symbol(sym) => 0 <= sym < names,
        SpecExpr_::Vector(es) => {
            &&& forall|i: int| 0 <= i < es.len() ==> expr_wf(#[trigger] es[i], len, names)
            &&& forall|i: int| 0 <= i < es.len() ==> !(#[trigger] es[i].node is Operator)
        },
    }
}

/// What evaluation needs of an expression: every span inside a source of
/// `len` characters, integer literals in the signed 64-bit range, symbol
/// handles non-negative, and operators only in the head position of a
/// list.  Unlike [`expr_wf`] this puts no bound on the symbol handles, so
/// it holds independently of any interner.
pub open spec fn expr_evalable(e: SpecExpr, len: nat) -> bool
    decreases e,
{
    e.span.wf(len) && match e.node {
        SpecExpr_::Bool(_) => true,
        SpecExpr_::Integer(v) => i64::MIN <= v <= i64::MAX,
        SpecExpr_::List(es) => {
            &&& forall|i: int| 0 <= i < es.len() ==> expr_evalable(#[trigger] es[i], len)
            &&& forall|i: int| 1 <= i < es.len() ==> !(#[trigger] es[i].node is Operator)
        },
        SpecExpr_::Nil => true,
        SpecExpr_::Operator(_) => true,
        SpecExpr_::String => true,
        SpecExpr_::Symbol(sym) => 0 <= sym,
        SpecExpr_::Vector(es) => {
            &&& forall|i: int| 0 <= i < es.len() ==> expr_evalable(#[trigger] es[i], len)
            &&& forall|i: int| 0 <= i < es.len() ==> !(#[trigger] es[i].node is Operator)
        },
    }
}

/// A well-formed expression is evaluable.
pub proof fn lemma_expr_wf_evalable(e: SpecExpr, len: nat, names: nat)
    requires
        expr_wf(e, len, names),
    ensures
        expr_evalable(e, len),
    decreases e,
{
    match e.node {
        SpecExpr_::List(es) => {
            assert forall|i: int| 0 <= i < es.len() implies expr_evalable(#[trigger] es[i], len) by {
                assert(expr_wf(es[i], len, names));
                lemma_expr_wf_evalable(es[i], len, names);
            }
        },
        SpecExpr_::Vector(es) => {
            assert forall|i: int| 0 <= i < es.len() implies expr_evalable(#[trigger] es[i], len) by {
                assert(expr_wf(es[i], len, names));
                lemma_expr_wf_evalable(es[i], len, names);
            }
        },
        _ => {},
    }
}

/// Growing the source or the interner preserves well-formedness.
pub proof fn lemma_expr_wf_mono(e: SpecExpr, len: nat, names: nat, len2: nat, names2: nat)
    requires
        expr_wf(e, len, names),
        len <= len2,
        names <= names2,
    ensures
        expr_wf(e, len2, names2),
    decreases e,
{
    match e.node {
        SpecExpr_::List(es) => {
            assert forall|i: int| 0 <= i < es.len() implies expr_wf(#[trigger] es[i], len2, names2) by {
                assert(expr_wf(es[i], len, names));
                lemma_expr_wf_mono(es[i], len, names, len2, names2);
            }
        },
        SpecExpr_::Vector(es) => {
            assert forall|i: int| 0 <= i < es.len() implies expr_wf(#[trigger] es[i], len2, names2) by {
                assert(expr_wf(es[i], len, names));
                lemma_expr_wf_mono(es[i], len, names, len2, names2);
            }
        },
        _ => {},
    }
}

} // verus!
