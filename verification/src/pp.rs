//! Pretty printing.
//!
//! Renders a parsed expression back to canonical text: elements separated
//! by single spaces, and atoms reproduced from their source spans.
//! [`spec_pp`] is the mathematical model of the output.

use vstd::prelude::*;

use crate::ast::{Expr, Expr_, SpecExpr, SpecExpr_, expr_evalable, exprs_view, lemma_exprs_view};
use crate::codemap::Source;
use crate::text::{i64_to_string, spec_dec_i64};

verus! {

broadcast use {vstd::std_specs::vec::axiom_vec_index_decreases, vstd::seq::axiom_seq_index_decreases};

/// The canonical text of an expression: booleans, integers and `nil` from
/// their values, strings, symbols and operators from their source spans,
/// and lists and vectors from their elements joined by single spaces.
pub open spec fn spec_pp(e: SpecExpr, src: Seq<char>) -> Seq<char>
    decreases e, 0int,
{
    match e.node {
        SpecExpr_::Bool(b) => if b {
            "true"@
        } else {
            "false"@
        },
        SpecExpr_::Integer(v) => spec_dec_i64(v),
        SpecExpr_::List(es) => seq!['('] + spec_pp_elems(es, 0, src) + seq![')'],
        SpecExpr_::Nil => "nil"@,
        SpecExpr_::Operator(_) => src.subrange(e.span.lo as int, e.span.hi as int),
        SpecExpr_::String => src.subrange(e.span.lo as int, e.span.hi as int),
        SpecExpr_::Symbol(_) => src.subrange(e.span.lo as int, e.span.hi as int),
        SpecExpr_::Vector(es) => seq!['['] + spec_pp_elems(es, 0, src) + seq![']'],
    }
}

/// The elements from index `i` on, joined by single spaces.
pub open spec fn spec_pp_elems(es: Seq<SpecExpr>, i: int, src: Seq<char>) -> Seq<char>
    decreases es, es.len() - i, 1int,
{
    if i < 0 || i >= es.len() {
        Seq::empty()
    } else if i == es.len() - 1 {
        spec_pp(es[i], src)
    } else {
        spec_pp(es[i], src) + seq![' '] + spec_pp_elems(es, i + 1, src)
    }
}

/// Round trip for atoms: when the whole text is one atom token (an
/// integer whose value fits in 64 bits and carries no redundant leading
/// zero, a string literal, or a symbol — including `true`, `false` and
/// `nil`), parsing succeeds and pretty-printing the parsed expression
/// reproduces the text exactly.
pub proof fn lemma_roundtrip_atom(src: Seq<char>, names: Seq<Seq<char>>)
    requires
        1 <= src.len() <= usize::MAX,
        crate::interner::table_wf(names),
        crate::lexer::spec_token_at(src, 0) matches Ok(t) && t.span.hi == src.len() && (t.node
            is Integer || t.node is String || t.node is Symbol),
        crate::lexer::spec_token_at(src, 0)->Ok_0.node is Integer ==> {
            &&& crate::parse::dec_value(src) <= i64::MAX
            &&& (src[0] != '0' || src.len() == 1)
        },
    ensures
        ({
            let (r, names2) = crate::parse::spec_parse(src, names);
            r matches Ok(e) && spec_pp(e, src) == src
        }),
{
    let t = crate::lexer::spec_token_at(src, 0)->Ok_0;
    crate::lexer::lemma_token_at_bounds(src, 0);
    let hi = t.span.hi as int;
    assert(hi == src.len());
    assert(src.subrange(0, hi) =~= src);
    match t.node {
        crate::lexer::Token_::Integer => {
            crate::parse::lemma_integer_token_digits(src, 0);
            let digits = src.subrange(0, hi);
            assert(forall|j: int|
                0 <= j < digits.len() ==> crate::lexer::char_is_digit(#[trigger] digits[j]));
            crate::parse::lemma_dec_value_nonneg(digits);
            crate::parse::lemma_dec_roundtrip(digits);
        },
        _ => {},
    }
}

/// Pretty prints an expression.
pub fn expr(e: &Expr, source: &Source) -> (out: String)
    requires
        expr_evalable(e@, source@.len()),
    ensures
        out@ == spec_pp(e@, source@),
{
    let mut string = String::new();
    expr_(&mut string, e, source);
    string
}

/// Appends the canonical text of `e` to `string`.
fn expr_(string: &mut String, e: &Expr, source: &Source)
    requires
        expr_evalable(e@, source@.len()),
    ensures
        final(string)@ == old(string)@ + spec_pp(e@, source@),
    decreases e, 0int, 0int,
{
    proof {
        reveal_strlit("true");
        reveal_strlit("false");
        reveal_strlit("nil");
        reveal_strlit("(");
        reveal_strlit(")");
        reveal_strlit("[");
        reveal_strlit("]");
    }
    match &e.node {
        Expr_::Bool(b) => {
            if *b {
                string.append("true");
                proof {
                    assert(string@ =~= old(string)@ + "true"@);
                }
            } else {
                string.append("false");
                proof {
                    assert(string@ =~= old(string)@ + "false"@);
                }
            }
        },
        Expr_::Integer(i) => {
            let text = i64_to_string(*i);
            string.append(text.as_str());
        },
        Expr_::Nil => {
            string.append("nil");
        },
        Expr_::Operator(_) => {
            string.append(source.slice(e.span));
        },
        Expr_::String => {
            string.append(source.slice(e.span));
        },
        Expr_::Symbol(_) => {
            string.append(source.slice(e.span));
        },
        Expr_::List(es) => {
            proof {
                elems_evalable(*es, e@, source@.len());
            }
            string.append("(");
            pp_elems(string, es, 0, source);
            string.append(")");
            proof {
                assert(string@ =~= old(string)@ + spec_pp(e@, source@));
            }
        },
        Expr_::Vector(es) => {
            proof {
                elems_evalable(*es, e@, source@.len());
            }
            string.append("[");
            pp_elems(string, es, 0, source);
            string.append("]");
            proof {
                assert(string@ =~= old(string)@ + spec_pp(e@, source@));
            }
        },
    }
}

/// The elements of an evaluable list or vector are evaluable.
proof fn elems_evalable(es: Vec<Expr>, e: SpecExpr, len: nat)
    requires
        expr_evalable(e, len),
        e.node == SpecExpr_::List(exprs_view(es, es.len() as int)) || e.node
            == SpecExpr_::Vector(exprs_view(es, es.len() as int)),
    ensures
        forall|j: int| 0 <= j < es@.len() ==> expr_evalable(#[trigger] es@[j]@, len),
{
    lemma_exprs_view(es, es.len() as int);
    let ses = exprs_view(es, es.len() as int);
    assert forall|j: int| 0 <= j < es@.len() implies expr_evalable(#[trigger] es@[j]@, len) by {
        assert(ses[j] == es@[j]@);
        assert(expr_evalable(ses[j], len));
    }
}

/// Appends the elements from index `i` on, joined by single spaces.
fn pp_elems(string: &mut String, es: &Vec<Expr>, i: usize, source: &Source)
    requires
        i <= es@.len(),
        forall|j: int| i <= j < es@.len() ==> expr_evalable(#[trigger] es@[j]@, source@.len()),
    ensures
        final(string)@ == old(string)@ + spec_pp_elems(
            exprs_view(*es, es@.len() as int),
            i as int,
            source@,
        ),
    decreases es, es@.len() - i, 1int,
{
    proof {
        reveal_strlit(" ");
        lemma_exprs_view(*es, es@.len() as int);
    }
    if i >= es.len() {
        proof {
            assert(string@ =~= old(string)@ + Seq::<char>::empty());
        }
        return ;
    }
    expr_(string, &es[i], source);
    if i + 1 < es.len() {
        string.append(" ");
        pp_elems(string, es, i + 1, source);
        proof {
            assert(string@ =~= old(string)@ + spec_pp_elems(
                exprs_view(*es, es@.len() as int),
                i as int,
                source@,
            ));
        }
    } else {
        proof {
            assert(string@ =~= old(string)@ + spec_pp_elems(
                exprs_view(*es, es@.len() as int),
                i as int,
                source@,
            ));
        }
    }
}

} // verus!
