//! Parser.
//!
//! A recursive-descent consumer of the token stream that turns one line of
//! source text into exactly one spanned, symbol-interned expression.
//! [`spec_parse`] is the mathematical model: the parse of a character
//! sequence together with the interner table it leaves behind.

use vstd::prelude::*;

use crate::ast::{
    expr_wf, spec_operator_of, Expr, Expr_, Operator, SpecExpr, SpecExpr_,
    exprs_view, lemma_exprs_view,
};
use crate::codemap::{Source, Span, Spanned};
use crate::interner::{spec_intern, table_wf, Interner, Symbol};
use crate::lexer::{
    char_is_digit, scan_while, sp, spec_token_at, token_at, lemma_token_at_bounds, Delim,
    Token_,
};
use crate::syntax::{Error, Error_};
use crate::text::str_eq;

verus! {

/// The numeric value of a decimal digit character.
pub open spec fn dec_digit_val(c: char) -> int {
    (c as u32) - 48
}

/// The value of a sequence of decimal digit characters, most significant
/// digit first.
pub open spec fn dec_value(digits: Seq<char>) -> int
    decreases digits.len(),
{
    if digits.len() == 0 {
        0
    } else {
        dec_value(digits.drop_last()) * 10 + dec_digit_val(digits.last())
    }
}

/// The next position after consuming a token that claims to end at `x`:
/// tokens always advance, so this is `x` itself; the clamp keeps the
/// parsing measure well-founded without appealing to that fact.
pub open spec fn advance(p: int, x: int, len: int) -> int {
    if p < x && x <= len {
        x
    } else {
        p + 1
    }
}

/// The parse of one expression starting at position `p`.
///
/// Returns the parsed expression model and the position just after it (or
/// the syntax error), together with the interner table extended by every
/// symbol the expression interned.  At the very end of the text the empty
/// input parses as `nil`.
pub open spec fn spec_parse_expr(s: Seq<char>, p: int, names: Seq<Seq<char>>) -> (
    Result<(SpecExpr, int), Error>,
    Seq<Seq<char>>,
)
    decreases s.len() - p, 0int,
{
    let len = s.len() as int;
    if p < 0 || p >= len {
        (Ok((SpecExpr { node: SpecExpr_::Nil, span: Span { lo: p as usize, hi: p as usize } }, p)), names)
    } else {
        match spec_token_at(s, p) {
            Err(e) => (Err(e), names),
            Ok(t) => {
                let hi = t.span.hi as int;
                let p2 = advance(p, hi, len);
                match t.node {
                    Token_::Whitespace => spec_parse_expr(s, p2, names),
                    Token_::Integer => {
                        let v = dec_value(s.subrange(p, hi));
                        if v > i64::MAX {
                            (Err(sp(p, hi, Error_::IntegerTooLarge)), names)
                        } else {
                            (
                                Ok((SpecExpr { node: SpecExpr_::Integer(v), span: t.span }, hi)),
                                names,
                            )
                        }
                    },
                    Token_::String => (
                        Ok((SpecExpr { node: SpecExpr_::String, span: t.span }, hi)),
                        names,
                    ),
                    Token_::Symbol => {
                        let text = s.subrange(p, hi);
                        if text == "false"@ {
                            (Ok((SpecExpr { node: SpecExpr_::Bool(false), span: t.span }, hi)), names)
                        } else if text == "nil"@ {
                            (Ok((SpecExpr { node: SpecExpr_::Nil, span: t.span }, hi)), names)
                        } else if text == "true"@ {
                            (Ok((SpecExpr { node: SpecExpr_::Bool(true), span: t.span }, hi)), names)
                        } else {
                            let (names2, ix) = spec_intern(names, text);
                            (Ok((SpecExpr { node: SpecExpr_::Symbol(ix), span: t.span }, hi)), names2)
                        }
                    },
                    Token_::Open(Delim::Paren) => {
                        match spec_parse_seq(s, p2, names, Delim::Paren, true, true) {
                            (Ok((els, close_hi)), names2) => (
                                Ok((
                                    SpecExpr {
                                        node: SpecExpr_::List(els),
                                        span: Span { lo: p as usize, hi: close_hi as usize },
                                    },
                                    close_hi,
                                )),
                                names2,
                            ),
                            (Err(e), names2) => (Err(e), names2),
                        }
                    },
                    Token_::Open(Delim::Bracket) => {
                        match spec_parse_seq(s, p2, names, Delim::Bracket, false, true) {
                            (Ok((els, close_hi)), names2) => (
                                Ok((
                                    SpecExpr {
                                        node: SpecExpr_::Vector(els),
                                        span: Span { lo: p as usize, hi: close_hi as usize },
                                    },
                                    close_hi,
                                )),
                                names2,
                            ),
                            (Err(e), names2) => (Err(e), names2),
                        }
                    },
                    Token_::Open(Delim::Brace) => (
                        (Err(sp(p, hi, Error_::IncorrectCloseDelimiter)), names)
                    ),
                    Token_::Close(_) => (
                        (Err(sp(p, hi, Error_::IncorrectCloseDelimiter)), names)
                    ),
                }
            },
        }
    }
}

/// The parse of the elements of a sequence up to the matching `close`
/// delimiter.
///
/// Returns the element models together with the position just after the
/// closing delimiter.  While the sequence is still empty (`first`) and the
/// sequence accepts an operator (`accept_op`, true only for lists), a
/// symbol token whose text names a special operator becomes an `Operator`
/// element; anywhere else that text is an ordinary symbol.  Reaching the
/// end of the text inside the sequence is `UnclosedDelimiter`, and a
/// close delimiter other than `close` is `IncorrectCloseDelimiter`.
pub open spec fn spec_parse_seq(
    s: Seq<char>,
    p: int,
    names: Seq<Seq<char>>,
    close: Delim,
    accept_op: bool,
    first: bool,
) -> (Result<(Seq<SpecExpr>, int), Error>, Seq<Seq<char>>)
    decreases s.len() - p, 2int,
{
    let len = s.len() as int;
    if p < 0 || p >= len {
        (Err(sp(p, p, Error_::UnclosedDelimiter)), names)
    } else {
        match spec_token_at(s, p) {
            Err(e) => (Err(e), names),
            Ok(t) => {
                let hi = t.span.hi as int;
                let p2 = advance(p, hi, len);
                if t.node is Symbol && accept_op && first
                    && spec_operator_of(s.subrange(p, hi)) is Some {
                    let op = spec_operator_of(s.subrange(p, hi))->Some_0;
                    let el = SpecExpr { node: SpecExpr_::Operator(op), span: t.span };
                    match spec_parse_seq(s, p2, names, close, accept_op, false) {
                        (Ok((rest, close_hi)), names2) => (
                            Ok((seq![el] + rest, close_hi)),
                            names2,
                        ),
                        (Err(e), names2) => (Err(e), names2),
                    }
                } else {
                    match t.node {
                        Token_::Close(d) => {
                            if d == close {
                                (Ok((Seq::empty(), hi)), names)
                            } else {
                                (Err(sp(p, hi, Error_::IncorrectCloseDelimiter)), names)
                            }
                        },
                        Token_::Whitespace => spec_parse_seq(s, p2, names, close, accept_op, first),
                        _ => {
                            match spec_parse_elem(s, p, names, close, accept_op) {
                                (Ok((el, rest, close_hi)), names2) => (
                                    Ok((seq![el] + rest, close_hi)),
                                    names2,
                                ),
                                (Err(e), names2) => (Err(e), names2),
                            }
                        },
                    }
                }
            },
        }
    }
}

/// One non-operator element of a sequence followed by the rest of the
/// sequence.
pub open spec fn spec_parse_elem(
    s: Seq<char>,
    p: int,
    names: Seq<Seq<char>>,
    close: Delim,
    accept_op: bool,
) -> (Result<(SpecExpr, Seq<SpecExpr>, int), Error>, Seq<Seq<char>>)
    decreases s.len() - p, 1int,
{
    let len = s.len() as int;
    if p < 0 || p >= len {
        // never reached: a sequence looks at its next token first
        (Err(sp(p, p, Error_::UnclosedDelimiter)), names)
    } else {
        match spec_parse_expr(s, p, names) {
            (Err(e), names2) => (Err(e), names2),
            (Ok((el, q)), names2) => {
                let q2 = advance(p, q, len);
                match spec_parse_seq(s, q2, names2, close, accept_op, false) {
                    (Ok((rest, close_hi)), names3) => (Ok((el, rest, close_hi)), names3),
                    (Err(e), names3) => (Err(e), names3),
                }
            },
        }
    }
}

/// The value of a digit run is never negative.
pub proof fn lemma_dec_value_nonneg(digits: Seq<char>)
    requires
        forall|j: int| 0 <= j < digits.len() ==> char_is_digit(#[trigger] digits[j]),
    ensures
        dec_value(digits) >= 0,
    decreases digits.len(),
{
    if digits.len() > 0 {
        lemma_dec_value_nonneg(digits.drop_last());
    }
}

/// Extending a digit run on the right never shrinks its value.
pub proof fn lemma_dec_value_prefix_le(digits: Seq<char>, k: int)
    requires
        forall|j: int| 0 <= j < digits.len() ==> char_is_digit(#[trigger] digits[j]),
        0 <= k <= digits.len(),
    ensures
        dec_value(digits.subrange(0, k)) <= dec_value(digits),
    decreases digits.len() - k,
{
    if k < digits.len() {
        lemma_dec_value_prefix_le(digits, k + 1);
        let a = digits.subrange(0, k);
        let b = digits.subrange(0, k + 1);
        assert(b.drop_last() =~= a);
        assert(forall|j: int| 0 <= j < a.len() ==> char_is_digit(#[trigger] a[j]));
        lemma_dec_value_nonneg(a);
        assert(dec_value(b) == dec_value(a) * 10 + dec_digit_val(digits[k]));
        assert(dec_value(a) * 10 >= dec_value(a)) by (nonlinear_arith)
            requires
                dec_value(a) >= 0,
        ;
    } else {
        assert(digits.subrange(0, k) =~= digits);
    }
}

/// The character with code point 48 is the digit zero.
proof fn lemma_code_48_is_zero(c: char)
    requires
        c as u32 == 48,
    ensures
        c == '0',
{
}

/// The digit character of a digit's value is that digit.
pub proof fn lemma_dec_digit_of_val(c: char)
    requires
        char_is_digit(c),
    ensures
        crate::text::dec_digit(dec_digit_val(c)) == c,
{
}

/// A digit run without a leading zero has a positive value.
pub proof fn lemma_dec_value_pos(digits: Seq<char>)
    requires
        forall|j: int| 0 <= j < digits.len() ==> char_is_digit(#[trigger] digits[j]),
        digits.len() >= 1,
        digits[0] != '0',
    ensures
        dec_value(digits) >= 1,
    decreases digits.len(),
{
    if digits.len() == 1 {
        if digits[0] as u32 == 48 {
            lemma_code_48_is_zero(digits[0]);
        }
        assert((digits[0] as u32) > 48);
        assert(dec_value(digits.drop_last()) == 0);
        assert(dec_value(digits) == dec_digit_val(digits[0]));
    } else {
        let s = digits.drop_last();
        assert(forall|j: int| 0 <= j < s.len() ==> char_is_digit(#[trigger] s[j]));
        lemma_dec_value_pos(s);
    }
}

/// Printing the value of a digit run reproduces the run, provided it does
/// not start with a redundant leading zero.
pub proof fn lemma_dec_roundtrip(digits: Seq<char>)
    requires
        forall|j: int| 0 <= j < digits.len() ==> char_is_digit(#[trigger] digits[j]),
        digits.len() >= 1,
        digits[0] != '0' || digits.len() == 1,
    ensures
        crate::text::spec_dec_nat(dec_value(digits)) == digits,
    decreases digits.len(),
{
    let v = dec_value(digits);
    if digits.len() == 1 {
        let c = digits[0];
        assert(48 <= (c as u32) <= 57);
        assert(dec_value(digits.drop_last()) == 0);
        assert(v == dec_digit_val(c));
        lemma_dec_digit_of_val(c);
        assert(crate::text::spec_dec_nat(v) =~= digits);
    } else {
        let s = digits.drop_last();
        let c = digits.last();
        let d = dec_digit_val(c);
        assert(forall|j: int| 0 <= j < s.len() ==> char_is_digit(#[trigger] s[j]));
        lemma_dec_value_pos(s);
        lemma_dec_roundtrip(s);
        let vp = dec_value(s);
        assert(v == vp * 10 + d);
        assert(0 <= d <= 9);
        assert(v >= 10) by (nonlinear_arith)
            requires
                vp >= 1,
                d >= 0,
                v == vp * 10 + d,
        ;
        assert(v / 10 == vp && v % 10 == d) by (nonlinear_arith)
            requires
                0 <= d <= 9,
                vp >= 0,
                v == vp * 10 + d,
        ;
        lemma_dec_digit_of_val(c);
        assert(crate::text::spec_dec_nat(v) == crate::text::spec_dec_nat(vp).push(
            crate::text::dec_digit(d),
        ));
        assert(crate::text::spec_dec_nat(v) =~= digits);
    }
}

/// An `Integer` token covers a run of decimal digit characters.
pub proof fn lemma_integer_token_digits(s: Seq<char>, p: int)
    requires
        0 <= p < s.len(),
        s.len() <= usize::MAX,
        spec_token_at(s, p) matches Ok(t) && t.node is Integer,
    ensures
        ({
            let t = spec_token_at(s, p)->Ok_0;
            forall|j: int|
                p <= j < t.span.hi as int ==> char_is_digit(#[trigger] s[j])
        }),
{
    crate::lexer::lemma_token_at_bounds(s, p);
    crate::lexer::lemma_scan_while_run(s, p + 1, crate::lexer::pred_digit());
    crate::lexer::lemma_scan_while_bounds(s, p + 1, crate::lexer::pred_digit());
    let t = spec_token_at(s, p)->Ok_0;
    let hi = t.span.hi as int;
    assert(char_is_digit(s[p]));
    assert(hi == scan_while(s, p + 1, crate::lexer::pred_digit()));
    assert forall|j: int| p + 1 <= j < hi implies char_is_digit(#[trigger] s[j]) by {
        assert(crate::lexer::pred_digit()(s[j]));
    }
}

/// A symbol or integer token never contains a comma, so its text is
/// unchanged when a comma elsewhere is read as a space.
proof fn lemma_token_text_update(s: Seq<char>, k: int, p: int)
    requires
        0 <= k < s.len(),
        s[k] == ',',
        0 <= p < s.len(),
        s.len() <= usize::MAX,
        spec_token_at(s, p) matches Ok(t) && (t.node is Symbol || t.node is Integer),
    ensures
        ({
            let t = spec_token_at(s, p)->Ok_0;
            s.update(k, ' ').subrange(p, t.span.hi as int) == s.subrange(p, t.span.hi as int)
        }),
{
    let s2 = s.update(k, ' ');
    let t = spec_token_at(s, p)->Ok_0;
    let hi = t.span.hi as int;
    lemma_token_at_bounds(s, p);
    if t.node is Integer {
        lemma_integer_token_digits(s, p);
        if p <= k < hi {
            assert(char_is_digit(s[k]));
            assert(false);
        }
    } else {
        crate::lexer::lemma_scan_while_run(s, p + 1, crate::lexer::pred_symbol_part());
        crate::lexer::lemma_scan_while_bounds(s, p + 1, crate::lexer::pred_symbol_part());
        assert(crate::lexer::char_is_start_of_symbol(s[p]));
        if p <= k < hi {
            if k > p {
                assert(crate::lexer::pred_symbol_part()(s[k]));
            }
            assert(false);
        }
    }
    assert(s2.subrange(p, hi) =~= s.subrange(p, hi));
}

/// Parsing one expression cannot tell a comma from a space.
pub proof fn lemma_parse_expr_update(s: Seq<char>, k: int, p: int, names: Seq<Seq<char>>)
    requires
        0 <= k < s.len(),
        s[k] == ',',
        0 <= p <= s.len(),
        s.len() <= usize::MAX,
    ensures
        spec_parse_expr(s.update(k, ' '), p, names) == spec_parse_expr(s, p, names),
    decreases s.len() - p, 0int,
{
    let s2 = s.update(k, ' ');
    if p < s.len() {
        crate::lexer::lemma_token_at_update(s, k, p);
        lemma_token_at_bounds(s, p);
        match spec_token_at(s, p) {
            Err(_) => {},
            Ok(t) => {
                let hi = t.span.hi as int;
                let p2 = advance(p, hi, s.len() as int);
                match t.node {
                    Token_::Whitespace => {
                        lemma_parse_expr_update(s, k, p2, names);
                    },
                    Token_::Integer => {
                        lemma_token_text_update(s, k, p);
                    },
                    Token_::Symbol => {
                        lemma_token_text_update(s, k, p);
                    },
                    Token_::Open(Delim::Paren) => {
                        lemma_parse_seq_update(s, k, p2, names, Delim::Paren, true, true);
                    },
                    Token_::Open(Delim::Bracket) => {
                        lemma_parse_seq_update(s, k, p2, names, Delim::Bracket, false, true);
                    },
                    _ => {},
                }
            },
        }
    }
}

/// Parsing a sequence cannot tell a comma from a space.
pub proof fn lemma_parse_seq_update(
    s: Seq<char>,
    k: int,
    p: int,
    names: Seq<Seq<char>>,
    close: Delim,
    accept_op: bool,
    first: bool,
)
    requires
        0 <= k < s.len(),
        s[k] == ',',
        0 <= p <= s.len(),
        s.len() <= usize::MAX,
    ensures
        spec_parse_seq(s.update(k, ' '), p, names, close, accept_op, first) == spec_parse_seq(
            s,
            p,
            names,
            close,
            accept_op,
            first,
        ),
    decreases s.len() - p, 2int,
{
    let s2 = s.update(k, ' ');
    if p < s.len() {
        crate::lexer::lemma_token_at_update(s, k, p);
        lemma_token_at_bounds(s, p);
        match spec_token_at(s, p) {
            Err(_) => {},
            Ok(t) => {
                let hi = t.span.hi as int;
                let p2 = advance(p, hi, s.len() as int);
                if t.node is Symbol {
                    lemma_token_text_update(s, k, p);
                }
                if t.node is Symbol && accept_op && first && spec_operator_of(
                    s.subrange(p, hi),
                ) is Some {
                    lemma_parse_seq_update(s, k, p2, names, close, accept_op, false);
                } else {
                    match t.node {
                        Token_::Close(_) => {},
                        Token_::Whitespace => {
                            lemma_parse_seq_update(s, k, p2, names, close, accept_op, first);
                        },
                        _ => {
                            lemma_parse_elem_update(s, k, p, names, close, accept_op);
                        },
                    }
                }
            },
        }
    }
}

/// Parsing one sequence element cannot tell a comma from a space.
pub proof fn lemma_parse_elem_update(
    s: Seq<char>,
    k: int,
    p: int,
    names: Seq<Seq<char>>,
    close: Delim,
    accept_op: bool,
)
    requires
        0 <= k < s.len(),
        s[k] == ',',
        0 <= p <= s.len(),
        s.len() <= usize::MAX,
    ensures
        spec_parse_elem(s.update(k, ' '), p, names, close, accept_op) == spec_parse_elem(
            s,
            p,
            names,
            close,
            accept_op,
        ),
    decreases s.len() - p, 1int,
{
    let s2 = s.update(k, ' ');
    if p < s.len() {
        lemma_parse_expr_update(s, k, p, names);
        match spec_parse_expr(s, p, names) {
            (Err(_), _) => {},
            (Ok((el, q)), names2) => {
                let q2 = advance(p, q, s.len() as int);
                lemma_parse_seq_update(s, k, q2, names2, close, accept_op, false);
            },
        }
    }
}

/// The trailing check cannot tell a comma from a space.
pub proof fn lemma_trailing_update(s: Seq<char>, k: int, p: int)
    requires
        0 <= k < s.len(),
        s[k] == ',',
        s.len() <= usize::MAX,
    ensures
        spec_trailing(s.update(k, ' '), p) == spec_trailing(s, p),
    decreases s.len() - p,
{
    if 0 <= p && p < s.len() {
        crate::lexer::lemma_token_at_update(s, k, p);
        lemma_token_at_bounds(s, p);
        match spec_token_at(s, p) {
            Err(_) => {},
            Ok(t) => {
                if t.node is Whitespace {
                    lemma_trailing_update(s, k, advance(p, t.span.hi as int, s.len() as int));
                }
            },
        }
    }
}

/// Commas are insignificant: reading any comma of the source as a space
/// leaves the parse — the resulting tree, its spans, every interned
/// symbol, or the error — exactly as it was.
pub proof fn lemma_comma_insignificant(s: Seq<char>, k: int, names: Seq<Seq<char>>)
    requires
        0 <= k < s.len(),
        s[k] == ',',
        s.len() <= usize::MAX,
    ensures
        spec_parse(s.update(k, ' '), names) == spec_parse(s, names),
{
    lemma_parse_expr_update(s, k, 0, names);
    match spec_parse_expr(s, 0, names) {
        (Err(_), _) => {},
        (Ok((e1, q)), names2) => {
            lemma_trailing_update(s, k, q);
        },
    }
}

/// What [`lemma_parse_expr_props`] guarantees of an expression parse.
pub open spec fn parse_expr_props(
    s: Seq<char>,
    p: int,
    names: Seq<Seq<char>>,
) -> bool {
    let (r, names2) = spec_parse_expr(s, p, names);
    &&& table_wf(names2)
    &&& names.is_prefix_of(names2)
    &&& match r {
        Ok((e, q)) => {
            &&& p <= q <= s.len()
            &&& (p < s.len() ==> p < q)
            &&& expr_wf(e, s.len() as nat, names2.len())
            &&& !(e.node is Operator)
        },
        Err(err) => err.span.lo <= err.span.hi <= s.len() && err.span.hi >= 1,
    }
}

/// What [`lemma_parse_seq_props`] guarantees of a sequence parse.
pub open spec fn parse_seq_props(
    s: Seq<char>,
    p: int,
    names: Seq<Seq<char>>,
    close: Delim,
    accept_op: bool,
    first: bool,
) -> bool {
    let (r, names2) = spec_parse_seq(s, p, names, close, accept_op, first);
    &&& table_wf(names2)
    &&& names.is_prefix_of(names2)
    &&& match r {
        Ok((els, close_hi)) => {
            &&& p < close_hi <= s.len()
            &&& forall|i: int|
                0 <= i < els.len() ==> expr_wf(#[trigger] els[i], s.len() as nat, names2.len())
            &&& forall|i: int| 1 <= i < els.len() ==> !(#[trigger] els[i].node is Operator)
            &&& !(accept_op && first) ==> forall|i: int|
                0 <= i < els.len() ==> !(#[trigger] els[i].node is Operator)
        },
        Err(err) => err.span.lo <= err.span.hi <= s.len() && err.span.hi >= 1,
    }
}

/// The guarantees of an expression parse: the interner table stays
/// well formed and only grows, the parse makes progress, a parsed
/// expression is well formed and is never a bare operator, and an error
/// span stays inside the text.
pub proof fn lemma_parse_expr_props(s: Seq<char>, p: int, names: Seq<Seq<char>>)
    requires
        0 <= p <= s.len(),
        s.len() <= usize::MAX,
        table_wf(names),
    ensures
        parse_expr_props(s, p, names),
    decreases s.len() - p, 0int,
{
    let len = s.len() as int;
    if p < len {
        lemma_token_at_bounds(s, p);
        match spec_token_at(s, p) {
            Err(e) => {},
            Ok(t) => {
                let hi = t.span.hi as int;
                let p2 = advance(p, hi, len);
                match t.node {
                    Token_::Whitespace => {
                        lemma_parse_expr_props(s, p2, names);
                    },
                    Token_::Integer => {
                        lemma_integer_token_digits(s, p);
                        let digits = s.subrange(p, hi);
                        assert(forall|j: int|
                            0 <= j < digits.len() ==> char_is_digit(#[trigger] digits[j]));
                        lemma_dec_value_nonneg(digits);
                    },
                    Token_::Symbol => {
                        let text = s.subrange(p, hi);
                        if text == "false"@ || text == "nil"@ || text == "true"@ {
                        } else {
                            crate::interner::lemma_intern_idempotent(names, text);
                            let (names2, ix) = spec_intern(names, text);
                            if table_wf(names) && !crate::interner::table_contains(names, text) {
                                assert(names.is_prefix_of(names.push(text)));
                            }
                        }
                    },
                    Token_::Open(Delim::Paren) => {
                        lemma_parse_seq_props(s, p2, names, Delim::Paren, true, true);
                    },
                    Token_::Open(Delim::Bracket) => {
                        lemma_parse_seq_props(s, p2, names, Delim::Bracket, false, true);
                    },
                    _ => {},
                }
            },
        }
    }
    assert(names.is_prefix_of(names));
}

/// The guarantees of a sequence parse; see [`parse_seq_props`].
pub proof fn lemma_parse_seq_props(
    s: Seq<char>,
    p: int,
    names: Seq<Seq<char>>,
    close: Delim,
    accept_op: bool,
    first: bool,
)
    requires
        1 <= p <= s.len(),
        s.len() <= usize::MAX,
        table_wf(names),
    ensures
        parse_seq_props(s, p, names, close, accept_op, first),
    decreases s.len() - p, 2int,
{
    let len = s.len() as int;
    if p >= len {
        assert(names.is_prefix_of(names));
    } else {
        lemma_token_at_bounds(s, p);
        match spec_token_at(s, p) {
            Err(e) => {
                assert(names.is_prefix_of(names));
            },
            Ok(t) => {
                let hi = t.span.hi as int;
                let p2 = advance(p, hi, len);
                if t.node is Symbol && accept_op && first
                    && spec_operator_of(s.subrange(p, hi)) is Some {
                    let op = spec_operator_of(s.subrange(p, hi))->Some_0;
                    let el = SpecExpr { node: SpecExpr_::Operator(op), span: t.span };
                    lemma_parse_seq_props(s, p2, names, close, accept_op, false);
                    let (r2, names2) = spec_parse_seq(s, p2, names, close, accept_op, false);
                    match r2 {
                        Ok((rest, close_hi)) => {
                            let els = seq![el] + rest;
                            assert(expr_wf(el, s.len() as nat, names2.len()));
                            assert forall|i: int| 0 <= i < els.len() implies expr_wf(
                                #[trigger] els[i],
                                s.len() as nat,
                                names2.len(),
                            ) by {
                                if i > 0 {
                                    assert(els[i] == rest[i - 1]);
                                }
                            }
                            assert forall|i: int| 1 <= i < els.len() implies !(
                            #[trigger] els[i].node is Operator) by {
                                assert(els[i] == rest[i - 1]);
                            }
                        },
                        Err(_) => {},
                    }
                } else {
                    match t.node {
                        Token_::Close(d) => {
                            assert(names.is_prefix_of(names));
                        },
                        Token_::Whitespace => {
                            lemma_parse_seq_props(s, p2, names, close, accept_op, first);
                        },
                        _ => {
                            lemma_parse_elem_props(s, p, names, close, accept_op);
                            let (r2, names2) = spec_parse_elem(s, p, names, close, accept_op);
                            match r2 {
                                Ok((el, rest, close_hi)) => {
                                    let els = seq![el] + rest;
                                    assert forall|i: int| 0 <= i < els.len() implies expr_wf(
                                        #[trigger] els[i],
                                        s.len() as nat,
                                        names2.len(),
                                    ) by {
                                        if i > 0 {
                                            assert(els[i] == rest[i - 1]);
                                        }
                                    }
                                    assert forall|i: int| 1 <= i < els.len() implies !(
                                    #[trigger] els[i].node is Operator) by {
                                        assert(els[i] == rest[i - 1]);
                                    }
                                },
                                Err(_) => {},
                            }
                        },
                    }
                }
            },
        }
    }
}

/// What [`lemma_parse_elem_props`] guarantees of an element parse.
pub open spec fn parse_elem_props(
    s: Seq<char>,
    p: int,
    names: Seq<Seq<char>>,
    close: Delim,
    accept_op: bool,
) -> bool {
    let (r, names2) = spec_parse_elem(s, p, names, close, accept_op);
    &&& table_wf(names2)
    &&& names.is_prefix_of(names2)
    &&& match r {
        Ok((el, rest, close_hi)) => {
            &&& p < close_hi <= s.len()
            &&& expr_wf(el, s.len() as nat, names2.len())
            &&& !(el.node is Operator)
            &&& forall|i: int|
                0 <= i < rest.len() ==> expr_wf(#[trigger] rest[i], s.len() as nat, names2.len())
            &&& forall|i: int| 0 <= i < rest.len() ==> !(#[trigger] rest[i].node is Operator)
        },
        Err(err) => err.span.lo <= err.span.hi <= s.len() && err.span.hi >= 1,
    }
}

/// The guarantees of an element parse; see [`parse_elem_props`].
pub proof fn lemma_parse_elem_props(
    s: Seq<char>,
    p: int,
    names: Seq<Seq<char>>,
    close: Delim,
    accept_op: bool,
)
    requires
        1 <= p <= s.len(),
        s.len() <= usize::MAX,
        table_wf(names),
    ensures
        parse_elem_props(s, p, names, close, accept_op),
    decreases s.len() - p, 1int,
{
    let len = s.len() as int;
    if p < len {
        lemma_parse_expr_props(s, p, names);
        let (r1, names2) = spec_parse_expr(s, p, names);
        match r1 {
            Err(_) => {},
            Ok((el, q)) => {
                let q2 = advance(p, q, len);
                lemma_parse_seq_props(s, q2, names2, close, accept_op, false);
                let (r2, names3) = spec_parse_seq(s, q2, names2, close, accept_op, false);
                assert(names.is_prefix_of(names3)) by {
                    assert(names.is_prefix_of(names2));
                    assert(names2.is_prefix_of(names3));
                    assert forall|i: int| 0 <= i < names.len() implies names3[i] == names[i] by {
                        assert(names[i] == names2.subrange(0, names.len() as int)[i]);
                        assert(names2[i] == names3.subrange(0, names2.len() as int)[i]);
                    }
                    assert(names =~= names3.subrange(0, names.len() as int));
                }
                match r2 {
                    Ok((rest, close_hi)) => {
                        crate::ast::lemma_expr_wf_mono(
                            el,
                            s.len() as nat,
                            names2.len(),
                            s.len() as nat,
                            names3.len(),
                        );
                    },
                    Err(_) => {},
                }
            },
        }
    } else {
        assert(names.is_prefix_of(names));
    }
}

/// The first error in the trailing tokens after a complete expression:
/// whitespace may follow it, and anything else (a further token or a
/// lexical error) is `ExpectedEndOfLine` at its span.
pub open spec fn spec_trailing(s: Seq<char>, p: int) -> Option<Error>
    decreases s.len() - p,
{
    let len = s.len() as int;
    if p < 0 || p >= len {
        None
    } else {
        match spec_token_at(s, p) {
            Err(e) => Some(Spanned { span: e.span, node: Error_::ExpectedEndOfLine }),
            Ok(t) => {
                let hi = t.span.hi as int;
                if t.node is Whitespace {
                    spec_trailing(s, advance(p, hi, len))
                } else {
                    Some(Spanned { span: t.span, node: Error_::ExpectedEndOfLine })
                }
            },
        }
    }
}

/// The parse of a whole line: exactly one expression, with nothing but
/// whitespace after it, and the interner table the parse leaves behind.
pub open spec fn spec_parse(s: Seq<char>, names: Seq<Seq<char>>) -> (
    Result<SpecExpr, Error>,
    Seq<Seq<char>>,
) {
    match spec_parse_expr(s, 0, names) {
        (Err(e), names2) => (Err(e), names2),
        (Ok((e1, q)), names2) => match spec_trailing(s, q) {
            None => (Ok(e1), names2),
            Some(err) => (Err(err), names2),
        },
    }
}

/// Parses the text of an `Integer` token, none if its value does not fit
/// in a signed 64-bit integer.  The text never carries a sign: a leading
/// `-` lexes as part of a symbol, not of an integer.
fn parse_int_text(text: &str) -> (r: Option<i64>)
    requires
        forall|j: int| 0 <= j < text@.len() ==> char_is_digit(#[trigger] text@[j]),
    ensures
        match r {
            Some(v) => v as int == dec_value(text@) && dec_value(text@) <= i64::MAX,
            None => dec_value(text@) > i64::MAX,
        },
{
    let limit: u64 = 9223372036854775807;
    let n = text.unicode_len();
    let mut acc: u64 = 0;
    let mut i: usize = 0;
    proof {
        assert(text@.subrange(0, 0) =~= Seq::<char>::empty());
    }
    while i < n
        invariant
            forall|j: int| 0 <= j < text@.len() ==> char_is_digit(#[trigger] text@[j]),
            n == text@.len(),
            limit == i64::MAX,
            0 <= i <= n,
            acc as int == dec_value(text@.subrange(0, i as int)),
            acc <= limit,
        decreases n - i,
    {
        let c = text.get_char(i);
        let u = c as u32;
        proof {
            assert(char_is_digit(text@[i as int]));
        }
        let d = (u - 48) as u64;
        proof {
            let a = text@.subrange(0, i as int);
            let b = text@.subrange(0, i as int + 1);
            assert(b.drop_last() =~= a);
            assert(b.last() == text@[i as int]);
            assert(dec_value(b) == dec_value(a) * 10 + d);
            vstd::arithmetic::div_mod::lemma_fundamental_div_mod((limit - d) as int, 10);
        }
        if acc > (limit - d) / 10 {
            proof {
                let b = text@.subrange(0, i as int + 1);
                assert(acc as int * 10 >= ((limit - d) / 10 + 1) * 10) by (nonlinear_arith)
                    requires
                        acc as int >= (limit - d) / 10 + 1,
                ;
                assert(dec_value(b) > limit);
                lemma_dec_value_prefix_le(text@, i as int + 1);
            }
            return None;
        }
        proof {
            assert(acc as int * 10 <= ((limit - d) / 10) * 10) by (nonlinear_arith)
                requires
                    acc as int <= (limit - d) / 10,
            ;
        }
        acc = acc * 10 + d;
        i += 1;
    }
    proof {
        assert(text@.subrange(0, n as int) =~= text@);
    }
    Some(acc as i64)
}

/// Parses the expression that starts at `pos`, returning it with the
/// position just after it; see [`spec_parse_expr`].
fn parse_expr_at(source: &Source, pos: usize, interner: &mut Interner) -> (r: Result<
    (Expr, usize),
    Error,
>)
    requires
        pos <= source@.len(),
        old(interner).wf(),
    ensures
        final(interner).wf(),
        ({
            let (sr, names2) = spec_parse_expr(source@, pos as int, old(interner)@);
            &&& final(interner)@ == names2
            &&& match (r, sr) {
                (Ok((e, q)), Ok((se, sq))) => e@ == se && q as int == sq,
                (Err(e), Err(se)) => e == se,
                _ => false,
            }
        }),
    decreases source@.len() - pos, 0int,
{
    let _len = source.len();
    match token_at(source, pos) {
        None => Ok((Spanned::new(pos, pos, Expr_::Nil), pos)),
        Some(Err(e)) => Err(e),
        Some(Ok(t)) => {
            proof {
                lemma_token_at_bounds(source@, pos as int);
            }
            let hi = t.span.hi;
            match t.node {
                Token_::Whitespace => parse_expr_at(source, hi, interner),
                Token_::Integer => {
                    proof {
                        lemma_integer_token_digits(source@, pos as int);
                    }
                    let text = source.slice(t.span);
                    match parse_int_text(text) {
                        None => Err(Spanned::new(pos, hi, Error_::IntegerTooLarge)),
                        Some(v) => Ok((Spanned::new(pos, hi, Expr_::Integer(v)), hi)),
                    }
                },
                Token_::String => Ok((Spanned::new(pos, hi, Expr_::String), hi)),
                Token_::Symbol => {
                    let text = source.slice(t.span);
                    if str_eq(text, "false") {
                        Ok((Spanned::new(pos, hi, Expr_::Bool(false)), hi))
                    } else if str_eq(text, "nil") {
                        Ok((Spanned::new(pos, hi, Expr_::Nil), hi))
                    } else if str_eq(text, "true") {
                        Ok((Spanned::new(pos, hi, Expr_::Bool(true)), hi))
                    } else {
                        let sym = interner.intern(text);
                        Ok((Spanned::new(pos, hi, Expr_::Symbol(sym)), hi))
                    }
                },
                Token_::Open(Delim::Paren) => {
                    match parse_seq_at(source, hi, interner, Delim::Paren, true, true) {
                        Ok((es, close_hi)) => Ok(
                            (Spanned::new(pos, close_hi, Expr_::List(es)), close_hi),
                        ),
                        Err(e) => Err(e),
                    }
                },
                Token_::Open(Delim::Bracket) => {
                    match parse_seq_at(source, hi, interner, Delim::Bracket, false, true) {
                        Ok((es, close_hi)) => Ok(
                            (Spanned::new(pos, close_hi, Expr_::Vector(es)), close_hi),
                        ),
                        Err(e) => Err(e),
                    }
                },
                Token_::Open(Delim::Brace) => Err(
                    Spanned::new(pos, hi, Error_::IncorrectCloseDelimiter),
                ),
                Token_::Close(_) => Err(Spanned::new(pos, hi, Error_::IncorrectCloseDelimiter)),
            }
        },
    }
}

/// The contract of [`parse_seq_at`]: the exec result and interner state
/// agree with [`spec_parse_seq`].
spec fn seq_post(
    s: Seq<char>,
    p: int,
    names0: Seq<Seq<char>>,
    close: Delim,
    accept_op: bool,
    first: bool,
    r: Result<(Vec<Expr>, usize), Error>,
    names_now: Seq<Seq<char>>,
) -> bool {
    let (sr, names2) = spec_parse_seq(s, p, names0, close, accept_op, first);
    &&& names_now == names2
    &&& match (r, sr) {
        (Ok((es, close_hi)), Ok((sels, sch))) => {
            &&& es@.len() == sels.len()
            &&& exprs_view(es, es.len() as int) == sels
            &&& close_hi as int == sch
        },
        (Err(e), Err(se)) => e == se,
        _ => false,
    }
}

/// Parses sequence elements up to the matching `close` delimiter,
/// returning them with the position just after it; see
/// [`spec_parse_seq`].
#[verifier::rlimit(60)]
fn parse_seq_at(
    source: &Source,
    pos: usize,
    interner: &mut Interner,
    close: Delim,
    accept_op: bool,
    first: bool,
) -> (r: Result<(Vec<Expr>, usize), Error>)
    requires
        pos <= source@.len(),
        old(interner).wf(),
    ensures
        final(interner).wf(),
        seq_post(source@, pos as int, old(interner)@, close, accept_op, first, r, final(interner)@),
    decreases source@.len() - pos, 2int,
{
    let _len = source.len();
    match token_at(source, pos) {
        None => {
            let r2: Result<(Vec<Expr>, usize), Error> = Err(
                Spanned::new(pos, pos, Error_::UnclosedDelimiter),
            );
            proof {
                assert(seq_post(source@, pos as int, old(interner)@, close, accept_op, first, r2, interner@));
            }
            r2
        },
        Some(Err(e)) => {
            let r2: Result<(Vec<Expr>, usize), Error> = Err(e);
            proof {
                assert(seq_post(source@, pos as int, old(interner)@, close, accept_op, first, r2, interner@));
            }
            r2
        },
        Some(Ok(t)) => {
            proof {
                lemma_token_at_bounds(source@, pos as int);
            }
            let hi = t.span.hi;
            let op: Option<Operator> = if accept_op && first && matches!(t.node, Token_::Symbol) {
                Operator::from_str(source.slice(t.span))
            } else {
                None
            };
            if let Some(op) = op {
                match parse_seq_at(source, hi, interner, close, accept_op, false) {
                    Ok((mut rest, close_hi)) => {
                        let el = Spanned::new(pos, hi, Expr_::Operator(op));
                        let ghost srest = exprs_view(rest, rest.len() as int);
                        let ghost old_rest = rest;
                        rest.insert(0, el);
                        proof {
                            lemma_exprs_view(old_rest, old_rest.len() as int);
                            lemma_exprs_view(rest, rest.len() as int);
                            assert forall|i: int| 0 <= i < rest@.len() implies exprs_view(
                                rest,
                                rest.len() as int,
                            )[i] == (seq![el@] + srest)[i] by {
                                if i > 0 {
                                    assert(rest@[i] == old_rest@[i - 1]);
                                }
                            }
                            assert(exprs_view(rest, rest.len() as int) =~= seq![el@] + srest);
                            assert(seq_post(
                                source@,
                                pos as int,
                                old(interner)@,
                                close,
                                accept_op,
                                first,
                                Ok((rest, close_hi)),
                                interner@,
                            ));
                        }
                        Ok((rest, close_hi))
                    },
                    Err(e) => {
                        let r2: Result<(Vec<Expr>, usize), Error> = Err(e);
                        proof {
                            assert(seq_post(source@, pos as int, old(interner)@, close, accept_op, first, r2, interner@));
                        }
                        r2
                    },
                }
            } else {
                match t.node {
                    Token_::Close(d) => {
                        if d == close {
                            let es: Vec<Expr> = Vec::new();
                            proof {
                                assert(seq_post(
                                    source@,
                                    pos as int,
                                    old(interner)@,
                                    close,
                                    accept_op,
                                    first,
                                    Ok((es, hi)),
                                    interner@,
                                ));
                            }
                            Ok((es, hi))
                        } else {
                            let r2: Result<(Vec<Expr>, usize), Error> = Err(
                                Spanned::new(pos, hi, Error_::IncorrectCloseDelimiter),
                            );
                            proof {
                                assert(seq_post(source@, pos as int, old(interner)@, close, accept_op, first, r2, interner@));
                            }
                            r2
                        }
                    },
                    Token_::Whitespace => {
                        let r2 = parse_seq_at(source, hi, interner, close, accept_op, first);
                        proof {
                            assert(seq_post(
                                source@,
                                pos as int,
                                old(interner)@,
                                close,
                                accept_op,
                                first,
                                r2,
                                interner@,
                            ));
                        }
                        r2
                    },
                    _ => {
                        let ghost names0 = interner@;
                        proof {
                            lemma_parse_expr_props(source@, pos as int, interner@);
                        }
                        match parse_expr_at(source, pos, interner) {
                            Err(e) => {
                                proof {
                                    assert(spec_parse_elem(
                                        source@,
                                        pos as int,
                                        names0,
                                        close,
                                        accept_op,
                                    ) == (Err::<(SpecExpr, Seq<SpecExpr>, int), Error>(e), interner@));
                                    assert(seq_post(source@, pos as int, old(interner)@, close, accept_op, first, Err(e), interner@));
                                }
                                Err(e)
                            },
                            Ok((el, q)) => {
                                proof {
                                    let (sr0, n1) = spec_parse_expr(source@, pos as int, names0);
                                    assert(sr0 == Ok::<_, Error>((el@, q as int)));
                                    assert(n1 == interner@);
                                    assert(advance(pos as int, q as int, source@.len() as int)
                                        == q as int);
                                }
                                match parse_seq_at(source, q, interner, close, accept_op, false) {
                                    Err(e) => {
                                        let r2: Result<(Vec<Expr>, usize), Error> = Err(e);
                                        proof {
                                            assert(seq_post(source@, pos as int, old(interner)@, close, accept_op, first, r2, interner@));
                                        }
                                        r2
                                    },
                                    Ok((mut rest, close_hi)) => {
                                        let ghost srest = exprs_view(rest, rest.len() as int);
                                        let ghost old_rest = rest;
                                        rest.insert(0, el);
                                        proof {
                                            lemma_exprs_view(old_rest, old_rest.len() as int);
                                            lemma_exprs_view(rest, rest.len() as int);
                                            assert forall|i: int|
                                                0 <= i < rest@.len() implies exprs_view(
                                                rest,
                                                rest.len() as int,
                                            )[i] == (seq![el@] + srest)[i] by {
                                                if i > 0 {
                                                    assert(rest@[i] == old_rest@[i - 1]);
                                                }
                                            }
                                            assert(exprs_view(rest, rest.len() as int) =~= seq![el@]
                                                + srest);
                                            assert(seq_post(
                                                source@,
                                                pos as int,
                                                old(interner)@,
                                                close,
                                                accept_op,
                                                first,
                                                Ok((rest, close_hi)),
                                                interner@,
                                            ));
                                        }
                                        Ok((rest, close_hi))
                                    },
                                }
                            },
                        }
                    },
                }
            }
        },
    }
}

/// Finds the first non-whitespace trailing token (or lexical error) at or
/// after `pos` and reports it as `ExpectedEndOfLine`; see
/// [`spec_trailing`].
fn trailing_at(source: &Source, pos: usize) -> (r: Option<Error>)
    requires
        pos <= source@.len(),
    ensures
        r == spec_trailing(source@, pos as int),
        r matches Some(err) ==> err.span.lo <= err.span.hi <= source@.len() && err.span.hi >= 1,
    decreases source@.len() - pos,
{
    let _len = source.len();
    match token_at(source, pos) {
        None => None,
        Some(Err(e)) => {
            proof {
                lemma_token_at_bounds(source@, pos as int);
            }
            Some(Spanned::new(e.span.lo, e.span.hi, Error_::ExpectedEndOfLine))
        },
        Some(Ok(t)) => {
            proof {
                lemma_token_at_bounds(source@, pos as int);
            }
            if matches!(t.node, Token_::Whitespace) {
                trailing_at(source, t.span.hi)
            } else {
                Some(Spanned::new(t.span.lo, t.span.hi, Error_::ExpectedEndOfLine))
            }
        },
    }
}

/// Parses a single expression covering the entire line.
///
/// On success the returned expression is the parse of the whole text (only
/// whitespace may surround it), it is well formed for this source and
/// interner, and the interner has grown by exactly the symbols the
/// expression interned.  On failure the spanned syntax error of
/// [`spec_parse`] is returned unchanged and the interner keeps the symbols
/// interned before the failure.
pub fn expr(source: &Source, interner: &mut Interner) -> (r: Result<Expr, Error>)
    requires
        old(interner).wf(),
    ensures
        final(interner).wf(),
        ({
            let (sr, names2) = spec_parse(source@, old(interner)@);
            &&& final(interner)@ == names2
            &&& match (r, sr) {
                (Ok(e), Ok(se)) => e@ == se,
                (Err(e), Err(se)) => e == se,
                _ => false,
            }
        }),
        old(interner)@.is_prefix_of(final(interner)@),
        r matches Ok(e) ==> expr_wf(e@, source@.len(), final(interner)@.len()) && !(e@.node
            is Operator),
        r matches Err(err) ==> err.span.lo <= err.span.hi <= source@.len() && err.span.hi >= 1,
{
    let _len = source.len();
    proof {
        lemma_parse_expr_props(source@, 0, interner@);
    }
    match parse_expr_at(source, 0, interner) {
        Err(e) => Err(e),
        Ok((e1, q)) => {
            match trailing_at(source, q) {
                None => Ok(e1),
                Some(err) => Err(err),
            }
        },
    }
}

} // verus!
