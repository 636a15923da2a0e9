//! Diagnostics.
//!
//! Renders a spanned error against its source as a caret display: the
//! message line, the source line, and a marker line whose caret sits at
//! the error's display column (wide characters count two columns) with a
//! tilde under each further column of the span.

use vstd::prelude::*;

use crate::codemap::{Source, Span};
use crate::eval;
use crate::syntax;

verus! {

/// The displayed column width of a sequence of characters, as the
/// terminal renders it.
pub uninterp spec fn width_of(s: Seq<char>) -> nat;

/// Relies on unicode_width's `UnicodeWidthStr::width`: the displayed
/// width of a string in columns, a function of its characters alone.
#[verifier::external_body]
fn str_width(s: &str) -> (r: usize)
    ensures
        r as nat == width_of(s@),
{
    unicode_width::UnicodeWidthStr::width(s)
}

/// A sequence of `n` copies of one character.
pub open spec fn char_run(c: char, n: int) -> Seq<char> {
    Seq::new(if n >= 0 {
        n as nat
    } else {
        0
    }, |i: int| c)
}

/// The rendered diagnostic: `error: ` and the message, the source text,
/// and a marker line with one space per display column before the span, a
/// caret, and a tilde for each display column of the span past the first.
pub open spec fn spec_render(msg: Seq<char>, src: Seq<char>, span: Span) -> Seq<char> {
    let prefix_cols = width_of(src.subrange(0, span.lo as int)) as int;
    let span_cols = width_of(src.subrange(span.lo as int, span.hi as int)) as int;
    "error: "@ + msg + seq!['\n'] + src + seq!['\n'] + char_run(' ', prefix_cols) + seq!['^']
        + char_run('~', span_cols - 1) + seq!['\n']
}

/// The fixed message of an evaluation error.
pub open spec fn spec_eval_message(error: eval::Error_) -> Seq<char> {
    match error {
        eval::Error_::EmptyList => "empty list"@,
        eval::Error_::ExpectedFunction => "expected function"@,
        eval::Error_::ExpectedSymbol => "expected symbol"@,
        eval::Error_::UndefinedSymbol => "undefined symbol"@,
        eval::Error_::UnsupportedOperation => "unsupported operation"@,
    }
}

/// The fixed message of a syntax error.
pub open spec fn spec_syntax_message(error: syntax::Error_) -> Seq<char> {
    match error {
        syntax::Error_::ExpectedEndOfLine => "expected end of line"@,
        syntax::Error_::IncorrectCloseDelimiter => "incorrect close delimiter"@,
        syntax::Error_::IntegerTooLarge => "integer literal is too large"@,
        syntax::Error_::UnclosedDelimiter => "un-closed delimiter"@,
        syntax::Error_::UnknownStartOfToken => "unknown start of token"@,
        syntax::Error_::UnterminatedString => "unterminated string literal"@,
    }
}

/// Diagnose evaluation error.
pub fn eval(error: eval::Error, source: &Source) -> (out: String)
    requires
        error.span.wf(source@.len()),
        !(error.span.lo == 0 && error.span.hi == 0),
    ensures
        out@ == spec_render(spec_eval_message(error.node), source@, error.span),
{
    let msg = match error.node {
        eval::Error_::EmptyList => "empty list",
        eval::Error_::ExpectedFunction => "expected function",
        eval::Error_::ExpectedSymbol => "expected symbol",
        eval::Error_::UndefinedSymbol => "undefined symbol",
        eval::Error_::UnsupportedOperation => "unsupported operation",
    };
    common(msg, error.span, source)
}

/// Diagnose syntax error.
pub fn syntax(error: syntax::Error, source: &Source) -> (out: String)
    requires
        error.span.wf(source@.len()),
        !(error.span.lo == 0 && error.span.hi == 0),
    ensures
        out@ == spec_render(spec_syntax_message(error.node), source@, error.span),
{
    let msg = match error.node {
        syntax::Error_::ExpectedEndOfLine => "expected end of line",
        syntax::Error_::IncorrectCloseDelimiter => "incorrect close delimiter",
        syntax::Error_::IntegerTooLarge => "integer literal is too large",
        syntax::Error_::UnclosedDelimiter => "un-closed delimiter",
        syntax::Error_::UnknownStartOfToken => "unknown start of token",
        syntax::Error_::UnterminatedString => "unterminated string literal",
    };
    common(msg, error.span, source)
}

/// Appends `n` copies of the one-character string `c` to `out`.
fn push_run(out: &mut String, c: &str, n: usize)
    requires
        c@.len() == 1,
    ensures
        final(out)@ == old(out)@ + char_run(c@[0], n as int),
    decreases n,
{
    if n == 0 {
        proof {
            assert(out@ =~= old(out)@ + char_run(c@[0], 0));
        }
    } else {
        out.append(c);
        push_run(out, c, n - 1);
        proof {
            assert((old(out)@ + seq![c@[0]]) + char_run(c@[0], n as int - 1) =~= old(out)@
                + char_run(c@[0], n as int));
            assert(old(out)@ + seq![c@[0]] =~= old(out)@ + c@);
        }
    }
}

/// Common diagnostic routine: the guard that the sentinel "dummy" span
/// never reaches rendering is this function's precondition.
fn common(msg: &str, span: Span, source: &Source) -> (out: String)
    requires
        span.wf(source@.len()),
        !(span.lo == 0 && span.hi == 0),
    ensures
        out@ == spec_render(msg@, source@, span),
{
    proof {
        reveal_strlit("error: ");
        reveal_strlit("\n");
        reveal_strlit("^");
        reveal_strlit(" ");
        reveal_strlit("~");
    }
    let mut string = String::new();
    string.append("error: ");
    string.append(msg);
    string.append("\n");
    string.append(source.as_str());
    string.append("\n");
    let prefix = source.slice(Span { lo: 0, hi: span.lo });
    let prefix_cols = str_width(prefix);
    push_run(&mut string, " ", prefix_cols);
    string.append("^");
    let span_text = source.slice(span);
    let span_cols = str_width(span_text);
    if span_cols > 1 {
        push_run(&mut string, "~", span_cols - 1);
    }
    string.append("\n");
    proof {
        assert(string@ =~= spec_render(msg@, source@, span));
    }
    string
}

} // verus!
