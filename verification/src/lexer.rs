//! Lexer.
//!
//! A [`Lexer`] is a cursor over a [`Source`] producing one spanned token at
//! a time.  [`spec_token_at`] is the mathematical model: it gives the token
//! (or lexical error) that starts at any in-range character position, and
//! every token's span is `[start, first-position-not-consumed)`.

use vstd::prelude::*;

use crate::codemap::{Source, Spanned};
use crate::syntax::{Error, Error_};

verus! {

/// A spanned token.
pub type Token = Spanned<Token_>;

/// Tokens.
#[derive(Clone, Copy, Debug, PartialEq, Eq, Structural)]
pub enum Token_ {
    /// Closing delimiter: `]`
    Close(Delim),
    /// `123`
    Integer,
    /// Opening delimiter: `(`
    Open(Delim),
    /// `"Hello, world!"`
    String,
    /// `+`, `=`
    Symbol,
    /// ` `, `\t` or `,`
    Whitespace,
}

/// Delimiters.
#[derive(Clone, Copy, Debug, PartialEq, Eq, Structural)]
pub enum Delim {
    /// `{}`
    Brace,
    /// `[]`
    Bracket,
    /// `()`
    Paren,
}

/// Is this character whitespace?  A comma is a non-semantic separator and
/// counts as whitespace.
pub open spec fn char_is_whitespace(c: char) -> bool {
    c == ' ' || c == '\t' || c == ','
}

/// Is this character a delimiter?
pub open spec fn char_is_delim(c: char) -> bool {
    c == '(' || c == ')' || c == '[' || c == ']' || c == '{' || c == '}'
}

/// Is this character an ASCII digit?
pub open spec fn char_is_digit(c: char) -> bool {
    48 <= (c as u32) <= 57
}

/// Is this character a part of a symbol?
pub open spec fn char_is_part_of_symbol(c: char) -> bool {
    !(c == '"' || c == ';' || c == '\'' || c == '\\' || char_is_delim(c)
        || char_is_whitespace(c))
}

/// Is this character the start of a symbol?
pub open spec fn char_is_start_of_symbol(c: char) -> bool {
    char_is_part_of_symbol(c) && !char_is_digit(c)
}

/// The digit predicate, as a spec-level function value.
pub open spec fn pred_digit() -> spec_fn(char) -> bool {
    |ch: char| char_is_digit(ch)
}

/// The symbol-part predicate, as a spec-level function value.
pub open spec fn pred_symbol_part() -> spec_fn(char) -> bool {
    |ch: char| char_is_part_of_symbol(ch)
}

/// The whitespace predicate, as a spec-level function value.
pub open spec fn pred_whitespace() -> spec_fn(char) -> bool {
    |ch: char| char_is_whitespace(ch)
}

/// The string-content predicate, as a spec-level function value.
pub open spec fn pred_string_content() -> spec_fn(char) -> bool {
    |ch: char| ch != '"'
}

/// The first position at or after `i` whose character fails `pred`, or the
/// end of the text.
pub open spec fn scan_while(s: Seq<char>, i: int, pred: spec_fn(char) -> bool) -> int
    decreases s.len() - i,
{
    if i < 0 || i >= s.len() || !pred(s[i]) {
        i
    } else {
        scan_while(s, i + 1, pred)
    }
}

/// `scan_while` yields exactly the end of the run of characters satisfying
/// `pred` that starts at `i`.
pub proof fn lemma_scan_while_is(s: Seq<char>, i: int, k: int, pred: spec_fn(char) -> bool)
    requires
        0 <= i <= k <= s.len(),
        forall|j: int| i <= j < k ==> pred(#[trigger] s[j]),
        k == s.len() || !pred(s[k]),
    ensures
        scan_while(s, i, pred) == k,
    decreases k - i,
{
    if i < k {
        assert(pred(s[i]));
        lemma_scan_while_is(s, i + 1, k, pred);
    }
}

/// Builds a spanned node covering `[lo, hi)` (spec-level helper).
pub open spec fn sp<T>(lo: int, hi: int, node: T) -> Spanned<T> {
    Spanned { span: crate::codemap::Span { lo: lo as usize, hi: hi as usize }, node }
}

/// The token that starts at position `p` of `s`, with its span, or the
/// lexical error raised there.
///
/// - a `"` opens a string literal; the character right after the opening
///   quote is always taken as content, then content runs to the next `"`;
///   if the text ends before a closing quote the error is
///   `UnterminatedString`, spanned from the opening quote to the end;
/// - a delimiter is a one-character token;
/// - a digit starts an `Integer` token: the maximal run of ASCII digits;
/// - any other symbol character starts a `Symbol` token: the maximal run
///   of symbol characters;
/// - whitespace (space, tab, comma) runs are one `Whitespace` token;
/// - anything else (`;`, `'`, `\`) is `UnknownStartOfToken`.
pub open spec fn spec_token_at(s: Seq<char>, p: int) -> Result<Token, Error>
    recommends
        0 <= p < s.len(),
{
    let c = s[p];
    if c == '"' {
        if p + 1 >= s.len() {
            Err(sp(p, s.len() as int, Error_::UnterminatedString))
        } else {
            let q = scan_while(s, p + 2, pred_string_content());
            if q >= s.len() {
                Err(sp(p, s.len() as int, Error_::UnterminatedString))
            } else {
                Ok(sp(p, q + 1, Token_::String))
            }
        }
    } else if c == '(' {
        Ok(sp(p, p + 1, Token_::Open(Delim::Paren)))
    } else if c == ')' {
        Ok(sp(p, p + 1, Token_::Close(Delim::Paren)))
    } else if c == '[' {
        Ok(sp(p, p + 1, Token_::Open(Delim::Bracket)))
    } else if c == ']' {
        Ok(sp(p, p + 1, Token_::Close(Delim::Bracket)))
    } else if c == '{' {
        Ok(sp(p, p + 1, Token_::Open(Delim::Brace)))
    } else if c == '}' {
        Ok(sp(p, p + 1, Token_::Close(Delim::Brace)))
    } else if char_is_digit(c) {
        Ok(sp(p, scan_while(s, p + 1, pred_digit()), Token_::Integer))
    } else if char_is_start_of_symbol(c) {
        Ok(sp(p, scan_while(s, p + 1, pred_symbol_part()), Token_::Symbol))
    } else if char_is_whitespace(c) {
        Ok(sp(p, scan_while(s, p + 1, pred_whitespace()), Token_::Whitespace))
    } else {
        Err(sp(p, p + 1, Error_::UnknownStartOfToken))
    }
}

/// Every token or error produced at an in-range position starts there and
/// consumes at least one character, staying inside the text; a lexical
/// error's span always ends at a position no later than the end.
pub proof fn lemma_token_at_bounds(s: Seq<char>, p: int)
    requires
        0 <= p < s.len(),
        s.len() <= usize::MAX,
    ensures
        match spec_token_at(s, p) {
            Ok(t) => t.span.lo == p && p < t.span.hi <= s.len(),
            Err(e) => e.span.lo == p && p < e.span.hi <= s.len(),
        },
{
    let c = s[p];
    if c == '"' {
        if p + 1 < s.len() {
            lemma_scan_while_bounds(s, p + 2, pred_string_content());
        }
    } else if char_is_digit(c) {
        lemma_scan_while_bounds(s, p + 1, pred_digit());
    } else if char_is_start_of_symbol(c) {
        lemma_scan_while_bounds(s, p + 1, pred_symbol_part());
    } else if char_is_whitespace(c) {
        lemma_scan_while_bounds(s, p + 1, pred_whitespace());
    }
}

/// Every character inside the run consumed by `scan_while` satisfies the
/// predicate.
pub proof fn lemma_scan_while_run(s: Seq<char>, i: int, pred: spec_fn(char) -> bool)
    requires
        0 <= i <= s.len(),
    ensures
        forall|j: int| i <= j < scan_while(s, i, pred) ==> pred(#[trigger] s[j]),
    decreases s.len() - i,
{
    if i < s.len() && pred(s[i]) {
        lemma_scan_while_run(s, i + 1, pred);
    }
}

/// `scan_while` never moves backwards and never leaves the text.
pub proof fn lemma_scan_while_bounds(s: Seq<char>, i: int, pred: spec_fn(char) -> bool)
    requires
        0 <= i <= s.len(),
    ensures
        i <= scan_while(s, i, pred) <= s.len(),
    decreases s.len() - i,
{
    if i < s.len() && pred(s[i]) {
        lemma_scan_while_bounds(s, i + 1, pred);
    }
}

/// A scan cannot tell a comma from a space: every scanning predicate
/// treats the two alike, so replacing one with the other moves no run
/// boundary.
pub proof fn lemma_scan_while_update(s: Seq<char>, k: int, i: int, pred: spec_fn(char) -> bool)
    requires
        0 <= k < s.len(),
        s[k] == ',',
        pred(',') == pred(' '),
    ensures
        scan_while(s.update(k, ' '), i, pred) == scan_while(s, i, pred),
    decreases s.len() - i,
{
    let s2 = s.update(k, ' ');
    if i >= 0 && i < s.len() {
        assert(s2[i] == if i == k {
            ' '
        } else {
            s[i]
        });
        if pred(s[i]) {
            lemma_scan_while_update(s, k, i + 1, pred);
        }
    }
}

/// The token that starts at any position is unchanged when a comma is
/// read as a space: both are whitespace to the lexer, and no other token
/// kind can contain either.
pub proof fn lemma_token_at_update(s: Seq<char>, k: int, p: int)
    requires
        0 <= k < s.len(),
        s[k] == ',',
        0 <= p < s.len(),
    ensures
        spec_token_at(s.update(k, ' '), p) == spec_token_at(s, p),
{
    let s2 = s.update(k, ' ');
    assert(pred_digit()(',') == pred_digit()(' '));
    assert(pred_symbol_part()(',') == pred_symbol_part()(' '));
    assert(pred_whitespace()(',') == pred_whitespace()(' '));
    assert(pred_string_content()(',') == pred_string_content()(' '));
    if p == k {
        lemma_scan_while_update(s, k, p + 1, pred_whitespace());
    } else {
        assert(s2[p] == s[p]);
        let c = s[p];
        if c == '"' {
            if p + 1 < s.len() {
                lemma_scan_while_update(s, k, p + 2, pred_string_content());
            }
        } else if char_is_digit(c) {
            lemma_scan_while_update(s, k, p + 1, pred_digit());
        } else if char_is_start_of_symbol(c) {
            lemma_scan_while_update(s, k, p + 1, pred_symbol_part());
        } else if char_is_whitespace(c) {
            lemma_scan_while_update(s, k, p + 1, pred_whitespace());
        }
    }
}

/// What kind of character run a scan consumes.
#[derive(Clone, Copy, PartialEq, Eq, Structural)]
enum ScanKind {
    Digits,
    SymbolPart,
    Whitespace,
    StringContent,
}

/// The character predicate a [`ScanKind`] scans with.
spec fn kind_pred(kind: ScanKind) -> spec_fn(char) -> bool {
    match kind {
        ScanKind::Digits => pred_digit(),
        ScanKind::SymbolPart => pred_symbol_part(),
        ScanKind::Whitespace => pred_whitespace(),
        ScanKind::StringContent => pred_string_content(),
    }
}

/// Does `c` satisfy the predicate of `kind`?
fn kind_pred_exec(kind: ScanKind, c: char) -> (r: bool)
    ensures
        r == kind_pred(kind)(c),
{
    match kind {
        ScanKind::Digits => {
            let u = c as u32;
            48 <= u && u <= 57
        },
        ScanKind::SymbolPart => {
            !(c == '"' || c == ';' || c == '\'' || c == '\\' || c == '(' || c == ')'
                || c == '[' || c == ']' || c == '{' || c == '}' || c == ' ' || c == '\t'
                || c == ',')
        },
        ScanKind::Whitespace => c == ' ' || c == '\t' || c == ',',
        ScanKind::StringContent => c != '"',
    }
}

/// The token (or lexical error) that starts at position `pos`, or `None`
/// at the end of the text.  A fresh one-shot cursor; the parser uses it to
/// look at one token at a time.
pub fn token_at(source: &Source, pos: usize) -> (r: Option<Result<Token, Error>>)
    requires
        pos <= source@.len(),
    ensures
        pos == source@.len() ==> r is None,
        pos < source@.len() ==> r == Some(spec_token_at(source@, pos as int)),
{
    let mut lexer = Lexer { source, pos, failed: false };
    lexer.next_token()
}

/// Lexer.
pub struct Lexer<'a> {
    source: &'a Source,
    pos: usize,
    failed: bool,
}

impl<'a> Lexer<'a> {
    /// The text being lexed.
    pub closed spec fn src(&self) -> Seq<char> {
        self.source@
    }

    /// The position of the next character to consume.
    pub closed spec fn pos(&self) -> int {
        self.pos as int
    }

    /// Whether the lexer has raised an error; once it has, it must not be
    /// asked for more tokens.
    pub closed spec fn failed(&self) -> bool {
        self.failed
    }

    /// The cursor always stays inside the text.
    pub open spec fn wf(&self) -> bool {
        0 <= self.pos() <= self.src().len()
    }

    /// Lexes the source code from its start.
    pub fn new(source: &'a Source) -> (lexer: Lexer<'a>)
        ensures
            lexer.wf(),
            lexer.src() == source@,
            lexer.pos() == 0,
            !lexer.failed(),
    {
        Lexer { source, pos: 0, failed: false }
    }

    /// Advances the cursor past the run of characters of `kind` starting
    /// at the current position.
    fn scan(&mut self, kind: ScanKind) -> (end: usize)
        requires
            old(self).wf(),
        ensures
            final(self).wf(),
            final(self).src() == old(self).src(),
            final(self).failed() == old(self).failed(),
            end == final(self).pos(),
            end as int == scan_while(old(self).src(), old(self).pos(), kind_pred(kind)),
    {
        let s = self.source.as_str();
        let len = self.source.len();
        let ghost start = self.pos as int;
        while self.pos < len
            invariant
                self.source@ == old(self).src(),
                self.failed == old(self).failed(),
                len == self.source@.len(),
                start <= self.pos as int <= len,
                forall|j: int|
                    start <= j < self.pos as int ==> kind_pred(kind)(#[trigger] self.source@[j]),
                s@ == self.source@,
            ensures
                self.source@ == old(self).src(),
                self.failed == old(self).failed(),
                start <= self.pos as int <= len,
                forall|j: int|
                    start <= j < self.pos as int ==> kind_pred(kind)(#[trigger] self.source@[j]),
                self.pos as int == len || !kind_pred(kind)(self.source@[self.pos as int]),
            decreases len - self.pos,
        {
            let c = s.get_char(self.pos);
            if !kind_pred_exec(kind, c) {
                break;
            }
            self.pos += 1;
        }
        proof {
            lemma_scan_while_is(self.source@, start, self.pos as int, kind_pred(kind));
        }
        self.pos
    }

    /// Lexes the token that starts at the current position, or returns
    /// `None` at the end of the text.  On a lexical error the lexer enters
    /// its failed state and must not be asked for more tokens.
    pub fn next_token(&mut self) -> (r: Option<Result<Token, Error>>)
        requires
            old(self).wf(),
            !old(self).failed(),
        ensures
            final(self).wf(),
            final(self).src() == old(self).src(),
            old(self).pos() == old(self).src().len() ==> r is None && *final(self) == *old(self),
            old(self).pos() < old(self).src().len() ==> {
                &&& r == Some(spec_token_at(old(self).src(), old(self).pos()))
                &&& match spec_token_at(old(self).src(), old(self).pos()) {
                    Ok(t) => !final(self).failed() && final(self).pos() == t.span.hi,
                    Err(_) => final(self).failed(),
                }
            },
    {
        let len = self.source.len();
        if self.pos >= len {
            return None;
        }
        let p = self.pos;
        proof {
            lemma_token_at_bounds(self.src(), p as int);
        }
        let c = self.source.as_str().get_char(p);
        if c == '"' {
            if p + 1 >= len {
                self.failed = true;
                return Some(Err(Spanned::new(p, len, Error_::UnterminatedString)));
            }
            self.pos = p + 2;
            let q = self.scan(ScanKind::StringContent);
            if q >= len {
                self.failed = true;
                Some(Err(Spanned::new(p, len, Error_::UnterminatedString)))
            } else {
                self.pos = q + 1;
                Some(Ok(Spanned::new(p, q + 1, Token_::String)))
            }
        } else if c == '(' {
            self.pos = p + 1;
            Some(Ok(Spanned::new(p, p + 1, Token_::Open(Delim::Paren))))
        } else if c == ')' {
            self.pos = p + 1;
            Some(Ok(Spanned::new(p, p + 1, Token_::Close(Delim::Paren))))
        } else if c == '[' {
            self.pos = p + 1;
            Some(Ok(Spanned::new(p, p + 1, Token_::Open(Delim::Bracket))))
        } else if c == ']' {
            self.pos = p + 1;
            Some(Ok(Spanned::new(p, p + 1, Token_::Close(Delim::Bracket))))
        } else if c == '{' {
            self.pos = p + 1;
            Some(Ok(Spanned::new(p, p + 1, Token_::Open(Delim::Brace))))
        } else if c == '}' {
            self.pos = p + 1;
            Some(Ok(Spanned::new(p, p + 1, Token_::Close(Delim::Brace))))
        } else if kind_pred_exec(ScanKind::Digits, c) {
            self.pos = p + 1;
            let q = self.scan(ScanKind::Digits);
            Some(Ok(Spanned::new(p, q, Token_::Integer)))
        } else if kind_pred_exec(ScanKind::SymbolPart, c) {
            self.pos = p + 1;
            let q = self.scan(ScanKind::SymbolPart);
            Some(Ok(Spanned::new(p, q, Token_::Symbol)))
        } else if kind_pred_exec(ScanKind::Whitespace, c) {
            self.pos = p + 1;
            let q = self.scan(ScanKind::Whitespace);
            Some(Ok(Spanned::new(p, q, Token_::Whitespace)))
        } else {
            self.failed = true;
            Some(Err(Spanned::new(p, p + 1, Error_::UnknownStartOfToken)))
        }
    }
}

} // verus!
