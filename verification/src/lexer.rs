//! The lexical grammar of schema files: tokens, whitespace and comments, over the bytes of the
//! source text. Spans are byte offsets.
use vstd::prelude::*;

use vstd::string::StringSliceAdditionalSpecFns;

use crate::schema::Span;
use crate::text::{all_ascii, ascii_chars, ascii_string, str_eq};

verus! {

/// What a token is.
#[derive(Debug, Clone, Copy, PartialEq, Eq, Structural)]
pub enum TokenKind {
    // Keywords
    Struct,
    Message,
    Enum,
    Union,
    Service,
    Fn,
    Stream,
    // Primitive types
    Bool,
    U8,
    U16,
    U32,
    U64,
    I8,
    I16,
    I32,
    I64,
    F32,
    F64,
    String,
    // Literals and identifiers
    Int,
    Ident,
    // Symbols
    LBrace,
    RBrace,
    LBracket,
    RBracket,
    LParen,
    RParen,
    Colon,
    Arrow,
    Eq,
    Question,
    Semicolon,
}

/// A token: its kind, where it stands in the source, and, for an integer literal, its value.
#[derive(Debug, Clone, Copy, PartialEq, Eq, Structural)]
pub struct Token {
    pub kind: TokenKind,
    pub span: Span,
    pub value: u32,
}

/// Why the source could not be split into tokens.
#[derive(Debug, Clone, Copy, PartialEq, Eq, Structural)]
pub enum LexErrorKind {
    /// A byte that no token starts with, or that may not follow an integer literal.
    Unexpected,
    /// An integer literal beyond `u32::MAX`.
    TooLarge,
    /// A block comment that is not closed.
    UnterminatedComment,
}

/// A lexical error and the source range it is about.
#[derive(Debug, Clone, Copy, PartialEq, Eq, Structural)]
pub struct LexError {
    pub kind: LexErrorKind,
    pub span: Span,
}

// ============================================================================
// The lexical grammar
// ============================================================================
pub open spec fn is_space(c: u8) -> bool {
    c == 32 || (9 <= c && c <= 13)
}

pub open spec fn is_digit(c: u8) -> bool {
    48 <= c && c <= 57
}

pub open spec fn is_ident_start(c: u8) -> bool {
    (65 <= c && c <= 90) || (97 <= c && c <= 122) || c == 95
}

pub open spec fn is_ident_char(c: u8) -> bool {
    is_ident_start(c) || is_digit(c)
}

/// The end of the run of identifier characters starting at `i`.
pub open spec fn ident_end(b: Seq<u8>, i: int) -> int
    decreases b.len() - i,
{
    if 0 <= i < b.len() && is_ident_char(b[i]) {
        ident_end(b, i + 1)
    } else {
        i
    }
}

/// The end of the run of decimal digits starting at `i`.
pub open spec fn digits_end(b: Seq<u8>, i: int) -> int
    decreases b.len() - i,
{
    if 0 <= i < b.len() && is_digit(b[i]) {
        digits_end(b, i + 1)
    } else {
        i
    }
}

/// The position of the first line feed at or after `i`, or the end of the source.
pub open spec fn line_end(b: Seq<u8>, i: int) -> int
    decreases b.len() - i,
{
    if 0 <= i < b.len() && b[i] != 10 {
        line_end(b, i + 1)
    } else {
        i
    }
}

/// The position just after the `*/` that closes a block comment, reading from `i` with
/// `depth` comments open (block comments nest); `None` when the source ends first.
pub open spec fn comment_end(b: Seq<u8>, i: int, depth: nat) -> Option<int>
    decreases b.len() - i,
{
    if i < 0 || i + 1 >= b.len() {
        None
    } else if b[i] == 42 && b[i + 1] == 47 {
        if depth <= 1 {
            Some(i + 2)
        } else {
            comment_end(b, i + 2, (depth - 1) as nat)
        }
    } else if b[i] == 47 && b[i + 1] == 42 {
        comment_end(b, i + 2, depth + 1)
    } else {
        comment_end(b, i + 1, depth)
    }
}

pub proof fn lemma_runs_end(b: Seq<u8>, i: int)
    requires
        0 <= i,
    ensures
        i <= ident_end(b, i),
        ident_end(b, i) <= b.len() || ident_end(b, i) == i,
        forall|k: int| i <= k < ident_end(b, i) ==> is_ident_char(#[trigger] b[k]),
        ident_end(b, i) < b.len() ==> !is_ident_char(b[ident_end(b, i)]),
        i <= digits_end(b, i),
        digits_end(b, i) <= b.len() || digits_end(b, i) == i,
        forall|k: int| i <= k < digits_end(b, i) ==> is_digit(#[trigger] b[k]),
        digits_end(b, i) < b.len() ==> !is_digit(b[digits_end(b, i)]),
        i <= line_end(b, i),
        line_end(b, i) <= b.len() || line_end(b, i) == i,
    decreases b.len() - i,
{
    if i < b.len() {
        lemma_runs_end(b, i + 1);
    }
}

pub proof fn lemma_comment_end(b: Seq<u8>, i: int, depth: nat)
    ensures
        comment_end(b, i, depth) matches Some(e) ==> i < e <= b.len(),
    decreases b.len() - i,
{
    if 0 <= i && i + 1 < b.len() {
        if b[i] == 42 && b[i + 1] == 47 {
            if depth > 1 {
                lemma_comment_end(b, i + 2, (depth - 1) as nat);
            }
        } else if b[i] == 47 && b[i + 1] == 42 {
            lemma_comment_end(b, i + 2, depth + 1);
        } else {
            lemma_comment_end(b, i + 1, depth);
        }
    }
}

/// The position of the next token at or after `i`, past whitespace, line comments (`//` to the
/// end of the line) and block comments (`/* */`, nesting); `Err(start)` when a block comment
/// starting at `start` is not closed.
pub open spec fn skip_trivia(b: Seq<u8>, i: int) -> Result<int, int>
    decreases b.len() - i,
{
    if i < 0 || i >= b.len() {
        Ok(i)
    } else if is_space(b[i]) {
        skip_trivia(b, i + 1)
    } else if b[i] == 47 && i + 1 < b.len() && b[i + 1] == 47 {
        proof {
            lemma_runs_end(b, i + 2);
        }
        skip_trivia(b, line_end(b, i + 2))
    } else if b[i] == 47 && i + 1 < b.len() && b[i + 1] == 42 {
        proof {
            lemma_comment_end(b, i + 2, 1);
        }
        match comment_end(b, i + 2, 1) {
            Some(e) => skip_trivia(b, e),
            None => Err(i),
        }
    } else {
        Ok(i)
    }
}

pub proof fn lemma_skip_trivia(b: Seq<u8>, i: int)
    requires
        0 <= i <= b.len(),
    ensures
        skip_trivia(b, i) matches Ok(j) ==> i <= j <= b.len(),
        skip_trivia(b, i) matches Err(s) ==> i <= s < b.len(),
    decreases b.len() - i,
{
    if i < b.len() {
        if is_space(b[i]) {
            lemma_skip_trivia(b, i + 1);
        } else if b[i] == 47 && i + 1 < b.len() && b[i + 1] == 47 {
            lemma_runs_end(b, i + 2);
            lemma_skip_trivia(b, line_end(b, i + 2));
        } else if b[i] == 47 && i + 1 < b.len() && b[i + 1] == 42 {
            lemma_comment_end(b, i + 2, 1);
            if let Some(e) = comment_end(b, i + 2, 1) {
                lemma_skip_trivia(b, e);
            }
        }
    }
}

/// The value of a run of decimal digits.
pub open spec fn decimal_value(d: Seq<u8>) -> nat
    decreases d.len(),
{
    if d.len() == 0 {
        0
    } else {
        decimal_value(d.drop_last()) * 10 + (d.last() - 48) as nat
    }
}

/// The kind of a word: a keyword, or an identifier.
pub open spec fn word_kind(w: Seq<u8>) -> TokenKind {
    let c = ascii_chars(w);
    if c == "struct"@ {
        TokenKind::Struct
    } else if c == "message"@ {
        TokenKind::Message
    } else if c == "enum"@ {
        TokenKind::Enum
    } else if c == "union"@ {
        TokenKind::Union
    } else if c == "service"@ {
        TokenKind::Service
    } else if c == "fn"@ {
        TokenKind::Fn
    } else if c == "stream"@ {
        TokenKind::Stream
    } else if c == "bool"@ {
        TokenKind::Bool
    } else if c == "u8"@ {
        TokenKind::U8
    } else if c == "u16"@ {
        TokenKind::U16
    } else if c == "u32"@ {
        TokenKind::U32
    } else if c == "u64"@ {
        TokenKind::U64
    } else if c == "i8"@ {
        TokenKind::I8
    } else if c == "i16"@ {
        TokenKind::I16
    } else if c == "i32"@ {
        TokenKind::I32
    } else if c == "i64"@ {
        TokenKind::I64
    } else if c == "f32"@ {
        TokenKind::F32
    } else if c == "f64"@ {
        TokenKind::F64
    } else if c == "string"@ {
        TokenKind::String
    } else {
        TokenKind::Ident
    }
}

/// The kind of a one-byte symbol.
pub open spec fn symbol_kind(c: u8) -> Option<TokenKind> {
    if c == 123 {
        Some(TokenKind::LBrace)
    } else if c == 125 {
        Some(TokenKind::RBrace)
    } else if c == 91 {
        Some(TokenKind::LBracket)
    } else if c == 93 {
        Some(TokenKind::RBracket)
    } else if c == 40 {
        Some(TokenKind::LParen)
    } else if c == 41 {
        Some(TokenKind::RParen)
    } else if c == 58 {
        Some(TokenKind::Colon)
    } else if c == 61 {
        Some(TokenKind::Eq)
    } else if c == 63 {
        Some(TokenKind::Question)
    } else if c == 59 {
        Some(TokenKind::Semicolon)
    } else {
        None
    }
}

pub open spec fn span_of(start: int, end: int) -> Span {
    Span { start: start as usize, end: end as usize }
}

pub open spec fn unexpected_at(i: int) -> LexError {
    LexError { kind: LexErrorKind::Unexpected, span: span_of(i, i + 1) }
}

/// The token starting at `i`, a position within the source that is not trivia.
///
/// An integer literal is `0` or a digit other than `0` followed by digits; it may not be
/// followed by an identifier character, and must fit in a `u32`. A word is an identifier
/// character other than a digit followed by identifier characters; it is a keyword or an
/// identifier.
pub open spec fn token_at(b: Seq<u8>, i: int) -> Result<Token, LexError> {
    let c = b[i];
    if is_digit(c) {
        let e = digits_end(b, i);
        if c == 48 && e > i + 1 {
            Err(unexpected_at(i + 1))
        } else if e < b.len() && is_ident_char(b[e]) {
            Err(unexpected_at(e))
        } else if decimal_value(b.subrange(i, e)) > u32::MAX {
            Err(LexError { kind: LexErrorKind::TooLarge, span: span_of(i, e) })
        } else {
            Ok(
                Token {
                    kind: TokenKind::Int,
                    span: span_of(i, e),
                    value: decimal_value(b.subrange(i, e)) as u32,
                },
            )
        }
    } else if is_ident_start(c) {
        let e = ident_end(b, i);
        Ok(Token { kind: word_kind(b.subrange(i, e)), span: span_of(i, e), value: 0 })
    } else if c == 45 && i + 1 < b.len() && b[i + 1] == 62 {
        Ok(Token { kind: TokenKind::Arrow, span: span_of(i, i + 2), value: 0 })
    } else {
        match symbol_kind(c) {
            Some(k) => Ok(Token { kind: k, span: span_of(i, i + 1), value: 0 }),
            None => Err(unexpected_at(i)),
        }
    }
}

/// The tokens of `b` from `i` on, after the tokens `acc` already read.
pub open spec fn lex_from(b: Seq<u8>, i: int, acc: Seq<Token>) -> Result<Seq<Token>, LexError>
    decreases b.len() - i,
{
    match skip_trivia(b, i) {
        Err(start) => Err(
            LexError { kind: LexErrorKind::UnterminatedComment, span: span_of(start, b.len() as int) },
        ),
        Ok(j) => if j < 0 || j >= b.len() {
            Ok(acc)
        } else {
            match token_at(b, j) {
                Err(e) => Err(e),
                Ok(t) => if i < t.span.end <= b.len() {
                    lex_from(b, t.span.end as int, acc.push(t))
                } else {
                    Ok(acc)
                },
            }
        },
    }
}

/// Each token stands within the source, in order, and is made of ASCII bytes.
pub open spec fn tokens_wf(b: Seq<u8>, t: Seq<Token>) -> bool {
    &&& b.len() <= usize::MAX
    &&& t.len() <= usize::MAX
    &&& forall|k: int|
        0 <= k < t.len() ==> (#[trigger] t[k]).span.start < t[k].span.end <= b.len() && all_ascii(
            b.subrange(t[k].span.start as int, t[k].span.end as int),
        )
}

/// The tokens of a source text.
pub open spec fn lex(b: Seq<u8>) -> Result<Seq<Token>, LexError> {
    lex_from(b, 0, Seq::empty())
}

// ============================================================================
// The lexer
// ============================================================================
/// The end of the run of identifier characters starting at `i`.
fn ident_end_exec(b: &[u8], i: usize) -> (r: usize)
    requires
        i <= b@.len(),
    ensures
        r == ident_end(b@, i as int),
{
    let mut j = i;
    while j < b.len() && is_ident_char_exec(b[j])
        invariant
            i <= j <= b@.len(),
            ident_end(b@, j as int) == ident_end(b@, i as int),
        decreases b.len() - j,
    {
        j = j + 1;
    }
    j
}

fn is_ident_char_exec(c: u8) -> (r: bool)
    ensures
        r == is_ident_char(c),
{
    (65 <= c && c <= 90) || (97 <= c && c <= 122) || c == 95 || (48 <= c && c <= 57)
}

/// The digits `d` extended by one more digit are worth ten times as much, plus that digit.
proof fn lemma_decimal_push(b: Seq<u8>, i: int, k: int)
    requires
        0 <= i <= k < b.len(),
    ensures
        decimal_value(b.subrange(i, k + 1)) == decimal_value(b.subrange(i, k)) * 10 + (b[k]
            - 48) as nat,
{
    assert(b.subrange(i, k + 1).drop_last() =~= b.subrange(i, k));
}

/// The integer literal or the error that starts with the digit at `i`.
fn int_token(b: &[u8], i: usize) -> (r: Result<Token, LexError>)
    requires
        i < b@.len(),
        is_digit(b@[i as int]),
    ensures
        r == token_at(b@, i as int),
{
    let mut j = i;
    let mut value: u64 = 0;
    let mut too_large = false;
    assert(b@.subrange(i as int, i as int) =~= Seq::<u8>::empty());
    while j < b.len() && 48 <= b[j] && b[j] <= 57
        invariant
            i <= j <= b@.len(),
            digits_end(b@, j as int) == digits_end(b@, i as int),
            too_large ==> decimal_value(b@.subrange(i as int, j as int)) > u32::MAX,
            !too_large ==> value == decimal_value(b@.subrange(i as int, j as int)),
            !too_large ==> value <= u32::MAX,
        decreases b.len() - j,
    {
        proof {
            lemma_decimal_push(b@, i as int, j as int);
        }
        if !too_large {
            let v = value * 10 + (b[j] - 48) as u64;
            if v > 4294967295 {
                too_large = true;
            } else {
                value = v;
            }
        }
        j = j + 1;
    }
    proof {
        lemma_runs_end(b@, i as int);
    }
    let span = Span::new(i, j);
    if b[i] == 48 && j > i + 1 {
        Err(LexError { kind: LexErrorKind::Unexpected, span: Span::new(i + 1, i + 2) })
    } else if j < b.len() && is_ident_char_exec(b[j]) {
        Err(LexError { kind: LexErrorKind::Unexpected, span: Span::new(j, j + 1) })
    } else if too_large {
        Err(LexError { kind: LexErrorKind::TooLarge, span })
    } else {
        Ok(Token { kind: TokenKind::Int, span, value: value as u32 })
    }
}

/// The kind of the word `b[i..e]`.
fn word_kind_exec(b: &[u8], i: usize, e: usize) -> (r: TokenKind)
    requires
        i <= e <= b@.len(),
        all_ascii(b@.subrange(i as int, e as int)),
    ensures
        r == word_kind(b@.subrange(i as int, e as int)),
{
    let w = ascii_string(b, i, e);
    let w = w.as_str();
    if str_eq(w, "struct") {
        TokenKind::Struct
    } else if str_eq(w, "message") {
        TokenKind::Message
    } else if str_eq(w, "enum") {
        TokenKind::Enum
    } else if str_eq(w, "union") {
        TokenKind::Union
    } else if str_eq(w, "service") {
        TokenKind::Service
    } else if str_eq(w, "fn") {
        TokenKind::Fn
    } else if str_eq(w, "stream") {
        TokenKind::Stream
    } else if str_eq(w, "bool") {
        TokenKind::Bool
    } else if str_eq(w, "u8") {
        TokenKind::U8
    } else if str_eq(w, "u16") {
        TokenKind::U16
    } else if str_eq(w, "u32") {
        TokenKind::U32
    } else if str_eq(w, "u64") {
        TokenKind::U64
    } else if str_eq(w, "i8") {
        TokenKind::I8
    } else if str_eq(w, "i16") {
        TokenKind::I16
    } else if str_eq(w, "i32") {
        TokenKind::I32
    } else if str_eq(w, "i64") {
        TokenKind::I64
    } else if str_eq(w, "f32") {
        TokenKind::F32
    } else if str_eq(w, "f64") {
        TokenKind::F64
    } else if str_eq(w, "string") {
        TokenKind::String
    } else {
        TokenKind::Ident
    }
}

/// The token, or the error, at a position within the source that is not trivia.
fn next_token(b: &[u8], i: usize) -> (r: Result<Token, LexError>)
    requires
        i < b@.len(),
    ensures
        r == token_at(b@, i as int),
{
    let c = b[i];
    if 48 <= c && c <= 57 {
        int_token(b, i)
    } else if (65 <= c && c <= 90) || (97 <= c && c <= 122) || c == 95 {
        let e = ident_end_exec(b, i);
        proof {
            lemma_runs_end(b@, i as int);
            assert forall|k: int| 0 <= k < e - i implies #[trigger] b@.subrange(
                i as int,
                e as int,
            )[k] < 128 by {
                assert(is_ident_char(b@[i + k]));
            }
        }
        let kind = word_kind_exec(b, i, e);
        Ok(Token { kind, span: Span::new(i, e), value: 0 })
    } else if c == 45 && i + 1 < b.len() && b[i + 1] == 62 {
        Ok(Token { kind: TokenKind::Arrow, span: Span::new(i, i + 2), value: 0 })
    } else {
        let kind = if c == 123 {
            TokenKind::LBrace
        } else if c == 125 {
            TokenKind::RBrace
        } else if c == 91 {
            TokenKind::LBracket
        } else if c == 93 {
            TokenKind::RBracket
        } else if c == 40 {
            TokenKind::LParen
        } else if c == 41 {
            TokenKind::RParen
        } else if c == 58 {
            TokenKind::Colon
        } else if c == 61 {
            TokenKind::Eq
        } else if c == 63 {
            TokenKind::Question
        } else if c == 59 {
            TokenKind::Semicolon
        } else {
            return Err(LexError { kind: LexErrorKind::Unexpected, span: Span::new(i, i + 1) });
        };
        Ok(Token { kind, span: Span::new(i, i + 1), value: 0 })
    }
}

/// The position just after the `*/` that closes a block comment whose text starts at `i`.
fn comment_end_exec(b: &[u8], i: usize) -> (r: Option<usize>)
    requires
        i <= b@.len(),
    ensures
        match comment_end(b@, i as int, 1) {
            Some(e) => r == Some(e as usize),
            None => r is None,
        },
        r matches Some(e) ==> i < e <= b@.len(),
{
    let mut j = i;
    let mut depth: usize = 1;
    proof {
        lemma_comment_end(b@, i as int, 1);
    }
    while b.len() > 0 && j < b.len() - 1
        invariant
            i <= j <= b@.len(),
            1 <= depth <= j + 1,
            comment_end(b@, j as int, depth as nat) == comment_end(b@, i as int, 1),
        decreases b.len() - j,
    {
        if b[j] == 42 && b[j + 1] == 47 {
            if depth <= 1 {
                return Some(j + 2);
            }
            depth = depth - 1;
            j = j + 2;
        } else if b[j] == 47 && b[j + 1] == 42 {
            depth = depth + 1;
            j = j + 2;
        } else {
            j = j + 1;
        }
    }
    None
}

/// The position of the next token at or after `i`; `Err(start)` for an unclosed block comment.
fn skip_trivia_exec(b: &[u8], i: usize) -> (r: Result<usize, usize>)
    requires
        i <= b@.len(),
    ensures
        match skip_trivia(b@, i as int) {
            Ok(j) => r == Ok::<usize, usize>(j as usize),
            Err(s) => r == Err::<usize, usize>(s as usize),
        },
        r matches Ok(j) ==> i <= j <= b@.len(),
        r matches Err(s) ==> s < b@.len(),
{
    let mut j = i;
    loop
        invariant
            i <= j <= b@.len(),
            skip_trivia(b@, j as int) == skip_trivia(b@, i as int),
        decreases b.len() - j,
    {
        if j >= b.len() {
            return Ok(j);
        }
        let c = b[j];
        if c == 32 || (9 <= c && c <= 13) {
            assert(skip_trivia(b@, j as int) == skip_trivia(b@, j + 1));
            j = j + 1;
        } else if c == 47 && j + 1 < b.len() && b[j + 1] == 47 {
            let mut k = j + 2;
            proof {
                lemma_runs_end(b@, j + 2);
            }
            while k < b.len() && b[k] != 10
                invariant
                    j + 2 <= k <= b@.len(),
                    line_end(b@, k as int) == line_end(b@, j + 2),
                decreases b.len() - k,
            {
                k = k + 1;
            }
            assert(line_end(b@, k as int) == k);
            assert(skip_trivia(b@, j as int) == skip_trivia(b@, k as int));
            j = k;
        } else if c == 47 && j + 1 < b.len() && b[j + 1] == 42 {
            match comment_end_exec(b, j + 2) {
                Some(e) => {
                    proof {
                        lemma_comment_end(b@, j + 2, 1);
                    }
                    assert(skip_trivia(b@, j as int) == skip_trivia(b@, e as int));
                    j = e;
                },
                None => {
                    return Err(j);
                },
            }
        } else {
            return Ok(j);
        }
    }
}

/// Splits a source text into tokens.
pub fn tokenize(src: &str) -> (r: Result<Vec<Token>, LexError>)
    ensures
        r matches Ok(ts) ==> lex(src.spec_bytes()) == Ok::<Seq<Token>, LexError>(ts@)
            && tokens_wf(src.spec_bytes(), ts@),
        r matches Err(e) ==> lex(src.spec_bytes()) == Err::<Seq<Token>, LexError>(e),
{
    let b = src.as_bytes();
    let mut tokens: Vec<Token> = Vec::new();
    let n = b.len();
    assert(b@.len() <= usize::MAX);
    let mut i: usize = 0;
    loop
        invariant
            i <= b@.len(),
            b@ == src.spec_bytes(),
            lex_from(b@, i as int, tokens@) == lex(b@),
            forall|k: int| 0 <= k < tokens@.len() ==> (#[trigger] tokens@[k]).span.end <= i,
            tokens@.len() <= i,
            tokens_wf(b@, tokens@),
        decreases b.len() - i,
    {
        proof {
            lemma_skip_trivia(b@, i as int);
        }
        match skip_trivia_exec(b, i) {
            Err(start) => {
                return Err(
                    LexError {
                        kind: LexErrorKind::UnterminatedComment,
                        span: Span::new(start, b.len()),
                    },
                );
            },
            Ok(j) => {
                if j >= b.len() {
                    return Ok(tokens);
                }
                match next_token(b, j) {
                    Err(e) => {
                        return Err(e);
                    },
                    Ok(t) => {
                        proof {
                            lemma_token_end(b@, j as int);
                        }
                        assert(lex_from(b@, i as int, tokens@) == lex_from(
                            b@,
                            t.span.end as int,
                            tokens@.push(t),
                        ));
                        tokens.push(t);
                        i = t.span.end;
                    },
                }
            },
        }
    }
}

/// A token ends after it starts, within the source.
proof fn lemma_token_end(b: Seq<u8>, i: int)
    requires
        0 <= i < b.len(),
        b.len() <= usize::MAX,
    ensures
        token_at(b, i) matches Ok(t) ==> t.span.start == i && i < t.span.end <= b.len() && all_ascii(
            b.subrange(t.span.start as int, t.span.end as int),
        ),
{
    lemma_runs_end(b, i);
    lemma_runs_end(b, i + 1);
    if let Ok(t) = token_at(b, i) {
        let w = b.subrange(t.span.start as int, t.span.end as int);
        assert forall|k: int| 0 <= k < w.len() implies #[trigger] w[k] < 128 by {
            assert(w[k] == b[i + k]);
        }
    }
}

/// A lexical error is about a byte of the source, or, for a literal too large, its digits.
pub open spec fn lex_error_wf(b: Seq<u8>, e: LexError) -> bool {
    &&& e.kind == LexErrorKind::Unexpected ==> e.span.start < e.span.end == e.span.start + 1
        <= b.len()
    &&& e.kind == LexErrorKind::TooLarge ==> e.span.start <= e.span.end <= b.len() && all_ascii(
        b.subrange(e.span.start as int, e.span.end as int),
    )
}

proof fn lemma_token_error(b: Seq<u8>, i: int)
    requires
        0 <= i < b.len(),
        b.len() <= usize::MAX,
    ensures
        token_at(b, i) matches Err(e) ==> lex_error_wf(b, e),
{
    lemma_runs_end(b, i);
    if let Err(e) = token_at(b, i) {
        if e.kind == LexErrorKind::TooLarge {
            let w = b.subrange(i, digits_end(b, i));
            assert forall|k: int| 0 <= k < w.len() implies #[trigger] w[k] < 128 by {
                assert(w[k] == b[i + k]);
            }
        }
    }
}

proof fn lemma_lex_from_error(b: Seq<u8>, i: int, acc: Seq<Token>)
    requires
        0 <= i <= b.len(),
        b.len() <= usize::MAX,
    ensures
        lex_from(b, i, acc) matches Err(e) ==> lex_error_wf(b, e),
    decreases b.len() - i,
{
    lemma_skip_trivia(b, i);
    if let Ok(j) = skip_trivia(b, i) {
        if j < b.len() {
            lemma_token_error(b, j);
            lemma_token_end(b, j);
            if let Ok(t) = token_at(b, j) {
                if i < t.span.end <= b.len() {
                    lemma_lex_from_error(b, t.span.end as int, acc.push(t));
                }
            }
        }
    }
}

/// A lexical error of a source is about its bytes.
pub proof fn lemma_lex_error(b: Seq<u8>)
    requires
        b.len() <= usize::MAX,
    ensures
        lex(b) matches Err(e) ==> lex_error_wf(b, e),
{
    lemma_lex_from_error(b, 0, Seq::empty());
}

} // verus!
