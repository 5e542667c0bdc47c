//! The grammar of schema files, over the tokens of the lexer, and the parser that builds a
//! [`Schema`] from them.
//!
//! ```text
//! schema   := item*
//! item     := ("struct" | "message" | "enum" | "union" | "service") ident "{" member* "}"
//! field    := ident "?"? ":" type ";"?                         (struct)
//! field    := ident "?"? ":" type "=" int ";"?                 (message)
//! variant  := ident "=" int ";"?                               (enum)
//! variant  := ident ("(" type ")")? "=" int ";"?               (union)
//! method   := "fn" ident "(" type ")" "->" "stream"? type "=" int ";"?
//! type     := primitive | ident | "[" type "]" | "{" type ":" type "}"
//! ```
use vstd::prelude::*;

use crate::diagnostics::{error_with, errors_view, CompileError, ErrorView, LabelColor};
use crate::lexer::{
    lemma_lex_error, lex, tokenize, tokens_wf, word_kind, LexError, LexErrorKind, Token, TokenKind,
};
use vstd::string::StringSliceAdditionalSpecFns;
use crate::schema::{
    Enum, EnumVariant, Item, Message, MessageField, Schema, Service, ServiceMethod,
    ServiceResponse, Span, Spanned, Struct, StructField, Type, Union, UnionVariant, type_keyword,
};
use crate::text::{all_ascii, ascii_chars, ascii_string};

verus! {

/// What the parser expected where it failed.
#[derive(Debug, Clone, Copy, PartialEq, Eq, Structural)]
pub enum Expect {
    /// An item keyword, or the end of the input.
    Item,
    Ident,
    Int,
    /// The start of a type.
    Type,
    /// The start of a response type, or `stream`.
    Response,
    /// One given token.
    Token(TokenKind),
    /// `?` or `:` after a field name.
    QuestionOrColon,
    /// `(` or `=` after a union variant name.
    ParenOrEq,
    /// A field or variant name, or the closing `}`.
    MemberOrClose,
    /// `fn`, or the closing `}` of a service.
    MethodOrClose,
}

/// Where parsing ends: `Ok(j)`, the index of the token after what was read, or `Err((p, e))`,
/// the index of the token where it failed and what it expected there.
pub type Parsed = Result<int, (int, Expect)>;

// ============================================================================
// The grammar, as a recognizer over tokens
// ============================================================================
pub open spec fn kind_is(t: Seq<Token>, i: int, k: TokenKind) -> bool {
    0 <= i < t.len() && t[i].kind == k
}

/// One token of kind `k` at `i`.
pub open spec fn expect(t: Seq<Token>, i: int, k: TokenKind) -> Parsed {
    if kind_is(t, i, k) {
        Ok(i + 1)
    } else {
        Err((i, Expect::Token(k)))
    }
}

/// The primitive type a keyword stands for.
pub open spec fn primitive(k: TokenKind) -> Option<Type> {
    match k {
        TokenKind::Bool => Some(Type::Bool),
        TokenKind::U8 => Some(Type::U8),
        TokenKind::U16 => Some(Type::U16),
        TokenKind::U32 => Some(Type::U32),
        TokenKind::U64 => Some(Type::U64),
        TokenKind::I8 => Some(Type::I8),
        TokenKind::I16 => Some(Type::I16),
        TokenKind::I32 => Some(Type::I32),
        TokenKind::I64 => Some(Type::I64),
        TokenKind::F32 => Some(Type::F32),
        TokenKind::F64 => Some(Type::F64),
        TokenKind::String => Some(Type::String),
        _ => None,
    }
}

/// `type := primitive | ident | "[" type "]" | "{" type ":" type "}"`.
pub open spec fn type_end(t: Seq<Token>, i: int) -> Parsed
    decreases t.len() - i,
{
    if !(0 <= i < t.len()) {
        Err((i, Expect::Type))
    } else if primitive(t[i].kind) is Some || t[i].kind == TokenKind::Ident {
        Ok(i + 1)
    } else if t[i].kind == TokenKind::LBracket {
        match type_end(t, i + 1) {
            Ok(j) => expect(t, j, TokenKind::RBracket),
            Err(e) => Err(e),
        }
    } else if t[i].kind == TokenKind::LBrace {
        match type_end(t, i + 1) {
            Ok(j) => match expect(t, j, TokenKind::Colon) {
                Ok(k) => if i < k <= t.len() {
                    match type_end(t, k) {
                        Ok(l) => expect(t, l, TokenKind::RBrace),
                        Err(e) => Err(e),
                    }
                } else {
                    Err((i, Expect::Type))
                },
                Err(e) => Err(e),
            },
            Err(e) => Err(e),
        }
    } else {
        Err((i, Expect::Type))
    }
}

/// An optional `;` at `j`.
pub open spec fn opt_semi(t: Seq<Token>, j: int) -> int {
    if kind_is(t, j, TokenKind::Semicolon) {
        j + 1
    } else {
        j
    }
}

/// `"?"? ":"` after a field name at `i`.
pub open spec fn field_head_end(t: Seq<Token>, i: int) -> Parsed {
    if kind_is(t, i + 1, TokenKind::Question) {
        expect(t, i + 2, TokenKind::Colon)
    } else if kind_is(t, i + 1, TokenKind::Colon) {
        Ok(i + 2)
    } else {
        Err((i + 1, Expect::QuestionOrColon))
    }
}

/// `"=" int` at `j`.
pub open spec fn index_end(t: Seq<Token>, j: int) -> Parsed {
    match expect(t, j, TokenKind::Eq) {
        Ok(k) => if kind_is(t, k, TokenKind::Int) {
            Ok(k + 1)
        } else {
            Err((k, Expect::Int))
        },
        Err(e) => Err(e),
    }
}

/// A struct field starting with its name at `i`.
pub open spec fn struct_field_end(t: Seq<Token>, i: int) -> Parsed {
    match field_head_end(t, i) {
        Ok(j) => match type_end(t, j) {
            Ok(k) => Ok(opt_semi(t, k)),
            Err(e) => Err(e),
        },
        Err(e) => Err(e),
    }
}

/// A message field starting with its name at `i`.
pub open spec fn message_field_end(t: Seq<Token>, i: int) -> Parsed {
    match field_head_end(t, i) {
        Ok(j) => match type_end(t, j) {
            Ok(k) => match index_end(t, k) {
                Ok(l) => Ok(opt_semi(t, l)),
                Err(e) => Err(e),
            },
            Err(e) => Err(e),
        },
        Err(e) => Err(e),
    }
}

/// An enum variant starting with its name at `i`.
pub open spec fn enum_variant_end(t: Seq<Token>, i: int) -> Parsed {
    match index_end(t, i + 1) {
        Ok(l) => Ok(opt_semi(t, l)),
        Err(e) => Err(e),
    }
}

/// A union variant starting with its name at `i`.
pub open spec fn union_variant_end(t: Seq<Token>, i: int) -> Parsed {
    if kind_is(t, i + 1, TokenKind::LParen) {
        match type_end(t, i + 2) {
            Ok(j) => match expect(t, j, TokenKind::RParen) {
                Ok(k) => match index_end(t, k) {
                    Ok(l) => Ok(opt_semi(t, l)),
                    Err(e) => Err(e),
                },
                Err(e) => Err(e),
            },
            Err(e) => Err(e),
        }
    } else if kind_is(t, i + 1, TokenKind::Eq) {
        match index_end(t, i + 1) {
            Ok(l) => Ok(opt_semi(t, l)),
            Err(e) => Err(e),
        }
    } else {
        Err((i + 1, Expect::ParenOrEq))
    }
}

/// A response type at `i`: `"stream"? type`.
pub open spec fn response_end(t: Seq<Token>, i: int) -> Parsed {
    if kind_is(t, i, TokenKind::Stream) {
        type_end(t, i + 1)
    } else if type_end(t, i) == Err::<int, (int, Expect)>((i, Expect::Type)) {
        Err((i, Expect::Response))
    } else {
        type_end(t, i)
    }
}

/// A service method starting with `fn` at `i`.
pub open spec fn method_end(t: Seq<Token>, i: int) -> Parsed {
    if !kind_is(t, i + 1, TokenKind::Ident) {
        Err((i + 1, Expect::Ident))
    } else {
        match expect(t, i + 2, TokenKind::LParen) {
            Ok(j) => match type_end(t, j) {
                Ok(k) => match expect(t, k, TokenKind::RParen) {
                    Ok(l) => match expect(t, l, TokenKind::Arrow) {
                        Ok(m) => match response_end(t, m) {
                            Ok(n) => match index_end(t, n) {
                                Ok(o) => Ok(opt_semi(t, o)),
                                Err(e) => Err(e),
                            },
                            Err(e) => Err(e),
                        },
                        Err(e) => Err(e),
                    },
                    Err(e) => Err(e),
                },
                Err(e) => Err(e),
            },
            Err(e) => Err(e),
        }
    }
}

/// The token a member of an item of kind `kw` starts with.
pub open spec fn member_start(kw: TokenKind) -> TokenKind {
    if kw == TokenKind::Service {
        TokenKind::Fn
    } else {
        TokenKind::Ident
    }
}

/// What is expected where a member of an item of kind `kw` may start.
pub open spec fn member_expect(kw: TokenKind) -> Expect {
    if kw == TokenKind::Service {
        Expect::MethodOrClose
    } else {
        Expect::MemberOrClose
    }
}

/// One member of an item of kind `kw`, starting at `i`.
pub open spec fn member_end(t: Seq<Token>, i: int, kw: TokenKind) -> Parsed {
    match kw {
        TokenKind::Struct => struct_field_end(t, i),
        TokenKind::Message => message_field_end(t, i),
        TokenKind::Enum => enum_variant_end(t, i),
        TokenKind::Union => union_variant_end(t, i),
        _ => method_end(t, i),
    }
}

/// The members of an item of kind `kw` from `i` on; `Ok(j)` is the index of the closing `}`.
pub open spec fn members_end(t: Seq<Token>, i: int, kw: TokenKind) -> Parsed
    decreases t.len() - i,
{
    if !(0 <= i < t.len()) {
        Err((i, member_expect(kw)))
    } else if t[i].kind == TokenKind::RBrace {
        Ok(i)
    } else if t[i].kind == member_start(kw) {
        match member_end(t, i, kw) {
            Ok(j) => if i < j <= t.len() {
                members_end(t, j, kw)
            } else {
                Err((i, member_expect(kw)))
            },
            Err(e) => Err(e),
        }
    } else {
        Err((i, member_expect(kw)))
    }
}

pub open spec fn is_item_keyword(k: TokenKind) -> bool {
    k == TokenKind::Struct || k == TokenKind::Message || k == TokenKind::Enum || k
        == TokenKind::Union || k == TokenKind::Service
}

/// An item starting with its keyword at `i`.
pub open spec fn item_end(t: Seq<Token>, i: int) -> Parsed {
    if !kind_is(t, i + 1, TokenKind::Ident) {
        Err((i + 1, Expect::Ident))
    } else {
        match expect(t, i + 2, TokenKind::LBrace) {
            Ok(j) => match members_end(t, j, t[i].kind) {
                Ok(k) => Ok(k + 1),
                Err(e) => Err(e),
            },
            Err(e) => Err(e),
        }
    }
}

/// The items from `i` to the end of the tokens.
pub open spec fn items_end(t: Seq<Token>, i: int) -> Parsed
    decreases t.len() - i,
{
    if !(0 <= i < t.len()) {
        Ok(i)
    } else if is_item_keyword(t[i].kind) {
        match item_end(t, i) {
            Ok(j) => if i < j <= t.len() {
                items_end(t, j)
            } else {
                Err((i, Expect::Item))
            },
            Err(e) => Err(e),
        }
    } else {
        Err((i, Expect::Item))
    }
}

// ============================================================================
// What the parser reads
// ============================================================================
/// The source range from the start of token `i` to the end of token `j - 1`.
pub open spec fn span_between(t: Seq<Token>, i: int, j: int) -> Span {
    Span { start: t[i].span.start, end: t[j - 1].span.end }
}

/// The text of a token.
pub open spec fn text_of(b: Seq<u8>, tok: Token) -> Seq<char> {
    ascii_chars(b.subrange(tok.span.start as int, tok.span.end as int))
}

/// `n` is the identifier at `i`.
pub open spec fn name_read(b: Seq<u8>, t: Seq<Token>, i: int, n: Spanned<String>) -> bool {
    kind_is(t, i, TokenKind::Ident) && n.span == t[i].span && n.node@ == text_of(b, t[i])
}

/// `n` is the integer at `i`.
pub open spec fn int_read(t: Seq<Token>, i: int, n: Spanned<u32>) -> bool {
    kind_is(t, i, TokenKind::Int) && n.span == t[i].span && n.node == t[i].value
}

/// The end of what parsed successfully (unspecified otherwise).
pub open spec fn end_of(p: Parsed) -> int {
    match p {
        Ok(j) => j,
        Err(_) => 0,
    }
}

/// `ty` is the type at `i`, each node spanning its tokens.
pub open spec fn type_read(b: Seq<u8>, t: Seq<Token>, i: int, ty: Type) -> bool
    decreases ty,
{
    &&& type_end(t, i) is Ok
    &&& match ty {
        Type::Named(n) => kind_is(t, i, TokenKind::Ident) && n@ == text_of(b, t[i]),
        Type::Array(inner) => kind_is(t, i, TokenKind::LBracket) && type_read(
            b,
            t,
            i + 1,
            inner.node,
        ) && inner.span == span_between(t, i + 1, end_of(type_end(t, i + 1))),
        Type::Dict(k, v) => {
            let kend = end_of(type_end(t, i + 1));
            &&& kind_is(t, i, TokenKind::LBrace)
            &&& type_read(b, t, i + 1, k.node)
            &&& k.span == span_between(t, i + 1, kend)
            &&& type_read(b, t, kend + 1, v.node)
            &&& v.span == span_between(t, kend + 1, end_of(type_end(t, kend + 1)))
        },
        _ => 0 <= i < t.len() && primitive(t[i].kind) == Some(ty),
    }
}

/// `ty` is the type at `i`, spanning its tokens.
pub open spec fn spanned_type_read(b: Seq<u8>, t: Seq<Token>, i: int, ty: Spanned<Type>) -> bool {
    type_read(b, t, i, ty.node) && ty.span == span_between(t, i, end_of(type_end(t, i)))
}

/// Where the type of a field whose name is at `i` starts.
pub open spec fn field_type_start(t: Seq<Token>, i: int) -> int {
    if kind_is(t, i + 1, TokenKind::Question) {
        i + 3
    } else {
        i + 2
    }
}

pub open spec fn struct_field_read(b: Seq<u8>, t: Seq<Token>, i: int, f: Spanned<StructField>) -> bool {
    &&& struct_field_end(t, i) is Ok
    &&& f.span == span_between(t, i, end_of(struct_field_end(t, i)))
    &&& name_read(b, t, i, f.node.name)
    &&& f.node.optional == kind_is(t, i + 1, TokenKind::Question)
    &&& spanned_type_read(b, t, field_type_start(t, i), f.node.ty)
}

pub open spec fn message_field_read(b: Seq<u8>, t: Seq<Token>, i: int, f: Spanned<MessageField>) -> bool {
    let ts = field_type_start(t, i);
    &&& message_field_end(t, i) is Ok
    &&& f.span == span_between(t, i, end_of(message_field_end(t, i)))
    &&& name_read(b, t, i, f.node.name)
    &&& f.node.optional == kind_is(t, i + 1, TokenKind::Question)
    &&& spanned_type_read(b, t, ts, f.node.ty)
    &&& int_read(t, end_of(type_end(t, ts)) + 1, f.node.index)
}

pub open spec fn enum_variant_read(b: Seq<u8>, t: Seq<Token>, i: int, v: Spanned<EnumVariant>) -> bool {
    &&& enum_variant_end(t, i) is Ok
    &&& v.span == span_between(t, i, end_of(enum_variant_end(t, i)))
    &&& name_read(b, t, i, v.node.name)
    &&& int_read(t, i + 2, v.node.index)
}

pub open spec fn union_variant_read(b: Seq<u8>, t: Seq<Token>, i: int, v: Spanned<UnionVariant>) -> bool {
    &&& union_variant_end(t, i) is Ok
    &&& v.span == span_between(t, i, end_of(union_variant_end(t, i)))
    &&& name_read(b, t, i, v.node.name)
    &&& if kind_is(t, i + 1, TokenKind::LParen) {
        &&& v.node.ty matches Some(ty) && spanned_type_read(b, t, i + 2, ty)
        &&& int_read(t, end_of(type_end(t, i + 2)) + 2, v.node.index)
    } else {
        v.node.ty is None && int_read(t, i + 2, v.node.index)
    }
}

/// Where the response of a method starting at `i` starts.
pub open spec fn response_start(t: Seq<Token>, i: int) -> int {
    end_of(type_end(t, i + 3)) + 2
}

pub open spec fn response_read(b: Seq<u8>, t: Seq<Token>, l: int, r: Spanned<ServiceResponse>) -> bool {
    &&& response_end(t, l) is Ok
    &&& r.span == span_between(t, l, end_of(response_end(t, l)))
    &&& if kind_is(t, l, TokenKind::Stream) {
        r.node matches ServiceResponse::Stream(ty) && type_read(b, t, l + 1, ty)
    } else {
        r.node matches ServiceResponse::Unary(ty) && type_read(b, t, l, ty)
    }
}

pub open spec fn method_read(b: Seq<u8>, t: Seq<Token>, i: int, m: Spanned<ServiceMethod>) -> bool {
    let l = response_start(t, i);
    &&& method_end(t, i) is Ok
    &&& m.span == span_between(t, i, end_of(method_end(t, i)))
    &&& name_read(b, t, i + 1, m.node.name)
    &&& spanned_type_read(b, t, i + 3, m.node.request)
    &&& response_read(b, t, l, m.node.response)
    &&& int_read(t, end_of(response_end(t, l)) + 1, m.node.index)
}

pub open spec fn struct_fields_read(
    b: Seq<u8>,
    t: Seq<Token>,
    i: int,
    fs: Seq<Spanned<StructField>>,
) -> bool
    decreases fs.len(),
{
    if fs.len() == 0 {
        kind_is(t, i, TokenKind::RBrace)
    } else {
        struct_field_read(b, t, i, fs[0]) && struct_fields_read(
            b,
            t,
            end_of(struct_field_end(t, i)),
            fs.drop_first(),
        )
    }
}

pub open spec fn message_fields_read(
    b: Seq<u8>,
    t: Seq<Token>,
    i: int,
    fs: Seq<Spanned<MessageField>>,
) -> bool
    decreases fs.len(),
{
    if fs.len() == 0 {
        kind_is(t, i, TokenKind::RBrace)
    } else {
        message_field_read(b, t, i, fs[0]) && message_fields_read(
            b,
            t,
            end_of(message_field_end(t, i)),
            fs.drop_first(),
        )
    }
}

pub open spec fn enum_variants_read(
    b: Seq<u8>,
    t: Seq<Token>,
    i: int,
    vs: Seq<Spanned<EnumVariant>>,
) -> bool
    decreases vs.len(),
{
    if vs.len() == 0 {
        kind_is(t, i, TokenKind::RBrace)
    } else {
        enum_variant_read(b, t, i, vs[0]) && enum_variants_read(
            b,
            t,
            end_of(enum_variant_end(t, i)),
            vs.drop_first(),
        )
    }
}

pub open spec fn union_variants_read(
    b: Seq<u8>,
    t: Seq<Token>,
    i: int,
    vs: Seq<Spanned<UnionVariant>>,
) -> bool
    decreases vs.len(),
{
    if vs.len() == 0 {
        kind_is(t, i, TokenKind::RBrace)
    } else {
        union_variant_read(b, t, i, vs[0]) && union_variants_read(
            b,
            t,
            end_of(union_variant_end(t, i)),
            vs.drop_first(),
        )
    }
}

pub open spec fn methods_read(
    b: Seq<u8>,
    t: Seq<Token>,
    i: int,
    ms: Seq<Spanned<ServiceMethod>>,
) -> bool
    decreases ms.len(),
{
    if ms.len() == 0 {
        kind_is(t, i, TokenKind::RBrace)
    } else {
        method_read(b, t, i, ms[0]) && methods_read(
            b,
            t,
            end_of(method_end(t, i)),
            ms.drop_first(),
        )
    }
}

/// `it` is the item at `i`.
pub open spec fn item_read(b: Seq<u8>, t: Seq<Token>, i: int, it: Spanned<Item>) -> bool {
    &&& item_end(t, i) is Ok
    &&& it.span == span_between(t, i, end_of(item_end(t, i)))
    &&& match it.node {
        Item::Struct(s) => kind_is(t, i, TokenKind::Struct) && name_read(b, t, i + 1, s.name)
            && struct_fields_read(b, t, i + 3, s.fields@),
        Item::Message(m) => kind_is(t, i, TokenKind::Message) && name_read(b, t, i + 1, m.name)
            && message_fields_read(b, t, i + 3, m.fields@),
        Item::Enum(e) => kind_is(t, i, TokenKind::Enum) && name_read(b, t, i + 1, e.name)
            && enum_variants_read(b, t, i + 3, e.variants@),
        Item::Union(u) => kind_is(t, i, TokenKind::Union) && name_read(b, t, i + 1, u.name)
            && union_variants_read(b, t, i + 3, u.variants@),
        Item::Service(s) => kind_is(t, i, TokenKind::Service) && name_read(b, t, i + 1, s.name)
            && methods_read(b, t, i + 3, s.methods@),
    }
}

/// `items` are the items from `i` to the end of the tokens.
pub open spec fn items_read(b: Seq<u8>, t: Seq<Token>, i: int, items: Seq<Spanned<Item>>) -> bool
    decreases items.len(),
{
    if items.len() == 0 {
        i >= t.len()
    } else {
        item_read(b, t, i, items[0]) && items_read(
            b,
            t,
            end_of(item_end(t, i)),
            items.drop_first(),
        )
    }
}

/// `s` is the schema that the tokens `t` of the source bytes `b` spell.
pub open spec fn schema_read(b: Seq<u8>, t: Seq<Token>, s: Schema) -> bool {
    items_read(b, t, 0, s.items@)
}

// ============================================================================
// Where parsing ends
// ============================================================================
/// Where a parse ends or fails lies within the tokens, after where it started.
pub open spec fn parsed_within(p: Parsed, t: Seq<Token>, i: int) -> bool {
    match p {
        Ok(j) => i < j <= t.len(),
        Err((q, _)) => i <= q <= t.len(),
    }
}

pub proof fn lemma_type_end(t: Seq<Token>, i: int)
    requires
        0 <= i,
    ensures
        i <= t.len() ==> parsed_within(type_end(t, i), t, i),
    decreases t.len() - i,
{
    if i < t.len() {
        if t[i].kind == TokenKind::LBracket || t[i].kind == TokenKind::LBrace {
            lemma_type_end(t, i + 1);
            if let Ok(j) = type_end(t, i + 1) {
                if t[i].kind == TokenKind::LBrace && kind_is(t, j, TokenKind::Colon) {
                    lemma_type_end(t, j + 1);
                }
            }
        }
    }
}

pub proof fn lemma_member_end(t: Seq<Token>, i: int, kw: TokenKind)
    requires
        0 <= i < t.len(),
    ensures
        parsed_within(member_end(t, i, kw), t, i),
{
    lemma_type_end(t, i + 2);
    lemma_type_end(t, i + 3);
    if kind_is(t, i + 1, TokenKind::Question) {
        lemma_type_end(t, i + 3);
        if let Ok(k) = type_end(t, i + 3) {
            assert(kind_is(t, i + 2, TokenKind::Colon) ==> k <= t.len());
        }
    }
    match type_end(t, i + 2) {
        Ok(j) => {
            if kind_is(t, j, TokenKind::RParen) {
                lemma_type_end(t, j + 1);
            }
        },
        Err(_) => {},
    }
    match type_end(t, i + 3) {
        Ok(k) => {
            if kind_is(t, k, TokenKind::RParen) && kind_is(t, k + 1, TokenKind::Arrow) {
                lemma_type_end(t, k + 2);
                lemma_type_end(t, k + 3);
            }
        },
        Err(_) => {},
    }
}

pub proof fn lemma_members_end(t: Seq<Token>, i: int, kw: TokenKind)
    requires
        0 <= i <= t.len(),
    ensures
        members_end(t, i, kw) matches Ok(j) ==> i <= j < t.len() && t[j].kind == TokenKind::RBrace,
        members_end(t, i, kw) matches Err((q, _)) ==> i <= q <= t.len(),
    decreases t.len() - i,
{
    if i < t.len() && t[i].kind != TokenKind::RBrace && t[i].kind == member_start(kw) {
        lemma_member_end(t, i, kw);
        if let Ok(j) = member_end(t, i, kw) {
            lemma_members_end(t, j, kw);
        }
    }
}

pub proof fn lemma_item_end(t: Seq<Token>, i: int)
    requires
        0 <= i < t.len(),
    ensures
        parsed_within(item_end(t, i), t, i),
{
    if kind_is(t, i + 1, TokenKind::Ident) && kind_is(t, i + 2, TokenKind::LBrace) {
        lemma_members_end(t, i + 3, t[i].kind);
    }
}

pub proof fn lemma_items_end(t: Seq<Token>, i: int)
    requires
        0 <= i <= t.len(),
    ensures
        items_end(t, i) matches Ok(j) ==> j == t.len(),
        items_end(t, i) matches Err((q, _)) ==> i <= q <= t.len(),
    decreases t.len() - i,
{
    if i < t.len() && is_item_keyword(t[i].kind) {
        lemma_item_end(t, i);
        if let Ok(j) = item_end(t, i) {
            lemma_items_end(t, j);
        }
    }
}

// ============================================================================
// The parser
// ============================================================================
/// A parse result that ends, or fails, where the grammar says.
pub open spec fn ends_as<T>(r: Result<(T, usize), (usize, Expect)>, p: Parsed) -> bool {
    match p {
        Ok(j) => r matches Ok((_, k)) && k == j,
        Err((q, e)) => r matches Err((q2, e2)) && q2 == q && e2 == e,
    }
}

/// A position result that is where the grammar says.
pub open spec fn at_as(r: Result<usize, (usize, Expect)>, p: Parsed) -> bool {
    match p {
        Ok(j) => r matches Ok(k) && k == j,
        Err((q, e)) => r matches Err((q2, e2)) && q2 == q && e2 == e,
    }
}

fn kind_at(t: &Vec<Token>, i: usize, k: TokenKind) -> (r: bool)
    ensures
        r == kind_is(t@, i as int, k),
{
    i < t.len() && t[i].kind == k
}

fn expect_at(t: &Vec<Token>, i: usize, k: TokenKind) -> (r: Result<usize, (usize, Expect)>)
    requires
        i <= t@.len(),
    ensures
        at_as(r, expect(t@, i as int, k)),
{
    if i < t.len() && t[i].kind == k {
        Ok(i + 1)
    } else {
        Err((i, Expect::Token(k)))
    }
}

fn opt_semi_at(t: &Vec<Token>, j: usize) -> (r: usize)
    requires
        j <= t@.len(),
    ensures
        r == opt_semi(t@, j as int),
{
    if j < t.len() && t[j].kind == TokenKind::Semicolon {
        j + 1
    } else {
        j
    }
}

/// The identifier at `i`, as a name.
fn read_name(b: &[u8], t: &Vec<Token>, i: usize) -> (r: Spanned<String>)
    requires
        tokens_wf(b@, t@),
        kind_is(t@, i as int, TokenKind::Ident),
    ensures
        name_read(b@, t@, i as int, r),
{
    let sp = t[i].span;
    let s = ascii_string(b, sp.start, sp.end);
    Spanned { node: s, span: sp }
}

/// The integer at `i`.
fn read_int(t: &Vec<Token>, i: usize) -> (r: Spanned<u32>)
    requires
        kind_is(t@, i as int, TokenKind::Int),
    ensures
        int_read(t@, i as int, r),
{
    Spanned { node: t[i].value, span: t[i].span }
}

fn span_from(t: &Vec<Token>, i: usize, j: usize) -> (r: Span)
    requires
        i < j <= t@.len(),
    ensures
        r == span_between(t@, i as int, j as int),
{
    Span::new(t[i].span.start, t[j - 1].span.end)
}

/// The primitive type of a keyword.
fn primitive_of(k: TokenKind) -> (r: Option<Type>)
    ensures
        r == primitive(k),
{
    let ty = match k {
        TokenKind::Bool => Type::Bool,
        TokenKind::U8 => Type::U8,
        TokenKind::U16 => Type::U16,
        TokenKind::U32 => Type::U32,
        TokenKind::U64 => Type::U64,
        TokenKind::I8 => Type::I8,
        TokenKind::I16 => Type::I16,
        TokenKind::I32 => Type::I32,
        TokenKind::I64 => Type::I64,
        TokenKind::F32 => Type::F32,
        TokenKind::F64 => Type::F64,
        TokenKind::String => Type::String,
        _ => {
            return None;
        },
    };
    Some(ty)
}

/// Parses a type at `i`.
fn parse_type(b: &[u8], t: &Vec<Token>, i: usize) -> (r: Result<(Spanned<Type>, usize), (usize, Expect)>)
    requires
        tokens_wf(b@, t@),
        i <= t@.len(),
    ensures
        ends_as(r, type_end(t@, i as int)),
        r matches Ok((ty, _)) ==> spanned_type_read(b@, t@, i as int, ty),
    decreases t@.len() - i,
{
    proof {
        lemma_type_end(t@, i as int);
    }
    if i >= t.len() {
        return Err((i, Expect::Type));
    }
    let k = t[i].kind;
    if let Some(p) = primitive_of(k) {
        return Ok((Spanned { node: p, span: t[i].span }, i + 1));
    }
    if k == TokenKind::Ident {
        let n = read_name(b, t, i);
        return Ok((Spanned { node: Type::Named(n.node), span: t[i].span }, i + 1));
    }
    if k == TokenKind::LBracket {
        let (inner, j) = match parse_type(b, t, i + 1) {
            Ok(x) => x,
            Err(e) => {
                return Err(e);
            },
        };
        proof {
            lemma_type_end(t@, i + 1);
        }
        if !kind_at(t, j, TokenKind::RBracket) {
            return Err((j, Expect::Token(TokenKind::RBracket)));
        }
        let span = span_from(t, i, j + 1);
        return Ok((Spanned { node: Type::Array(Box::new(inner)), span }, j + 1));
    }
    if k == TokenKind::LBrace {
        let (key, j) = match parse_type(b, t, i + 1) {
            Ok(x) => x,
            Err(e) => {
                return Err(e);
            },
        };
        proof {
            lemma_type_end(t@, i + 1);
        }
        if !kind_at(t, j, TokenKind::Colon) {
            return Err((j, Expect::Token(TokenKind::Colon)));
        }
        let (value, l) = match parse_type(b, t, j + 1) {
            Ok(x) => x,
            Err(e) => {
                return Err(e);
            },
        };
        proof {
            lemma_type_end(t@, j + 1);
        }
        if !kind_at(t, l, TokenKind::RBrace) {
            return Err((l, Expect::Token(TokenKind::RBrace)));
        }
        let span = span_from(t, i, l + 1);
        return Ok((Spanned { node: Type::Dict(Box::new(key), Box::new(value)), span }, l + 1));
    }
    Err((i, Expect::Type))
}

/// `"?"? ":"` after the field name at `i`: whether the field is optional, and where its type
/// starts.
fn parse_field_head(t: &Vec<Token>, i: usize) -> (r: Result<(bool, usize), (usize, Expect)>)
    requires
        i < t@.len() <= usize::MAX,
    ensures
        ends_as(r, field_head_end(t@, i as int)),
        r matches Ok((opt, j)) ==> opt == kind_is(t@, i + 1, TokenKind::Question) && j
            == field_type_start(t@, i as int),
{
    if kind_at(t, i + 1, TokenKind::Question) {
        match expect_at(t, i + 2, TokenKind::Colon) {
            Ok(j) => Ok((true, j)),
            Err(e) => Err(e),
        }
    } else if kind_at(t, i + 1, TokenKind::Colon) {
        Ok((false, i + 2))
    } else {
        Err((i + 1, Expect::QuestionOrColon))
    }
}

/// `"=" int` at `j`.
fn parse_index(t: &Vec<Token>, j: usize) -> (r: Result<(Spanned<u32>, usize), (usize, Expect)>)
    requires
        j <= t@.len() <= usize::MAX,
    ensures
        ends_as(r, index_end(t@, j as int)),
        r matches Ok((n, _)) ==> int_read(t@, j + 1, n),
{
    let k = match expect_at(t, j, TokenKind::Eq) {
        Ok(k) => k,
        Err(e) => {
            return Err(e);
        },
    };
    if !kind_at(t, k, TokenKind::Int) {
        return Err((k, Expect::Int));
    }
    Ok((read_int(t, k), k + 1))
}

fn parse_struct_field(b: &[u8], t: &Vec<Token>, i: usize) -> (r: Result<
    (Spanned<StructField>, usize),
    (usize, Expect),
>)
    requires
        tokens_wf(b@, t@),
        kind_is(t@, i as int, TokenKind::Ident),
    ensures
        ends_as(r, struct_field_end(t@, i as int)),
        r matches Ok((f, _)) ==> struct_field_read(b@, t@, i as int, f),
{
    let name = read_name(b, t, i);
    let (optional, ts) = match parse_field_head(t, i) {
        Ok(x) => x,
        Err(e) => {
            return Err(e);
        },
    };
    let (ty, k) = match parse_type(b, t, ts) {
        Ok(x) => x,
        Err(e) => {
            return Err(e);
        },
    };
    proof {
        lemma_type_end(t@, ts as int);
    }
    let end = opt_semi_at(t, k);
    let span = span_from(t, i, end);
    Ok((Spanned { node: StructField { name, ty, optional }, span }, end))
}

fn parse_message_field(b: &[u8], t: &Vec<Token>, i: usize) -> (r: Result<
    (Spanned<MessageField>, usize),
    (usize, Expect),
>)
    requires
        tokens_wf(b@, t@),
        kind_is(t@, i as int, TokenKind::Ident),
    ensures
        ends_as(r, message_field_end(t@, i as int)),
        r matches Ok((f, _)) ==> message_field_read(b@, t@, i as int, f),
{
    let name = read_name(b, t, i);
    let (optional, ts) = match parse_field_head(t, i) {
        Ok(x) => x,
        Err(e) => {
            return Err(e);
        },
    };
    let (ty, k) = match parse_type(b, t, ts) {
        Ok(x) => x,
        Err(e) => {
            return Err(e);
        },
    };
    proof {
        lemma_type_end(t@, ts as int);
    }
    let (index, l) = match parse_index(t, k) {
        Ok(x) => x,
        Err(e) => {
            return Err(e);
        },
    };
    let end = opt_semi_at(t, l);
    let span = span_from(t, i, end);
    Ok((Spanned { node: MessageField { name, ty, index, optional }, span }, end))
}

fn parse_enum_variant(b: &[u8], t: &Vec<Token>, i: usize) -> (r: Result<
    (Spanned<EnumVariant>, usize),
    (usize, Expect),
>)
    requires
        tokens_wf(b@, t@),
        kind_is(t@, i as int, TokenKind::Ident),
    ensures
        ends_as(r, enum_variant_end(t@, i as int)),
        r matches Ok((v, _)) ==> enum_variant_read(b@, t@, i as int, v),
{
    let name = read_name(b, t, i);
    let (index, l) = match parse_index(t, i + 1) {
        Ok(x) => x,
        Err(e) => {
            return Err(e);
        },
    };
    let end = opt_semi_at(t, l);
    let span = span_from(t, i, end);
    Ok((Spanned { node: EnumVariant { name, index }, span }, end))
}

fn parse_union_variant(b: &[u8], t: &Vec<Token>, i: usize) -> (r: Result<
    (Spanned<UnionVariant>, usize),
    (usize, Expect),
>)
    requires
        tokens_wf(b@, t@),
        kind_is(t@, i as int, TokenKind::Ident),
    ensures
        ends_as(r, union_variant_end(t@, i as int)),
        r matches Ok((v, _)) ==> union_variant_read(b@, t@, i as int, v),
{
    let name = read_name(b, t, i);
    let (ty, k) = if kind_at(t, i + 1, TokenKind::LParen) {
        let (ty, j) = match parse_type(b, t, i + 2) {
            Ok(x) => x,
            Err(e) => {
                return Err(e);
            },
        };
        proof {
            lemma_type_end(t@, i + 2);
        }
        if !kind_at(t, j, TokenKind::RParen) {
            return Err((j, Expect::Token(TokenKind::RParen)));
        }
        (Some(ty), j + 1)
    } else if kind_at(t, i + 1, TokenKind::Eq) {
        (None, i + 1)
    } else {
        return Err((i + 1, Expect::ParenOrEq));
    };
    let (index, l) = match parse_index(t, k) {
        Ok(x) => x,
        Err(e) => {
            return Err(e);
        },
    };
    let end = opt_semi_at(t, l);
    let span = span_from(t, i, end);
    Ok((Spanned { node: UnionVariant { name, ty, index }, span }, end))
}

/// A response type at `l`.
fn parse_response(b: &[u8], t: &Vec<Token>, l: usize) -> (r: Result<
    (Spanned<ServiceResponse>, usize),
    (usize, Expect),
>)
    requires
        tokens_wf(b@, t@),
        l <= t@.len(),
    ensures
        ends_as(r, response_end(t@, l as int)),
        r matches Ok((resp, _)) ==> response_read(b@, t@, l as int, resp),
{
    proof {
        lemma_type_end(t@, l as int);
        lemma_type_end(t@, l + 1);
    }
    if kind_at(t, l, TokenKind::Stream) {
        match parse_type(b, t, l + 1) {
            Ok((ty, m)) => {
                let span = span_from(t, l, m);
                Ok((Spanned { node: ServiceResponse::Stream(ty.node), span }, m))
            },
            Err(e) => Err(e),
        }
    } else {
        match parse_type(b, t, l) {
            Ok((ty, m)) => Ok((Spanned { node: ServiceResponse::Unary(ty.node), span: ty.span }, m)),
            Err((p, e)) => {
                if p == l && e == Expect::Type {
                    Err((l, Expect::Response))
                } else {
                    Err((p, e))
                }
            },
        }
    }
}

/// A method starting with `fn` at `i`.
fn parse_method(b: &[u8], t: &Vec<Token>, i: usize) -> (r: Result<
    (Spanned<ServiceMethod>, usize),
    (usize, Expect),
>)
    requires
        tokens_wf(b@, t@),
        kind_is(t@, i as int, TokenKind::Fn),
    ensures
        ends_as(r, method_end(t@, i as int)),
        r matches Ok((m, _)) ==> method_read(b@, t@, i as int, m),
{
    if !kind_at(t, i + 1, TokenKind::Ident) {
        return Err((i + 1, Expect::Ident));
    }
    let name = read_name(b, t, i + 1);
    let j = match expect_at(t, i + 2, TokenKind::LParen) {
        Ok(j) => j,
        Err(e) => {
            return Err(e);
        },
    };
    let (request, k) = match parse_type(b, t, j) {
        Ok(x) => x,
        Err(e) => {
            return Err(e);
        },
    };
    proof {
        lemma_type_end(t@, j as int);
    }
    let l = match expect_at(t, k, TokenKind::RParen) {
        Ok(l) => l,
        Err(e) => {
            return Err(e);
        },
    };
    let m = match expect_at(t, l, TokenKind::Arrow) {
        Ok(m) => m,
        Err(e) => {
            return Err(e);
        },
    };
    let (response, n) = match parse_response(b, t, m) {
        Ok(x) => x,
        Err(e) => {
            return Err(e);
        },
    };
    proof {
        lemma_type_end(t@, m as int);
        lemma_type_end(t@, m + 1);
    }
    let (index, o) = match parse_index(t, n) {
        Ok(x) => x,
        Err(e) => {
            return Err(e);
        },
    };
    let end = opt_semi_at(t, o);
    let span = span_from(t, i, end);
    Ok((Spanned { node: ServiceMethod { name, request, response, index }, span }, end))
}

/// The fields of a struct from `i` to the closing `}`.
fn parse_struct_fields(b: &[u8], t: &Vec<Token>, i: usize) -> (r: Result<
    (Vec<Spanned<StructField>>, usize),
    (usize, Expect),
>)
    requires
        tokens_wf(b@, t@),
        i <= t@.len(),
    ensures
        ends_as(r, members_end(t@, i as int, TokenKind::Struct)),
        r matches Ok((xs, _)) ==> struct_fields_read(b@, t@, i as int, xs@),
    decreases t@.len() - i,
{
    if i >= t.len() {
        return Err((i, Expect::MemberOrClose));
    }
    if t[i].kind == TokenKind::RBrace {
        let xs: Vec<Spanned<StructField>> = Vec::new();
        return Ok((xs, i));
    }
    if t[i].kind != TokenKind::Ident {
        return Err((i, Expect::MemberOrClose));
    }
    let (x, j) = match parse_struct_field(b, t, i) {
        Ok(p) => p,
        Err(e) => {
            return Err(e);
        },
    };
    proof {
        lemma_member_end(t@, i as int, TokenKind::Struct);
    }
    let (mut xs, k) = match parse_struct_fields(b, t, j) {
        Ok(p) => p,
        Err(e) => {
            return Err(e);
        },
    };
    let ghost rest = xs@;
    xs.insert(0, x);
    assert(xs@.drop_first() =~= rest);
    Ok((xs, k))
}

/// The fields of a message from `i` to the closing `}`.
fn parse_message_fields(b: &[u8], t: &Vec<Token>, i: usize) -> (r: Result<
    (Vec<Spanned<MessageField>>, usize),
    (usize, Expect),
>)
    requires
        tokens_wf(b@, t@),
        i <= t@.len(),
    ensures
        ends_as(r, members_end(t@, i as int, TokenKind::Message)),
        r matches Ok((xs, _)) ==> message_fields_read(b@, t@, i as int, xs@),
    decreases t@.len() - i,
{
    if i >= t.len() {
        return Err((i, Expect::MemberOrClose));
    }
    if t[i].kind == TokenKind::RBrace {
        let xs: Vec<Spanned<MessageField>> = Vec::new();
        return Ok((xs, i));
    }
    if t[i].kind != TokenKind::Ident {
        return Err((i, Expect::MemberOrClose));
    }
    let (x, j) = match parse_message_field(b, t, i) {
        Ok(p) => p,
        Err(e) => {
            return Err(e);
        },
    };
    proof {
        lemma_member_end(t@, i as int, TokenKind::Message);
    }
    let (mut xs, k) = match parse_message_fields(b, t, j) {
        Ok(p) => p,
        Err(e) => {
            return Err(e);
        },
    };
    let ghost rest = xs@;
    xs.insert(0, x);
    assert(xs@.drop_first() =~= rest);
    Ok((xs, k))
}

/// The variants of an enum from `i` to the closing `}`.
fn parse_enum_variants(b: &[u8], t: &Vec<Token>, i: usize) -> (r: Result<
    (Vec<Spanned<EnumVariant>>, usize),
    (usize, Expect),
>)
    requires
        tokens_wf(b@, t@),
        i <= t@.len(),
    ensures
        ends_as(r, members_end(t@, i as int, TokenKind::Enum)),
        r matches Ok((xs, _)) ==> enum_variants_read(b@, t@, i as int, xs@),
    decreases t@.len() - i,
{
    if i >= t.len() {
        return Err((i, Expect::MemberOrClose));
    }
    if t[i].kind == TokenKind::RBrace {
        let xs: Vec<Spanned<EnumVariant>> = Vec::new();
        return Ok((xs, i));
    }
    if t[i].kind != TokenKind::Ident {
        return Err((i, Expect::MemberOrClose));
    }
    let (x, j) = match parse_enum_variant(b, t, i) {
        Ok(p) => p,
        Err(e) => {
            return Err(e);
        },
    };
    proof {
        lemma_member_end(t@, i as int, TokenKind::Enum);
    }
    let (mut xs, k) = match parse_enum_variants(b, t, j) {
        Ok(p) => p,
        Err(e) => {
            return Err(e);
        },
    };
    let ghost rest = xs@;
    xs.insert(0, x);
    assert(xs@.drop_first() =~= rest);
    Ok((xs, k))
}

/// The variants of a union from `i` to the closing `}`.
fn parse_union_variants(b: &[u8], t: &Vec<Token>, i: usize) -> (r: Result<
    (Vec<Spanned<UnionVariant>>, usize),
    (usize, Expect),
>)
    requires
        tokens_wf(b@, t@),
        i <= t@.len(),
    ensures
        ends_as(r, members_end(t@, i as int, TokenKind::Union)),
        r matches Ok((xs, _)) ==> union_variants_read(b@, t@, i as int, xs@),
    decreases t@.len() - i,
{
    if i >= t.len() {
        return Err((i, Expect::MemberOrClose));
    }
    if t[i].kind == TokenKind::RBrace {
        let xs: Vec<Spanned<UnionVariant>> = Vec::new();
        return Ok((xs, i));
    }
    if t[i].kind != TokenKind::Ident {
        return Err((i, Expect::MemberOrClose));
    }
    let (x, j) = match parse_union_variant(b, t, i) {
        Ok(p) => p,
        Err(e) => {
            return Err(e);
        },
    };
    proof {
        lemma_member_end(t@, i as int, TokenKind::Union);
    }
    let (mut xs, k) = match parse_union_variants(b, t, j) {
        Ok(p) => p,
        Err(e) => {
            return Err(e);
        },
    };
    let ghost rest = xs@;
    xs.insert(0, x);
    assert(xs@.drop_first() =~= rest);
    Ok((xs, k))
}

/// The methods of a service from `i` to the closing `}`.
fn parse_methods(b: &[u8], t: &Vec<Token>, i: usize) -> (r: Result<
    (Vec<Spanned<ServiceMethod>>, usize),
    (usize, Expect),
>)
    requires
        tokens_wf(b@, t@),
        i <= t@.len(),
    ensures
        ends_as(r, members_end(t@, i as int, TokenKind::Service)),
        r matches Ok((xs, _)) ==> methods_read(b@, t@, i as int, xs@),
    decreases t@.len() - i,
{
    if i >= t.len() {
        return Err((i, Expect::MethodOrClose));
    }
    if t[i].kind == TokenKind::RBrace {
        let xs: Vec<Spanned<ServiceMethod>> = Vec::new();
        return Ok((xs, i));
    }
    if t[i].kind != TokenKind::Fn {
        return Err((i, Expect::MethodOrClose));
    }
    let (x, j) = match parse_method(b, t, i) {
        Ok(p) => p,
        Err(e) => {
            return Err(e);
        },
    };
    proof {
        lemma_member_end(t@, i as int, TokenKind::Service);
    }
    let (mut xs, k) = match parse_methods(b, t, j) {
        Ok(p) => p,
        Err(e) => {
            return Err(e);
        },
    };
    let ghost rest = xs@;
    xs.insert(0, x);
    assert(xs@.drop_first() =~= rest);
    Ok((xs, k))
}

/// An item starting with its keyword at `i`.
fn parse_item(b: &[u8], t: &Vec<Token>, i: usize) -> (r: Result<(Spanned<Item>, usize), (usize, Expect)>)
    requires
        tokens_wf(b@, t@),
        i < t@.len(),
        is_item_keyword(t@[i as int].kind),
    ensures
        ends_as(r, item_end(t@, i as int)),
        r matches Ok((it, _)) ==> item_read(b@, t@, i as int, it),
{
    if !kind_at(t, i + 1, TokenKind::Ident) {
        return Err((i + 1, Expect::Ident));
    }
    let name = read_name(b, t, i + 1);
    let j = match expect_at(t, i + 2, TokenKind::LBrace) {
        Ok(j) => j,
        Err(e) => {
            return Err(e);
        },
    };
    proof {
        lemma_members_end(t@, j as int, t@[i as int].kind);
    }
    let kw = t[i].kind;
    let (node, k) = if kw == TokenKind::Struct {
        match parse_struct_fields(b, t, j) {
            Ok((fields, k)) => (Item::Struct(Struct { name, fields }), k),
            Err(e) => {
                return Err(e);
            },
        }
    } else if kw == TokenKind::Message {
        match parse_message_fields(b, t, j) {
            Ok((fields, k)) => (Item::Message(Message { name, fields }), k),
            Err(e) => {
                return Err(e);
            },
        }
    } else if kw == TokenKind::Enum {
        match parse_enum_variants(b, t, j) {
            Ok((variants, k)) => (Item::Enum(Enum { name, variants }), k),
            Err(e) => {
                return Err(e);
            },
        }
    } else if kw == TokenKind::Union {
        match parse_union_variants(b, t, j) {
            Ok((variants, k)) => (Item::Union(Union { name, variants }), k),
            Err(e) => {
                return Err(e);
            },
        }
    } else {
        match parse_methods(b, t, j) {
            Ok((methods, k)) => (Item::Service(Service { name, methods }), k),
            Err(e) => {
                return Err(e);
            },
        }
    };
    let span = span_from(t, i, k + 1);
    Ok((Spanned { node, span }, k + 1))
}

/// The items from `i` to the end of the tokens.
fn parse_items(b: &[u8], t: &Vec<Token>, i: usize) -> (r: Result<Vec<Spanned<Item>>, (usize, Expect)>)
    requires
        tokens_wf(b@, t@),
        i <= t@.len(),
    ensures
        match items_end(t@, i as int) {
            Ok(_) => r matches Ok(items) && items_read(b@, t@, i as int, items@),
            Err((q, e)) => r matches Err((q2, e2)) && q2 == q && e2 == e,
        },
    decreases t@.len() - i,
{
    if i >= t.len() {
        let items: Vec<Spanned<Item>> = Vec::new();
        return Ok(items);
    }
    if !(t[i].kind == TokenKind::Struct || t[i].kind == TokenKind::Message || t[i].kind
        == TokenKind::Enum || t[i].kind == TokenKind::Union || t[i].kind == TokenKind::Service) {
        return Err((i, Expect::Item));
    }
    let (item, j) = match parse_item(b, t, i) {
        Ok(p) => p,
        Err(e) => {
            return Err(e);
        },
    };
    proof {
        lemma_item_end(t@, i as int);
    }
    let mut items = match parse_items(b, t, j) {
        Ok(items) => items,
        Err(e) => {
            return Err(e);
        },
    };
    let ghost rest = items@;
    items.insert(0, item);
    assert(items@.drop_first() =~= rest);
    Ok(items)
}

// ============================================================================
// Errors
// ============================================================================
/// The text of a token kind.
pub open spec fn kind_text(k: TokenKind) -> Seq<char> {
    match k {
        TokenKind::Struct => "struct"@,
        TokenKind::Message => "message"@,
        TokenKind::Enum => "enum"@,
        TokenKind::Union => "union"@,
        TokenKind::Service => "service"@,
        TokenKind::Fn => "fn"@,
        TokenKind::Stream => "stream"@,
        TokenKind::Bool => "bool"@,
        TokenKind::U8 => "u8"@,
        TokenKind::U16 => "u16"@,
        TokenKind::U32 => "u32"@,
        TokenKind::U64 => "u64"@,
        TokenKind::I8 => "i8"@,
        TokenKind::I16 => "i16"@,
        TokenKind::I32 => "i32"@,
        TokenKind::I64 => "i64"@,
        TokenKind::F32 => "f32"@,
        TokenKind::F64 => "f64"@,
        TokenKind::String => "string"@,
        TokenKind::Int => "integer"@,
        TokenKind::Ident => "identifier"@,
        TokenKind::LBrace => "{"@,
        TokenKind::RBrace => "}"@,
        TokenKind::LBracket => "["@,
        TokenKind::RBracket => "]"@,
        TokenKind::LParen => "("@,
        TokenKind::RParen => ")"@,
        TokenKind::Colon => ":"@,
        TokenKind::Arrow => "->"@,
        TokenKind::Eq => "="@,
        TokenKind::Question => "?"@,
        TokenKind::Semicolon => ";"@,
    }
}

/// A word is read as the keyword spelled as it is: a word read as a keyword gets the kind whose
/// text is the word, and a word read as a primitive type gets the type that the word names.
pub proof fn law_keywords(w: Seq<u8>)
    ensures
        word_kind(w) != TokenKind::Ident ==> kind_text(word_kind(w)) == ascii_chars(w),
        primitive(word_kind(w)) matches Some(ty) ==> type_keyword(ty) == Some(ascii_chars(w)),
{
}

/// What was expected, as listed in an error.
pub open spec fn expect_text(e: Expect) -> Seq<char> {
    match e {
        Expect::Item => "'struct', 'message', 'enum', 'union', 'service', end of input"@,
        Expect::Ident => "identifier"@,
        Expect::Int => "integer"@,
        Expect::Type => "'bool', 'u8', 'u16', 'u32', 'u64', 'i8', 'i16', 'i32', 'i64', 'f32', 'f64', 'string', '[', '{', type name"@,
        Expect::Response => "'stream', 'bool', 'u8', 'u16', 'u32', 'u64', 'i8', 'i16', 'i32', 'i64', 'f32', 'f64', 'string', '[', '{', type name"@,
        Expect::Token(k) => "'"@ + kind_text(k) + "'"@,
        Expect::QuestionOrColon => "'?', ':'"@,
        Expect::ParenOrEq => "'(', '='"@,
        Expect::MemberOrClose => "identifier, '}'"@,
        Expect::MethodOrClose => "'fn', '}'"@,
    }
}

/// The error for a parse that failed at token `p`, expecting `e`.
pub open spec fn parse_error(b: Seq<u8>, t: Seq<Token>, p: int, e: Expect) -> ErrorView {
    let expected = expect_text(e);
    if 0 <= p < t.len() {
        let found = text_of(b, t[p]);
        ErrorView {
            span: t[p].span,
            message: "found '"@ + found + "' expected "@ + expected,
            labels: seq![(t[p].span, "Unexpected '"@ + found + "'"@, LabelColor::Red)],
            notes: seq!["Expected one of: "@ + expected],
        }
    } else {
        let end = Span { start: b.len() as usize, end: b.len() as usize };
        ErrorView {
            span: end,
            message: "found end of input expected "@ + expected,
            labels: seq![(end, "Unexpected end of input"@, LabelColor::Red)],
            notes: seq!["Expected one of: "@ + expected],
        }
    }
}

/// The error for a source that could not be split into tokens.
pub open spec fn lex_error(b: Seq<u8>, e: LexError) -> ErrorView {
    match e.kind {
        LexErrorKind::Unexpected => if b[e.span.start as int] < 128 {
            let c = ascii_chars(b.subrange(e.span.start as int, e.span.start + 1));
            error_with(
                "found '"@ + c + "' expected something else"@,
                seq![(e.span, "Unexpected '"@ + c + "'"@, LabelColor::Red)],
            )
        } else {
            error_with(
                "found a non-ASCII character expected something else"@,
                seq![(e.span, "Unexpected non-ASCII character"@, LabelColor::Red)],
            )
        },
        LexErrorKind::TooLarge => {
            let digits = ascii_chars(b.subrange(e.span.start as int, e.span.end as int));
            error_with(
                "integer literal '"@ + digits + "' is too large (must fit in u32)"@,
                seq![(e.span, "Unexpected '"@ + digits + "'"@, LabelColor::Red)],
            )
        },
        LexErrorKind::UnterminatedComment => error_with(
            "unterminated block comment"@,
            seq![(e.span, "Unexpected end of input"@, LabelColor::Red)],
        ),
    }
}

fn kind_str(k: TokenKind) -> (r: &'static str)
    ensures
        r@ == kind_text(k),
{
    match k {
        TokenKind::Struct => "struct",
        TokenKind::Message => "message",
        TokenKind::Enum => "enum",
        TokenKind::Union => "union",
        TokenKind::Service => "service",
        TokenKind::Fn => "fn",
        TokenKind::Stream => "stream",
        TokenKind::Bool => "bool",
        TokenKind::U8 => "u8",
        TokenKind::U16 => "u16",
        TokenKind::U32 => "u32",
        TokenKind::U64 => "u64",
        TokenKind::I8 => "i8",
        TokenKind::I16 => "i16",
        TokenKind::I32 => "i32",
        TokenKind::I64 => "i64",
        TokenKind::F32 => "f32",
        TokenKind::F64 => "f64",
        TokenKind::String => "string",
        TokenKind::Int => "integer",
        TokenKind::Ident => "identifier",
        TokenKind::LBrace => "{",
        TokenKind::RBrace => "}",
        TokenKind::LBracket => "[",
        TokenKind::RBracket => "]",
        TokenKind::LParen => "(",
        TokenKind::RParen => ")",
        TokenKind::Colon => ":",
        TokenKind::Arrow => "->",
        TokenKind::Eq => "=",
        TokenKind::Question => "?",
        TokenKind::Semicolon => ";",
    }
}

fn expect_string(e: Expect) -> (r: String)
    ensures
        r@ == expect_text(e),
{
    match e {
        Expect::Item => String::from_str("'struct', 'message', 'enum', 'union', 'service', end of input"),
        Expect::Ident => String::from_str("identifier"),
        Expect::Int => String::from_str("integer"),
        Expect::Type => String::from_str("'bool', 'u8', 'u16', 'u32', 'u64', 'i8', 'i16', 'i32', 'i64', 'f32', 'f64', 'string', '[', '{', type name"),
        Expect::Response => String::from_str("'stream', 'bool', 'u8', 'u16', 'u32', 'u64', 'i8', 'i16', 'i32', 'i64', 'f32', 'f64', 'string', '[', '{', type name"),
        Expect::Token(k) => {
            let mut m = String::from_str("'");
            m.append(kind_str(k));
            m.append("'");
            m
        },
        Expect::QuestionOrColon => String::from_str("'?', ':'"),
        Expect::ParenOrEq => String::from_str("'(', '='"),
        Expect::MemberOrClose => String::from_str("identifier, '}'"),
        Expect::MethodOrClose => String::from_str("'fn', '}'"),
    }
}

/// An error with one red label.
fn labelled_error(message: String, span: Span, label: String) -> (r: CompileError)
    ensures
        r@ == error_with(message@, seq![(span, label@, LabelColor::Red)]),
{
    let e = CompileError::new(message);
    let e = e.label(span, label, LabelColor::Red);
    assert(e@.labels =~= seq![(span, label@, LabelColor::Red)]);
    e
}

fn make_parse_error(b: &[u8], t: &Vec<Token>, p: usize, e: Expect) -> (r: CompileError)
    requires
        tokens_wf(b@, t@),
    ensures
        r@ == parse_error(b@, t@, p as int, e),
{
    let expected = expect_string(e);
    let mut note = String::from_str("Expected one of: ");
    note.append(expected.as_str());
    if p < t.len() {
        let sp = t[p].span;
        let found = ascii_string(b, sp.start, sp.end);
        let mut m = String::from_str("found '");
        m.append(found.as_str());
        m.append("' expected ");
        m.append(expected.as_str());
        let mut l = String::from_str("Unexpected '");
        l.append(found.as_str());
        l.append("'");
        let err = labelled_error(m, sp, l).note(note);
        assert(err@.notes =~= seq![note@]);
        err
    } else {
        let end = Span::new(b.len(), b.len());
        let mut m = String::from_str("found end of input expected ");
        m.append(expected.as_str());
        let err = labelled_error(m, end, String::from_str("Unexpected end of input")).note(note);
        assert(err@.notes =~= seq![note@]);
        err
    }
}

fn make_lex_error(b: &[u8], e: LexError) -> (r: CompileError)
    requires
        e.kind == LexErrorKind::Unexpected ==> e.span.start < e.span.end == e.span.start + 1 <= b@.len(),
        e.kind == LexErrorKind::TooLarge ==> e.span.start <= e.span.end <= b@.len() && all_ascii(
            b@.subrange(e.span.start as int, e.span.end as int),
        ),
    ensures
        r@ == lex_error(b@, e),
{
    match e.kind {
        LexErrorKind::Unexpected => {
            if b[e.span.start] < 128 {
                let c = ascii_string(b, e.span.start, e.span.start + 1);
                let mut m = String::from_str("found '");
                m.append(c.as_str());
                m.append("' expected something else");
                let mut l = String::from_str("Unexpected '");
                l.append(c.as_str());
                l.append("'");
                labelled_error(m, e.span, l)
            } else {
                labelled_error(
                    String::from_str("found a non-ASCII character expected something else"),
                    e.span,
                    String::from_str("Unexpected non-ASCII character"),
                )
            }
        },
        LexErrorKind::TooLarge => {
            let digits = ascii_string(b, e.span.start, e.span.end);
            let mut m = String::from_str("integer literal '");
            m.append(digits.as_str());
            m.append("' is too large (must fit in u32)");
            let mut l = String::from_str("Unexpected '");
            l.append(digits.as_str());
            l.append("'");
            labelled_error(m, e.span, l)
        },
        LexErrorKind::UnterminatedComment => labelled_error(
            String::from_str("unterminated block comment"),
            e.span,
            String::from_str("Unexpected end of input"),
        ),
    }
}

/// Parses a schema.
///
/// The source is split into tokens (see [`crate::lexer`]) and read by the grammar of this
/// module. The first lexical or syntax error is reported, alone: a lexical error as
/// [`lex_error`] says, a syntax error at the token where the grammar fails as [`parse_error`]
/// says. Otherwise the schema is the one the tokens spell.
pub fn parse(src: &str) -> (r: Result<Schema, Vec<CompileError>>)
    ensures
        match lex(src.spec_bytes()) {
            Err(e) => r matches Err(errs) && errors_view(errs@) == seq![lex_error(src.spec_bytes(), e)],
            Ok(t) => match items_end(t, 0) {
                Ok(_) => r matches Ok(s) && schema_read(src.spec_bytes(), t, s),
                Err((p, e)) => r matches Err(errs) && errors_view(errs@) == seq![
                    parse_error(src.spec_bytes(), t, p, e),
                ],
            },
        },
{
    let b = src.as_bytes();
    let n = b.len();
    match tokenize(src) {
        Err(e) => {
            proof {
                lemma_lex_error(b@);
            }
            let err = make_lex_error(b, e);
            let errs = vec![err];
            assert(errors_view(errs@) =~= seq![lex_error(b@, e)]);
            Err(errs)
        },
        Ok(t) => {
            proof {
                lemma_items_end(t@, 0);
            }
            match parse_items(b, &t, 0) {
                Ok(items) => Ok(Schema { items }),
                Err((p, e)) => {
                    let err = make_parse_error(b, &t, p, e);
                    let errs = vec![err];
                    assert(errors_view(errs@) =~= seq![parse_error(b@, t@, p as int, e)]);
                    Err(errs)
                },
            }
        },
    }
}

} // verus!
