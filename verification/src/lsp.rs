//! The editor features of the language server: positions in a document, what stands at a
//! position, definitions, references, renames, hovers, renumbering and diagnostics.
//!
//! Positions count lines and, within a line, characters; offsets count bytes. A character is
//! counted at its first byte (a byte that is not a UTF-8 continuation byte).
use vstd::prelude::*;
use vstd::string::StringSliceAdditionalSpecFns;

use crate::checker::{message_field_types, struct_field_types, union_variant_types};
use crate::diagnostics::{errors_view, CompileError, ErrorView};
use crate::schema::{
    part_of,
    find_item, lemma_find_item, lookup, Item, Schema, ServiceMethod, ServiceResponse, Span,
    Spanned, Type,
};
use crate::text::{push_decimal, spec_decimal, str_eq};

verus! {

// ============================================================================
// Positions
// ============================================================================
/// A position in a document: a line and a character within it, both from 0.
#[derive(Debug, Clone, Copy, PartialEq, Eq, Structural)]
pub struct Position {
    pub line: u32,
    pub character: u32,
}

/// A range of positions.
#[derive(Debug, Clone, Copy, PartialEq, Eq, Structural)]
pub struct Range {
    pub start: Position,
    pub end: Position,
}

/// Whether a byte starts a character (is not a UTF-8 continuation byte).
pub open spec fn starts_char(c: u8) -> bool {
    !(0x80 <= c && c <= 0xbf)
}

/// The line and character reached after reading the bytes `b[..k]`.
pub open spec fn position_after(b: Seq<u8>, k: int) -> (nat, nat)
    decreases k,
{
    if k <= 0 || k > b.len() {
        (0, 0)
    } else {
        let (line, col) = position_after(b, k - 1);
        let c = b[k - 1];
        if !starts_char(c) {
            (line, col)
        } else if c == 10 {
            (line + 1, 0)
        } else {
            (line, col + 1)
        }
    }
}

/// Whether a character starts at byte `k`, or `k` is the end of the text.
pub open spec fn char_boundary(b: Seq<u8>, k: int) -> bool {
    k == b.len() || (0 <= k < b.len() && starts_char(b[k]))
}

/// The first byte offset from `k` on where a character starts (or the text ends) at the given
/// line and character.
pub open spec fn offset_of_from(b: Seq<u8>, line: nat, col: nat, k: int) -> Option<int>
    decreases b.len() - k,
{
    if k < 0 || k > b.len() {
        None
    } else if char_boundary(b, k) && position_after(b, k) == (line, col) {
        Some(k)
    } else if k == b.len() {
        None
    } else {
        offset_of_from(b, line, col, k + 1)
    }
}

/// The byte offset of a position, `None` when the text has no such position.
pub open spec fn spec_position_to_offset(b: Seq<u8>, p: Position) -> Option<int> {
    offset_of_from(b, p.line as nat, p.character as nat, 0)
}

/// The position of a byte offset: where the characters that start before it lead (the end of
/// the text for an offset beyond it).
pub open spec fn spec_offset_to_position(b: Seq<u8>, offset: int) -> Position {
    let (line, col) = position_after(b, if offset < b.len() {
        offset
    } else {
        b.len() as int
    });
    Position { line: line as u32, character: col as u32 }
}

proof fn lemma_position_bound(b: Seq<u8>, k: int)
    requires
        0 <= k <= b.len(),
    ensures
        position_after(b, k).0 <= k,
        position_after(b, k).1 <= k,
    decreases k,
{
    if k > 0 {
        lemma_position_bound(b, k - 1);
    }
}

/// The byte offset of a position in a text.
pub fn position_to_offset(text: &str, position: Position) -> (r: Option<usize>)
    requires
        text.spec_bytes().len() < u32::MAX,
    ensures
        match spec_position_to_offset(text.spec_bytes(), position) {
            Some(k) => r == Some(k as usize),
            None => r is None,
        },
{
    let b = text.as_bytes();
    let n = b.len();
    let mut line: u32 = 0;
    let mut col: u32 = 0;
    let mut k: usize = 0;
    while k < n
        invariant
            n == b@.len() < u32::MAX,
            b@ == text.spec_bytes(),
            k <= n,
            (line as nat, col as nat) == position_after(b@, k as int),
            offset_of_from(b@, position.line as nat, position.character as nat, k as int)
                == spec_position_to_offset(b@, position),
        decreases n - k,
    {
        proof {
            lemma_position_bound(b@, k as int);
        }
        let c = b[k];
        let starts = !(0x80 <= c && c <= 0xbf);
        if starts && line == position.line && col == position.character {
            return Some(k);
        }
        if starts {
            if c == 10 {
                line = line + 1;
                col = 0;
            } else {
                col = col + 1;
            }
        }
        k = k + 1;
    }
    if line == position.line && col == position.character {
        return Some(n);
    }
    None
}

/// The position of a byte offset in a text.
pub fn offset_to_position(text: &str, offset: usize) -> (r: Position)
    requires
        text.spec_bytes().len() < u32::MAX,
    ensures
        r == spec_offset_to_position(text.spec_bytes(), offset as int),
{
    let b = text.as_bytes();
    let n = b.len();
    let end = if offset < n {
        offset
    } else {
        n
    };
    let mut line: u32 = 0;
    let mut col: u32 = 0;
    let mut k: usize = 0;
    while k < end
        invariant
            n == b@.len() < u32::MAX,
            end <= n,
            k <= end,
            (line as nat, col as nat) == position_after(b@, k as int),
        decreases end - k,
    {
        proof {
            lemma_position_bound(b@, k as int);
        }
        let c = b[k];
        if !(0x80 <= c && c <= 0xbf) {
            if c == 10 {
                line = line + 1;
                col = 0;
            } else {
                col = col + 1;
            }
        }
        k = k + 1;
    }
    Position { line, character: col }
}

/// The range of positions a span covers.
pub open spec fn spec_span_to_range(b: Seq<u8>, span: Span) -> Range {
    Range {
        start: spec_offset_to_position(b, span.start as int),
        end: spec_offset_to_position(b, span.end as int),
    }
}

/// The range of positions a span covers.
pub fn span_to_range(text: &str, span: Span) -> (r: Range)
    requires
        text.spec_bytes().len() < u32::MAX,
    ensures
        r == spec_span_to_range(text.spec_bytes(), span),
{
    Range { start: offset_to_position(text, span.start), end: offset_to_position(text, span.end) }
}

/// Line and character pairs in document order.
pub open spec fn before_or_at(p: (nat, nat), q: (nat, nat)) -> bool {
    p.0 < q.0 || (p.0 == q.0 && p.1 <= q.1)
}

/// Positions never go back as more bytes are read.
proof fn lemma_position_monotone(b: Seq<u8>, j: int, k: int)
    requires
        0 <= j <= k <= b.len(),
    ensures
        before_or_at(position_after(b, j), position_after(b, k)),
    decreases k - j,
{
    if j < k {
        lemma_position_monotone(b, j, k - 1);
    }
}

/// Reading a character moves the position forward.
proof fn lemma_position_strict(b: Seq<u8>, j: int, k: int)
    requires
        0 <= j < k <= b.len(),
        starts_char(b[j]),
    ensures
        position_after(b, j) != position_after(b, k),
        before_or_at(position_after(b, j), position_after(b, k)),
{
    lemma_position_monotone(b, j + 1, k);
}

/// No character boundary before `k` has the position of `k`.
proof fn lemma_offset_of_from(b: Seq<u8>, k: int, m: int)
    requires
        0 <= m <= k <= b.len(),
        char_boundary(b, k),
    ensures
        offset_of_from(b, position_after(b, k).0, position_after(b, k).1, m) == Some(k),
    decreases k - m,
{
    if m < k {
        if char_boundary(b, m) {
            lemma_position_strict(b, m, k);
        }
        lemma_offset_of_from(b, k, m + 1);
    }
}

/// Going from a character boundary to its position and back gives the boundary again.
pub proof fn law_offset_position_roundtrip(b: Seq<u8>, k: int)
    requires
        b.len() < u32::MAX,
        0 <= k <= b.len(),
        char_boundary(b, k),
    ensures
        spec_position_to_offset(b, spec_offset_to_position(b, k)) == Some(k),
{
    lemma_position_bound(b, k);
    lemma_offset_of_from(b, k, 0);
}

// ============================================================================
// What stands at a position
// ============================================================================
/// Whether a span covers a byte offset.
pub open spec fn covers(span: Span, offset: int) -> bool {
    span.start <= offset < span.end
}

/// What stands at a position of a document.
#[derive(Debug)]
pub enum AtPosition {
    /// A named type used in a type, and its span.
    TypeReference(String, Span),
    /// The name of an item where it is defined: the item's index in the schema, and the span
    /// of the name.
    ItemDefinition(usize, Span),
}

pub enum AtPositionView {
    TypeReference(Seq<char>, Span),
    ItemDefinition(int, Span),
}

impl View for AtPosition {
    type V = AtPositionView;

    open spec fn view(&self) -> AtPositionView {
        match self {
            AtPosition::TypeReference(n, s) => AtPositionView::TypeReference(n@, *s),
            AtPosition::ItemDefinition(i, s) => AtPositionView::ItemDefinition(*i as int, *s),
        }
    }
}

/// The named type used at `offset` within a type: the innermost one, and for a map the key
/// before the value.
pub open spec fn type_at(ty: Spanned<Type>, offset: int) -> Option<AtPositionView>
    decreases ty,
{
    if covers(ty.span, offset) {
        match ty.node {
            Type::Named(n) => Some(AtPositionView::TypeReference(n@, ty.span)),
            Type::Array(inner) => type_at(*inner, offset),
            Type::Dict(k, v) => match type_at(*k, offset) {
                Some(r) => Some(r),
                None => type_at(*v, offset),
            },
            _ => None,
        }
    } else {
        None
    }
}

/// The first type among `tys[i..]` with a named type at `offset`.
pub open spec fn types_at(tys: Seq<Option<Spanned<Type>>>, offset: int, i: int) -> Option<
    AtPositionView,
>
    decreases tys.len() - i,
{
    if i < 0 || i >= tys.len() {
        None
    } else {
        match match tys[i] {
            Some(t) => type_at(t, offset),
            None => None,
        } {
            Some(r) => Some(r),
            None => types_at(tys, offset, i + 1),
        }
    }
}

/// The type a response carries.
pub open spec fn response_type_of(r: ServiceResponse) -> Type {
    match r {
        ServiceResponse::Unary(t) => t,
        ServiceResponse::Stream(t) => t,
    }
}

/// The first method among `ms[i..]` with a named type at `offset`: in its request, or its
/// response when the response is a named type.
pub open spec fn methods_at(ms: Seq<Spanned<ServiceMethod>>, offset: int, i: int) -> Option<
    AtPositionView,
>
    decreases ms.len() - i,
{
    if i < 0 || i >= ms.len() {
        None
    } else {
        let m = ms[i].node;
        match type_at(m.request, offset) {
            Some(r) => Some(r),
            None => if covers(m.response.span, offset) && response_type_of(m.response.node) is Named {
                Some(
                    AtPositionView::TypeReference(
                        response_type_of(m.response.node)->Named_0@,
                        m.response.span,
                    ),
                )
            } else {
                methods_at(ms, offset, i + 1)
            },
        }
    }
}

/// What stands at `offset` within the `i`-th item, when the item covers it.
pub open spec fn in_item_at(items: Seq<Spanned<Item>>, offset: int, i: int) -> Option<AtPositionView> {
    let it = items[i].node;
    if covers(it.spec_name_span(), offset) {
        Some(AtPositionView::ItemDefinition(i, it.spec_name_span()))
    } else {
        match it {
            Item::Struct(s) => types_at(struct_field_types(s), offset, 0),
            Item::Message(m) => types_at(message_field_types(m), offset, 0),
            Item::Enum(_) => None,
            Item::Union(u) => types_at(union_variant_types(u), offset, 0),
            Item::Service(s) => methods_at(s.methods@, offset, 0),
        }
    }
}

/// What stands at `offset` among `items[i..]`: the first item covering it that has an item
/// name or a named type there.
pub open spec fn items_at(items: Seq<Spanned<Item>>, offset: int, i: int) -> Option<AtPositionView>
    decreases items.len() - i,
{
    if i < 0 || i >= items.len() {
        None
    } else if covers(items[i].span, offset) && in_item_at(items, offset, i) is Some {
        in_item_at(items, offset, i)
    } else {
        items_at(items, offset, i + 1)
    }
}

/// What stands at a byte offset of a schema's source.
pub open spec fn spec_find_at(schema: Schema, offset: int) -> Option<AtPositionView> {
    items_at(schema.items@, offset, 0)
}

fn span_covers(span: Span, offset: usize) -> (r: bool)
    ensures
        r == covers(span, offset as int),
{
    offset >= span.start && offset < span.end
}

/// The named type used at `offset` within a type.
fn check_type_at_position(ty: &Spanned<Type>, offset: usize) -> (r: Option<AtPosition>)
    ensures
        match type_at(*ty, offset as int) {
            Some(v) => r matches Some(a) && a@ == v,
            None => r is None,
        },
    decreases ty,
{
    if span_covers(ty.span, offset) {
        match &ty.node {
            Type::Named(name) => Some(AtPosition::TypeReference(name.clone(), ty.span)),
            Type::Array(inner) => check_type_at_position(inner, offset),
            Type::Dict(key, value) => {
                let k = check_type_at_position(key, offset);
                if k.is_some() {
                    k
                } else {
                    check_type_at_position(value, offset)
                }
            },
            _ => None,
        }
    } else {
        None
    }
}

/// What stands at `offset` within the `i`-th item.
fn check_item_at_position(schema: &Schema, i: usize, offset: usize) -> (r: Option<AtPosition>)
    requires
        i < schema.items@.len(),
    ensures
        match in_item_at(schema.items@, offset as int, i as int) {
            Some(v) => r matches Some(a) && a@ == v,
            None => r is None,
        },
{
    let it = &schema.items[i].node;
    let name_span = it.name_span();
    if span_covers(name_span, offset) {
        return Some(AtPosition::ItemDefinition(i, name_span));
    }
    match it {
        Item::Struct(s) => {
            let ghost tys = struct_field_types(*s);
            let mut j: usize = 0;
            while j < s.fields.len()
                invariant
                    j <= s.fields@.len(),
                    i < schema.items@.len(),
                    schema.items@[i as int].node == Item::Struct(*s),
                    !covers(schema.items@[i as int].node.spec_name_span(), offset as int),
                    tys == struct_field_types(*s),
                    types_at(tys, offset as int, j as int) == types_at(tys, offset as int, 0),
                decreases s.fields.len() - j,
            {
                let r = check_type_at_position(&s.fields[j].node.ty, offset);
                if r.is_some() {
                    return r;
                }
                j = j + 1;
            }
            None
        },
        Item::Message(m) => {
            let ghost tys = message_field_types(*m);
            let mut j: usize = 0;
            while j < m.fields.len()
                invariant
                    j <= m.fields@.len(),
                    i < schema.items@.len(),
                    schema.items@[i as int].node == Item::Message(*m),
                    !covers(schema.items@[i as int].node.spec_name_span(), offset as int),
                    tys == message_field_types(*m),
                    types_at(tys, offset as int, j as int) == types_at(tys, offset as int, 0),
                decreases m.fields.len() - j,
            {
                let r = check_type_at_position(&m.fields[j].node.ty, offset);
                if r.is_some() {
                    return r;
                }
                j = j + 1;
            }
            None
        },
        Item::Enum(_) => None,
        Item::Union(u) => {
            let ghost tys = union_variant_types(*u);
            let mut j: usize = 0;
            while j < u.variants.len()
                invariant
                    j <= u.variants@.len(),
                    i < schema.items@.len(),
                    schema.items@[i as int].node == Item::Union(*u),
                    !covers(schema.items@[i as int].node.spec_name_span(), offset as int),
                    tys == union_variant_types(*u),
                    types_at(tys, offset as int, j as int) == types_at(tys, offset as int, 0),
                decreases u.variants.len() - j,
            {
                if let Some(ty) = &u.variants[j].node.ty {
                    let r = check_type_at_position(ty, offset);
                    if r.is_some() {
                        return r;
                    }
                }
                j = j + 1;
            }
            None
        },
        Item::Service(s) => {
            let mut j: usize = 0;
            while j < s.methods.len()
                invariant
                    j <= s.methods@.len(),
                    i < schema.items@.len(),
                    schema.items@[i as int].node == Item::Service(*s),
                    !covers(schema.items@[i as int].node.spec_name_span(), offset as int),
                    methods_at(s.methods@, offset as int, j as int) == methods_at(
                        s.methods@,
                        offset as int,
                        0,
                    ),
                decreases s.methods.len() - j,
            {
                let m = &s.methods[j].node;
                let r = check_type_at_position(&m.request, offset);
                if r.is_some() {
                    return r;
                }
                if span_covers(m.response.span, offset) {
                    let named = match &m.response.node {
                        ServiceResponse::Unary(Type::Named(n)) => Some(n),
                        ServiceResponse::Stream(Type::Named(n)) => Some(n),
                        _ => None,
                    };
                    if let Some(n) = named {
                        return Some(AtPosition::TypeReference(n.clone(), m.response.span));
                    }
                }
                j = j + 1;
            }
            None
        },
    }
}

/// What stands at a byte offset of a schema's source.
pub fn find_item_at_position(schema: &Schema, offset: usize) -> (r: Option<AtPosition>)
    ensures
        match spec_find_at(*schema, offset as int) {
            Some(v) => r matches Some(a) && a@ == v,
            None => r is None,
        },
{
    let mut i: usize = 0;
    while i < schema.items.len()
        invariant
            i <= schema.items@.len(),
            items_at(schema.items@, offset as int, i as int) == spec_find_at(*schema, offset as int),
        decreases schema.items.len() - i,
    {
        if span_covers(schema.items[i].span, offset) {
            let r = check_item_at_position(schema, i, offset);
            if r.is_some() {
                return r;
            }
        }
        i = i + 1;
    }
    None
}

// ============================================================================
// Definitions and references
// ============================================================================
/// The name a position is about: the type referred to, or the item defined.
pub open spec fn spec_target_name(schema: Schema, at: AtPositionView) -> Option<Seq<char>> {
    match at {
        AtPositionView::TypeReference(n, _) => Some(n),
        AtPositionView::ItemDefinition(i, _) => if 0 <= i < schema.items@.len() {
            Some(schema.items@[i].node.spec_name())
        } else {
            None
        },
    }
}

/// The name a position is about.
pub fn target_name(schema: &Schema, at: &AtPosition) -> (r: Option<String>)
    ensures
        match spec_target_name(*schema, at@) {
            Some(n) => r matches Some(s) && s@ == n,
            None => r is None,
        },
{
    match at {
        AtPosition::TypeReference(n, _) => Some(n.clone()),
        AtPosition::ItemDefinition(i, _) => {
            if *i < schema.items.len() {
                Some(String::from_str(schema.items[*i].node.name()))
            } else {
                None
            }
        },
    }
}

/// Where going to the definition from a position leads: the whole item that a type refers
/// to, or the name being defined.
pub open spec fn spec_definition_span(schema: Schema, at: AtPositionView) -> Option<Span> {
    match at {
        AtPositionView::TypeReference(n, _) => match find_item(schema.items@, n) {
            Some(k) => Some(schema.items@[k].span),
            None => None,
        },
        AtPositionView::ItemDefinition(_, span) => Some(span),
    }
}

/// Where going to the definition from a position leads.
pub fn definition_span(schema: &Schema, at: &AtPosition) -> (r: Option<Span>)
    ensures
        r == spec_definition_span(*schema, at@),
{
    match at {
        AtPosition::TypeReference(n, _) => {
            proof {
                lemma_find_item(schema.items@, n@);
            }
            match schema.item(n.as_str()) {
                Some(it) => Some(it.span),
                None => None,
            }
        },
        AtPosition::ItemDefinition(_, span) => Some(*span),
    }
}

/// The spans of the uses of the type named `name` within a type, in order.
pub open spec fn type_refs(ty: Spanned<Type>, name: Seq<char>) -> Seq<Span>
    decreases ty,
{
    match ty.node {
        Type::Named(n) => if n@ == name {
            seq![ty.span]
        } else {
            Seq::empty()
        },
        Type::Array(inner) => type_refs(*inner, name),
        Type::Dict(k, v) => type_refs(*k, name) + type_refs(*v, name),
        _ => Seq::empty(),
    }
}

/// The uses of `name` within the types `tys[i..]`.
pub open spec fn types_refs(tys: Seq<Option<Spanned<Type>>>, name: Seq<char>, i: int) -> Seq<Span>
    decreases tys.len() - i,
{
    if i < 0 || i >= tys.len() {
        Seq::empty()
    } else {
        let here = match tys[i] {
            Some(t) => type_refs(t, name),
            None => Seq::empty(),
        };
        here + types_refs(tys, name, i + 1)
    }
}

/// The uses of `name` within the methods `ms[i..]`: in each request, then the response when
/// it is the named type itself (at the span of the whole response).
pub open spec fn methods_refs(ms: Seq<Spanned<ServiceMethod>>, name: Seq<char>, i: int) -> Seq<Span>
    decreases ms.len() - i,
{
    if i < 0 || i >= ms.len() {
        Seq::empty()
    } else {
        let m = ms[i].node;
        type_refs(m.request, name) + (if response_type_of(m.response.node) matches Type::Named(
            n,
        ) && n@ == name {
            seq![m.response.span]
        } else {
            Seq::empty()
        }) + methods_refs(ms, name, i + 1)
    }
}

/// The uses of `name` within an item.
pub open spec fn item_refs(item: Item, name: Seq<char>) -> Seq<Span> {
    match item {
        Item::Struct(s) => types_refs(struct_field_types(s), name, 0),
        Item::Message(m) => types_refs(message_field_types(m), name, 0),
        Item::Enum(_) => Seq::empty(),
        Item::Union(u) => types_refs(union_variant_types(u), name, 0),
        Item::Service(s) => methods_refs(s.methods@, name, 0),
    }
}

/// The uses of `name` within `items[i..]`, item by item.
pub open spec fn items_refs(items: Seq<Spanned<Item>>, name: Seq<char>, i: int) -> Seq<Span>
    decreases items.len() - i,
{
    if i < 0 || i >= items.len() {
        Seq::empty()
    } else {
        item_refs(items[i].node, name) + items_refs(items, name, i + 1)
    }
}

/// The spans of the references to `name`: the name of its (first) definition when asked for
/// and there is one, then every use in a type, in the order of the source.
pub open spec fn spec_reference_spans(schema: Schema, name: Seq<char>, include_definition: bool) -> Seq<
    Span,
> {
    (if include_definition {
        match lookup(schema.items@, name) {
            Some(it) => seq![it.spec_name_span()],
            None => Seq::empty(),
        }
    } else {
        Seq::empty()
    }) + items_refs(schema.items@, name, 0)
}

fn collect_type_references(ty: &Spanned<Type>, name: &str, out: &mut Vec<Span>)
    ensures
        final(out)@ == old(out)@ + type_refs(*ty, name@),
    decreases ty,
{
    match &ty.node {
        Type::Named(n) => {
            if str_eq(n.as_str(), name) {
                out.push(ty.span);
            }
            assert(out@ =~= old(out)@ + type_refs(*ty, name@));
        },
        Type::Array(inner) => {
            collect_type_references(inner, name, out);
        },
        Type::Dict(k, v) => {
            collect_type_references(k, name, out);
            collect_type_references(v, name, out);
            assert(out@ =~= old(out)@ + type_refs(*ty, name@));
        },
        _ => {
            assert(out@ =~= old(out)@ + type_refs(*ty, name@));
        },
    }
}

fn collect_item_references(item: &Item, name: &str, out: &mut Vec<Span>)
    ensures
        final(out)@ == old(out)@ + item_refs(*item, name@),
{
    match item {
        Item::Struct(s) => {
            let ghost tys = struct_field_types(*s);
            let mut j: usize = 0;
            while j < s.fields.len()
                invariant
                    j <= s.fields@.len(),
                    *item == Item::Struct(*s),
                    tys == struct_field_types(*s),
                    out@ + types_refs(tys, name@, j as int) == old(out)@ + types_refs(tys, name@, 0),
                decreases s.fields.len() - j,
            {
                let ghost before = out@;
                collect_type_references(&s.fields[j].node.ty, name, out);
                assert(before + types_refs(tys, name@, j as int) =~= out@ + types_refs(
                    tys,
                    name@,
                    j + 1,
                ));
                j = j + 1;
            }
            assert(out@ + types_refs(tys, name@, j as int) =~= out@);
        },
        Item::Message(m) => {
            let ghost tys = message_field_types(*m);
            let mut j: usize = 0;
            while j < m.fields.len()
                invariant
                    j <= m.fields@.len(),
                    *item == Item::Message(*m),
                    tys == message_field_types(*m),
                    out@ + types_refs(tys, name@, j as int) == old(out)@ + types_refs(tys, name@, 0),
                decreases m.fields.len() - j,
            {
                let ghost before = out@;
                collect_type_references(&m.fields[j].node.ty, name, out);
                assert(before + types_refs(tys, name@, j as int) =~= out@ + types_refs(
                    tys,
                    name@,
                    j + 1,
                ));
                j = j + 1;
            }
            assert(out@ + types_refs(tys, name@, j as int) =~= out@);
        },
        Item::Enum(_) => {
            assert(out@ =~= old(out)@ + item_refs(*item, name@));
        },
        Item::Union(u) => {
            let ghost tys = union_variant_types(*u);
            let mut j: usize = 0;
            while j < u.variants.len()
                invariant
                    j <= u.variants@.len(),
                    *item == Item::Union(*u),
                    tys == union_variant_types(*u),
                    out@ + types_refs(tys, name@, j as int) == old(out)@ + types_refs(tys, name@, 0),
                decreases u.variants.len() - j,
            {
                let ghost before = out@;
                if let Some(ty) = &u.variants[j].node.ty {
                    collect_type_references(ty, name, out);
                }
                assert(before + types_refs(tys, name@, j as int) =~= out@ + types_refs(
                    tys,
                    name@,
                    j + 1,
                ));
                j = j + 1;
            }
            assert(out@ + types_refs(tys, name@, j as int) =~= out@);
        },
        Item::Service(s) => {
            let mut j: usize = 0;
            while j < s.methods.len()
                invariant
                    j <= s.methods@.len(),
                    *item == Item::Service(*s),
                    out@ + methods_refs(s.methods@, name@, j as int) == old(out)@ + methods_refs(
                        s.methods@,
                        name@,
                        0,
                    ),
                decreases s.methods.len() - j,
            {
                let ghost before = out@;
                let m = &s.methods[j].node;
                collect_type_references(&m.request, name, out);
                let named = match &m.response.node {
                    ServiceResponse::Unary(Type::Named(n)) => Some(n),
                    ServiceResponse::Stream(Type::Named(n)) => Some(n),
                    _ => None,
                };
                let ghost mid = out@;
                if let Some(n) = named {
                    if str_eq(n.as_str(), name) {
                        out.push(m.response.span);
                    }
                }
                let ghost resp = if response_type_of(m.response.node) matches Type::Named(n) && n@
                    == name@ {
                    seq![m.response.span]
                } else {
                    Seq::<Span>::empty()
                };
                assert(out@ =~= mid + resp);
                assert(before + methods_refs(s.methods@, name@, j as int) =~= out@ + methods_refs(
                    s.methods@,
                    name@,
                    j + 1,
                ));
                j = j + 1;
            }
            assert(out@ + methods_refs(s.methods@, name@, j as int) =~= out@);
        },
    }
}

/// The spans of the references to `name`.
pub fn reference_spans(schema: &Schema, name: &str, include_definition: bool) -> (r: Vec<Span>)
    ensures
        r@ == spec_reference_spans(*schema, name@, include_definition),
{
    let mut out: Vec<Span> = Vec::new();
    if include_definition {
        proof {
            lemma_find_item(schema.items@, name@);
        }
        if let Some(it) = schema.item(name) {
            out.push(it.node.name_span());
        }
    }
    let ghost start = out@;
    let mut i: usize = 0;
    while i < schema.items.len()
        invariant
            i <= schema.items@.len(),
            out@ + items_refs(schema.items@, name@, i as int) == start + items_refs(
                schema.items@,
                name@,
                0,
            ),
        decreases schema.items.len() - i,
    {
        let ghost before = out@;
        collect_item_references(&schema.items[i].node, name, &mut out);
        assert(before + items_refs(schema.items@, name@, i as int) =~= out@ + items_refs(
            schema.items@,
            name@,
            i + 1,
        ));
        i = i + 1;
    }
    assert(out@ + items_refs(schema.items@, name@, i as int) =~= out@);
    assert(out@ =~= spec_reference_spans(*schema, name@, include_definition));
    out
}

// ============================================================================
// Hovers, renumbering and diagnostics
// ============================================================================
/// The keyword of an item's kind.
pub open spec fn kind_name(item: Item) -> Seq<char> {
    match item {
        Item::Struct(_) => "struct"@,
        Item::Message(_) => "message"@,
        Item::Enum(_) => "enum"@,
        Item::Union(_) => "union"@,
        Item::Service(_) => "service"@,
    }
}

fn kind_str(item: &Item) -> (r: &'static str)
    ensures
        r@ == kind_name(*item),
{
    match item {
        Item::Struct(_) => "struct",
        Item::Message(_) => "message",
        Item::Enum(_) => "enum",
        Item::Union(_) => "union",
        Item::Service(_) => "service",
    }
}

/// A Markdown code block showing an item's kind and name.
pub open spec fn item_block(kind: Seq<char>, name: Seq<char>) -> Seq<char> {
    "```volex\n"@ + kind + " "@ + name + "\n```"@
}

fn make_item_block(kind: &str, name: &str) -> (r: String)
    ensures
        r@ == item_block(kind@, name@),
{
    let mut s = String::from_str("```volex\n");
    s.append(kind);
    s.append(" ");
    s.append(name);
    s.append("\n```");
    s
}

/// The text of a hover: the kind and name of the item a position is about, or, for a type
/// that no item defines, its name.
pub open spec fn spec_hover_text(schema: Schema, at: AtPositionView) -> Option<Seq<char>> {
    match at {
        AtPositionView::TypeReference(n, _) => Some(
            match lookup(schema.items@, n) {
                Some(it) => item_block(kind_name(it), n),
                None => "Type: "@ + n,
            },
        ),
        AtPositionView::ItemDefinition(i, _) => if 0 <= i < schema.items@.len() {
            let it = schema.items@[i].node;
            Some(item_block(kind_name(it), it.spec_name()))
        } else {
            None
        },
    }
}

/// The text of a hover.
pub fn hover_text(schema: &Schema, at: &AtPosition) -> (r: Option<String>)
    ensures
        match spec_hover_text(*schema, at@) {
            Some(t) => r matches Some(s) && s@ == t,
            None => r is None,
        },
{
    match at {
        AtPosition::TypeReference(n, _) => {
            proof {
                lemma_find_item(schema.items@, n@);
            }
            match schema.item(n.as_str()) {
                Some(it) => Some(make_item_block(kind_str(&it.node), n.as_str())),
                None => {
                    let mut s = String::from_str("Type: ");
                    s.append(n.as_str());
                    Some(s)
                },
            }
        },
        AtPosition::ItemDefinition(i, _) => {
            if *i < schema.items.len() {
                let it = &schema.items[*i].node;
                Some(make_item_block(kind_str(it), it.name()))
            } else {
                None
            }
        },
    }
}

/// An edit of a document: the span replaced, and the text put there.
pub type Edit = (Span, String);

/// An edit, as plain values.
pub type EditView = (Span, Seq<char>);

pub open spec fn edits_view(edits: Seq<Edit>) -> Seq<EditView> {
    edits.map_values(|e: Edit| (e.0, e.1@))
}

/// The edits that renumber indices from `first` on, in order.
pub open spec fn renumbered(spans: Seq<Span>, first: nat) -> Seq<EditView> {
    Seq::new(spans.len(), |k: int| (spans[k], spec_decimal(((k + first) as u32) as nat)))
}

/// The renumbering offered on an item: a title and the edits that renumber its message fields
/// from 1, its enum variants from 0, or its union variants from 1; `None` for other items and
/// for items without fields or variants.
pub open spec fn spec_renumber(item: Item) -> Option<(Seq<char>, Seq<EditView>)> {
    match item {
        Item::Message(m) => if m.fields@.len() > 0 {
            Some(
                (
                    "Renumber message fields"@,
                    renumbered(
                        m.fields@.map_values(
                            |f: Spanned<crate::schema::MessageField>| f.node.index.span,
                        ),
                        1,
                    ),
                ),
            )
        } else {
            None
        },
        Item::Enum(e) => if e.variants@.len() > 0 {
            Some(
                (
                    "Renumber enum variants"@,
                    renumbered(
                        e.variants@.map_values(
                            |v: Spanned<crate::schema::EnumVariant>| v.node.index.span,
                        ),
                        0,
                    ),
                ),
            )
        } else {
            None
        },
        Item::Union(u) => if u.variants@.len() > 0 {
            Some(
                (
                    "Renumber union variants"@,
                    renumbered(
                        u.variants@.map_values(
                            |v: Spanned<crate::schema::UnionVariant>| v.node.index.span,
                        ),
                        1,
                    ),
                ),
            )
        } else {
            None
        },
        _ => None,
    }
}

/// The edits that renumber the indices at `spans` from `first` on.
fn renumber_spans(spans: &Vec<Span>, first: usize) -> (r: Vec<Edit>)
    requires
        first <= 1,
    ensures
        edits_view(r@) == renumbered(spans@, first as nat),
{
    let mut out: Vec<Edit> = Vec::new();
    let mut k: usize = 0;
    while k < spans.len()
        invariant
            first <= 1,
            k <= spans@.len(),
            edits_view(out@) == renumbered(spans@, first as nat).take(k as int),
        decreases spans.len() - k,
    {
        let mut text = String::new();
        let n = (k + first) as u32;
        push_decimal(&mut text, n as u64);
        let ghost before = out@;
        out.push((spans[k], text));
        assert(edits_view(out@) =~= edits_view(before).push((spans@[k as int], text@)));
        assert(renumbered(spans@, first as nat).take(k + 1) =~= renumbered(
            spans@,
            first as nat,
        ).take(k as int).push((spans@[k as int], text@)));
        k = k + 1;
    }
    assert(renumbered(spans@, first as nat).take(k as int) =~= renumbered(spans@, first as nat));
    out
}

/// The renumbering offered on an item.
pub fn renumber_action(item: &Item) -> (r: Option<(String, Vec<Edit>)>)
    ensures
        match spec_renumber(*item) {
            Some((title, edits)) => r matches Some((t, es)) && t@ == title && edits_view(es@)
                == edits,
            None => r is None,
        },
{
    match item {
        Item::Message(m) => {
            if m.fields.len() == 0 {
                return None;
            }
            let mut spans: Vec<Span> = Vec::new();
            let mut j: usize = 0;
            while j < m.fields.len()
                invariant
                    j <= m.fields@.len(),
                    spans@ == m.fields@.take(j as int).map_values(
                        |f: Spanned<crate::schema::MessageField>| f.node.index.span,
                    ),
                decreases m.fields.len() - j,
            {
                spans.push(m.fields[j].node.index.span);
                assert(m.fields@.take(j + 1).map_values(
                    |f: Spanned<crate::schema::MessageField>| f.node.index.span,
                ) =~= m.fields@.take(j as int).map_values(
                    |f: Spanned<crate::schema::MessageField>| f.node.index.span,
                ).push(m.fields@[j as int].node.index.span));
                j = j + 1;
            }
            assert(m.fields@.take(j as int) =~= m.fields@);
            Some((String::from_str("Renumber message fields"), renumber_spans(&spans, 1)))
        },
        Item::Enum(e) => {
            if e.variants.len() == 0 {
                return None;
            }
            let mut spans: Vec<Span> = Vec::new();
            let mut j: usize = 0;
            while j < e.variants.len()
                invariant
                    j <= e.variants@.len(),
                    spans@ == e.variants@.take(j as int).map_values(
                        |v: Spanned<crate::schema::EnumVariant>| v.node.index.span,
                    ),
                decreases e.variants.len() - j,
            {
                spans.push(e.variants[j].node.index.span);
                assert(e.variants@.take(j + 1).map_values(
                    |v: Spanned<crate::schema::EnumVariant>| v.node.index.span,
                ) =~= e.variants@.take(j as int).map_values(
                    |v: Spanned<crate::schema::EnumVariant>| v.node.index.span,
                ).push(e.variants@[j as int].node.index.span));
                j = j + 1;
            }
            assert(e.variants@.take(j as int) =~= e.variants@);
            Some((String::from_str("Renumber enum variants"), renumber_spans(&spans, 0)))
        },
        Item::Union(u) => {
            if u.variants.len() == 0 {
                return None;
            }
            let mut spans: Vec<Span> = Vec::new();
            let mut j: usize = 0;
            while j < u.variants.len()
                invariant
                    j <= u.variants@.len(),
                    spans@ == u.variants@.take(j as int).map_values(
                        |v: Spanned<crate::schema::UnionVariant>| v.node.index.span,
                    ),
                decreases u.variants.len() - j,
            {
                spans.push(u.variants[j].node.index.span);
                assert(u.variants@.take(j + 1).map_values(
                    |v: Spanned<crate::schema::UnionVariant>| v.node.index.span,
                ) =~= u.variants@.take(j as int).map_values(
                    |v: Spanned<crate::schema::UnionVariant>| v.node.index.span,
                ).push(u.variants@[j as int].node.index.span));
                j = j + 1;
            }
            assert(u.variants@.take(j as int) =~= u.variants@);
            Some((String::from_str("Renumber union variants"), renumber_spans(&spans, 1)))
        },
        _ => None,
    }
}

/// A diagnostic: the range it is shown at, and its message.
pub type Diagnostic = (Range, String);

pub open spec fn diagnostics_view(ds: Seq<Diagnostic>) -> Seq<(Range, Seq<char>)> {
    ds.map_values(|d: Diagnostic| (d.0, d.1@))
}

/// The diagnostics of one error: one per label, at the label, with the error's message and
/// the label's; or, for an error without labels, one at the error's span.
pub open spec fn error_diagnostics(b: Seq<u8>, e: ErrorView) -> Seq<(Range, Seq<char>)> {
    if e.labels.len() > 0 {
        e.labels.map_values(
            |l: crate::diagnostics::LabelView|
                (spec_span_to_range(b, l.0), e.message + ": "@ + l.1),
        )
    } else {
        seq![(spec_span_to_range(b, e.span), e.message)]
    }
}

/// The diagnostics of `errors[i..]`, error by error.
pub open spec fn spec_diagnostics(b: Seq<u8>, errors: Seq<ErrorView>, i: int) -> Seq<
    (Range, Seq<char>),
>
    decreases errors.len() - i,
{
    if i < 0 || i >= errors.len() {
        Seq::empty()
    } else {
        error_diagnostics(b, errors[i]) + spec_diagnostics(b, errors, i + 1)
    }
}

fn push_diagnostic(out: &mut Vec<Diagnostic>, d: Diagnostic)
    ensures
        diagnostics_view(final(out)@) == diagnostics_view(old(out)@).push((d.0, d.1@)),
{
    out.push(d);
    assert(diagnostics_view(out@) =~= diagnostics_view(old(out)@).push((d.0, d.1@)));
}

/// The diagnostics shown for the errors of a document.
pub fn diagnostics(text: &str, errors: &Vec<CompileError>) -> (r: Vec<Diagnostic>)
    requires
        text.spec_bytes().len() < u32::MAX,
    ensures
        diagnostics_view(r@) == spec_diagnostics(text.spec_bytes(), errors_view(errors@), 0),
{
    let ghost b = text.spec_bytes();
    let ghost es = errors_view(errors@);
    let mut out: Vec<Diagnostic> = Vec::new();
    let mut i: usize = 0;
    assert(diagnostics_view(out@) =~= Seq::<(Range, Seq<char>)>::empty());
    while i < errors.len()
        invariant
            b == text.spec_bytes(),
            b.len() < u32::MAX,
            es == errors_view(errors@),
            i <= errors@.len(),
            diagnostics_view(out@) + spec_diagnostics(b, es, i as int) == spec_diagnostics(b, es, 0),
        decreases errors.len() - i,
    {
        let e = &errors[i];
        let ghost before = diagnostics_view(out@);
        let ghost ev = es[i as int];
        assert(ev == e@);
        if e.labels.len() > 0 {
            let mut j: usize = 0;
            while j < e.labels.len()
                invariant
                    b == text.spec_bytes(),
                    b.len() < u32::MAX,
                    ev == e@,
                    j <= e.labels@.len(),
                    ev.labels.len() > 0,
                    diagnostics_view(out@) == before + error_diagnostics(b, ev).take(j as int),
                decreases e.labels.len() - j,
            {
                let (span, label, _) = &e.labels[j];
                let range = span_to_range(text, *span);
                let mut m = e.message.clone();
                m.append(": ");
                m.append(label.as_str());
                proof {
                    assert(ev.labels[j as int] == crate::diagnostics::label_view(e.labels@[j as int]));
                }
                push_diagnostic(&mut out, (range, m));
                assert(error_diagnostics(b, ev).take(j + 1) =~= error_diagnostics(b, ev).take(
                    j as int,
                ).push((range, m@)));
                j = j + 1;
            }
            assert(error_diagnostics(b, ev).take(j as int) =~= error_diagnostics(b, ev));
        } else {
            let range = span_to_range(text, e.span);
            push_diagnostic(&mut out, (range, e.message.clone()));
            assert(diagnostics_view(out@) =~= before + error_diagnostics(b, ev));
        }
        assert(before + spec_diagnostics(b, es, i as int) =~= diagnostics_view(out@)
            + spec_diagnostics(b, es, i + 1));
        i = i + 1;
    }
    assert(diagnostics_view(out@) + spec_diagnostics(b, es, i as int) =~= diagnostics_view(out@));
    out
}

// ============================================================================
// Named types within types
// ============================================================================
/// `inner` lies within `outer`.
pub open spec fn within(inner: Span, outer: Span) -> bool {
    outer.start <= inner.start && inner.end <= outer.end
}

/// The span of each type within `ty` lies within the span of the type around it, as in a
/// parsed schema.
pub open spec fn spans_nest(ty: Spanned<Type>) -> bool
    decreases ty,
{
    match ty.node {
        Type::Array(inner) => within(inner.span, ty.span) && spans_nest(*inner),
        Type::Dict(k, v) => within(k.span, ty.span) && within(v.span, ty.span) && spans_nest(*k)
            && spans_nest(*v),
        _ => true,
    }
}

/// `part` is a use of the type named `name`.
pub open spec fn names_type(part: Spanned<Type>, name: Seq<char>) -> bool {
    part.node matches Type::Named(n) && n@ == name
}

proof fn lemma_seq_contains_concat<A>(a: Seq<A>, b: Seq<A>, x: A)
    ensures
        (a + b).contains(x) <==> a.contains(x) || b.contains(x),
{
    if a.contains(x) {
        let i = choose|i: int| 0 <= i < a.len() && a[i] == x;
        assert((a + b)[i] == x);
    }
    if b.contains(x) {
        let i = choose|i: int| 0 <= i < b.len() && b[i] == x;
        assert((a + b)[a.len() + i] == x);
    }
    if (a + b).contains(x) {
        let i = choose|i: int| 0 <= i < (a + b).len() && (a + b)[i] == x;
        if i < a.len() {
            assert(a[i] == x);
        } else {
            assert(b[i - a.len()] == x);
        }
    }
}

/// The references to a name within a type are exactly the spans of the uses of the type with
/// that name within it, map keys and values and array elements included, at any depth.
pub proof fn law_type_refs(ty: Spanned<Type>, name: Seq<char>, span: Span)
    ensures
        type_refs(ty, name).contains(span) <==> exists|part: Spanned<Type>|
            part_of(part, ty) && names_type(part, name) && part.span == span,
    decreases ty,
{
    match ty.node {
        Type::Named(n) => {
            if n@ == name && span == ty.span {
                assert(seq![ty.span][0] == span);
                assert(part_of(ty, ty) && names_type(ty, name));
            }
            if exists|part: Spanned<Type>| part_of(part, ty) && names_type(part, name) && part.span == span {
                let part = choose|part: Spanned<Type>| part_of(part, ty) && names_type(part, name) && part.span == span;
                assert(part == ty);
                assert(type_refs(ty, name)[0] == span);
            }
        },
        Type::Array(inner) => {
            law_type_refs(*inner, name, span);
            if exists|part: Spanned<Type>| part_of(part, ty) && names_type(part, name) && part.span == span {
                let part = choose|part: Spanned<Type>| part_of(part, ty) && names_type(part, name) && part.span == span;
                if part == ty {
                    assert(!names_type(ty, name));
                }
            }
            if type_refs(ty, name).contains(span) {
                let part = choose|part: Spanned<Type>| part_of(part, *inner) && names_type(part, name) && part.span == span;
                assert(part_of(part, ty));
            }
        },
        Type::Dict(k, v) => {
            law_type_refs(*k, name, span);
            law_type_refs(*v, name, span);
            lemma_seq_contains_concat(type_refs(*k, name), type_refs(*v, name), span);
            if exists|part: Spanned<Type>| part_of(part, ty) && names_type(part, name) && part.span == span {
                let part = choose|part: Spanned<Type>| part_of(part, ty) && names_type(part, name) && part.span == span;
                if part == ty {
                    assert(!names_type(ty, name));
                }
            }
            if type_refs(*k, name).contains(span) {
                let part = choose|part: Spanned<Type>| part_of(part, *k) && names_type(part, name) && part.span == span;
                assert(part_of(part, ty));
            }
            if type_refs(*v, name).contains(span) {
                let part = choose|part: Spanned<Type>| part_of(part, *v) && names_type(part, name) && part.span == span;
                assert(part_of(part, ty));
            }
        },
        _ => {
            if exists|part: Spanned<Type>| part_of(part, ty) && names_type(part, name) && part.span == span {
                let part = choose|part: Spanned<Type>| part_of(part, ty) && names_type(part, name) && part.span == span;
                assert(part == ty);
            }
        },
    }
}

proof fn lemma_part_within(part: Spanned<Type>, ty: Spanned<Type>)
    requires
        part_of(part, ty),
        spans_nest(ty),
    ensures
        within(part.span, ty.span),
    decreases ty,
{
    if part != ty {
        match ty.node {
            Type::Array(inner) => lemma_part_within(part, *inner),
            Type::Dict(k, v) => if part_of(part, *k) {
                lemma_part_within(part, *k);
            } else {
                lemma_part_within(part, *v);
            },
            _ => {},
        }
    }
}

/// What stands at an offset within a type is a use of a named type there, and there is one
/// whenever the offset lies within the span of a use of a named type, map keys and values and
/// array elements included, at any depth (given spans that nest, as in a parsed schema).
pub proof fn law_type_at(ty: Spanned<Type>, offset: int)
    ensures
        type_at(ty, offset) matches Some(r) ==> (r matches AtPositionView::TypeReference(n, sp)
            && covers(sp, offset) && exists|part: Spanned<Type>|
            part_of(part, ty) && names_type(part, n) && part.span == sp),
        spans_nest(ty) && (exists|part: Spanned<Type>|
            part_of(part, ty) && part.node is Named && covers(part.span, offset)) ==> type_at(
            ty,
            offset,
        ) is Some,
    decreases ty,
{
    match ty.node {
        Type::Named(n) => {
            if covers(ty.span, offset) {
                assert(part_of(ty, ty) && names_type(ty, n@));
            }
            if exists|part: Spanned<Type>| part_of(part, ty) && part.node is Named && covers(part.span, offset) {
                let part = choose|part: Spanned<Type>| part_of(part, ty) && part.node is Named && covers(part.span, offset);
                assert(part == ty);
            }
        },
        Type::Array(inner) => {
            law_type_at(*inner, offset);
            if let Some(AtPositionView::TypeReference(n, sp)) = type_at(ty, offset) {
                let part = choose|part: Spanned<Type>| part_of(part, *inner) && names_type(part, n) && part.span == sp;
                assert(part_of(part, ty));
            }
            if spans_nest(ty) && exists|part: Spanned<Type>| part_of(part, ty) && part.node is Named && covers(part.span, offset) {
                let part = choose|part: Spanned<Type>| part_of(part, ty) && part.node is Named && covers(part.span, offset);
                assert(part != ty);
                assert(part_of(part, *inner));
                lemma_part_within(part, ty);
            }
        },
        Type::Dict(k, v) => {
            law_type_at(*k, offset);
            law_type_at(*v, offset);
            if let Some(AtPositionView::TypeReference(n, sp)) = type_at(ty, offset) {
                if type_at(*k, offset) is Some {
                    let part = choose|part: Spanned<Type>| part_of(part, *k) && names_type(part, n) && part.span == sp;
                    assert(part_of(part, ty));
                } else {
                    let part = choose|part: Spanned<Type>| part_of(part, *v) && names_type(part, n) && part.span == sp;
                    assert(part_of(part, ty));
                }
            }
            if spans_nest(ty) && exists|part: Spanned<Type>| part_of(part, ty) && part.node is Named && covers(part.span, offset) {
                let part = choose|part: Spanned<Type>| part_of(part, ty) && part.node is Named && covers(part.span, offset);
                assert(part != ty);
                lemma_part_within(part, ty);
                if part_of(part, *k) {
                    assert(part_of(part, *k));
                } else {
                    assert(part_of(part, *v));
                }
            }
        },
        _ => {
            if exists|part: Spanned<Type>| part_of(part, ty) && part.node is Named && covers(part.span, offset) {
                let part = choose|part: Spanned<Type>| part_of(part, ty) && part.node is Named && covers(part.span, offset);
                assert(part == ty);
            }
        },
    }
}

// ============================================================================
// Named types within a schema's items
// ============================================================================
/// The type of the `j`-th field of a struct or message, or the payload of the `j`-th variant
/// of a union, when there is one.
pub open spec fn member_type(item: Item, j: int) -> Option<Spanned<Type>> {
    match item {
        Item::Struct(s) => if 0 <= j < s.fields@.len() {
            Some(s.fields@[j].node.ty)
        } else {
            None
        },
        Item::Message(m) => if 0 <= j < m.fields@.len() {
            Some(m.fields@[j].node.ty)
        } else {
            None
        },
        Item::Union(u) => if 0 <= j < u.variants@.len() {
            u.variants@[j].node.ty
        } else {
            None
        },
        _ => None,
    }
}

/// The member types of an item, as the lookups go through them.
pub open spec fn member_types(item: Item) -> Seq<Option<Spanned<Type>>> {
    match item {
        Item::Struct(s) => struct_field_types(s),
        Item::Message(m) => message_field_types(m),
        Item::Union(u) => union_variant_types(u),
        _ => Seq::empty(),
    }
}

proof fn lemma_member_types(item: Item, j: int)
    requires
        member_type(item, j) is Some,
    ensures
        0 <= j < member_types(item).len(),
        member_types(item)[j] == member_type(item, j),
{
}

proof fn lemma_types_refs_has(tys: Seq<Option<Spanned<Type>>>, name: Seq<char>, i: int, j: int, sp: Span)
    requires
        0 <= i <= j < tys.len(),
        tys[j] matches Some(t) && type_refs(t, name).contains(sp),
    ensures
        types_refs(tys, name, i).contains(sp),
    decreases j - i,
{
    let here = match tys[i] {
        Some(t) => type_refs(t, name),
        None => Seq::empty(),
    };
    lemma_seq_contains_concat(here, types_refs(tys, name, i + 1), sp);
    if i < j {
        lemma_types_refs_has(tys, name, i + 1, j, sp);
    }
}

proof fn lemma_items_refs_has(items: Seq<Spanned<Item>>, name: Seq<char>, i: int, k: int, sp: Span)
    requires
        0 <= i <= k < items.len(),
        item_refs(items[k].node, name).contains(sp),
    ensures
        items_refs(items, name, i).contains(sp),
    decreases k - i,
{
    lemma_seq_contains_concat(item_refs(items[i].node, name), items_refs(items, name, i + 1), sp);
    if i < k {
        lemma_items_refs_has(items, name, i + 1, k, sp);
    }
}

/// Every use of a type name within the fields of a struct or message or the variants of a
/// union, map keys and values and array elements included, at any depth, is among the
/// references to that name, and so is changed by a rename.
pub proof fn law_references_cover_uses(
    schema: Schema,
    i: int,
    j: int,
    part: Spanned<Type>,
    name: Seq<char>,
    include_definition: bool,
)
    requires
        0 <= i < schema.items@.len(),
        member_type(schema.items@[i].node, j) matches Some(t) && part_of(part, t),
        names_type(part, name),
    ensures
        spec_reference_spans(schema, name, include_definition).contains(part.span),
{
    let items = schema.items@;
    let item = items[i].node;
    let t = member_type(item, j)->0;
    law_type_refs(t, name, part.span);
    lemma_member_types(item, j);
    lemma_types_refs_has(member_types(item), name, 0, j, part.span);
    assert(item_refs(item, name) == types_refs(member_types(item), name, 0));
    lemma_items_refs_has(items, name, 0, i, part.span);
    let head = if include_definition {
        match lookup(items, name) {
            Some(it) => seq![it.spec_name_span()],
            None => Seq::empty(),
        }
    } else {
        Seq::empty()
    };
    lemma_seq_contains_concat(head, items_refs(items, name, 0), part.span);
}

proof fn lemma_types_at_some(tys: Seq<Option<Spanned<Type>>>, offset: int, i: int, j: int)
    requires
        0 <= i <= j < tys.len(),
        tys[j] matches Some(t) && type_at(t, offset) is Some,
    ensures
        types_at(tys, offset, i) is Some,
    decreases j - i,
{
    if i < j {
        lemma_types_at_some(tys, offset, i + 1, j);
    }
}

proof fn lemma_items_at_some(items: Seq<Spanned<Item>>, offset: int, i: int, k: int)
    requires
        0 <= i <= k < items.len(),
        covers(items[k].span, offset),
        in_item_at(items, offset, k) is Some,
    ensures
        items_at(items, offset, i) is Some,
    decreases k - i,
{
    if i < k {
        lemma_items_at_some(items, offset, i + 1, k);
    }
}

/// Something is found at every offset of an item that lies within the span of a use of a type
/// name within the item's fields or variants, map keys and values and array elements included,
/// at any depth (given spans that nest, as in a parsed schema), so that hover and going to the
/// definition work there.
pub proof fn law_find_covers_uses(schema: Schema, i: int, j: int, part: Spanned<Type>, offset: int)
    requires
        0 <= i < schema.items@.len(),
        covers(schema.items@[i].span, offset),
        member_type(schema.items@[i].node, j) matches Some(t) && part_of(part, t) && spans_nest(t),
        part.node is Named,
        covers(part.span, offset),
    ensures
        spec_find_at(schema, offset) is Some,
{
    let items = schema.items@;
    let item = items[i].node;
    let t = member_type(item, j)->0;
    law_type_at(t, offset);
    lemma_member_types(item, j);
    if !covers(item.spec_name_span(), offset) {
        lemma_types_at_some(member_types(item), offset, 0, j);
    }
    lemma_items_at_some(items, offset, 0, i);
}

} // verus!
