//! Semantic checks of a parsed schema: duplicate definitions, names and indices, undefined
//! types, services used as types, and the types allowed as map keys in each target language.
use vstd::prelude::*;

use crate::diagnostics::{
    error_from_labels, error_with, errors_view, label_view, CompileError, ErrorView, LabelColor,
    LabelView, Language,
};
use crate::schema::{
    find_item, lemma_find_item, lookup, part_of, Enum, Item, Message, Schema, Service, ServiceResponse,
    Span, Spanned, Struct, Type, Union,
};
use crate::text::{push_decimal, spec_decimal, str_eq};

verus! {

// ============================================================================
// What the checks report
// ============================================================================
/// The index of the first element of `xs` before `i` equal to `xs[i]`.
#[verifier::opaque]
pub open spec fn first_equal_before<A>(xs: Seq<A>, i: int) -> Option<int> {
    if exists|j: int| 0 <= j < i && xs[j] == xs[i] {
        Some(choose|j: int| 0 <= j < i && xs[j] == xs[i] && forall|k: int| 0 <= k < j ==> xs[k] != xs[i])
    } else {
        None
    }
}

/// An error with two labels: where a name or index was first used, and where it is used again.
pub open spec fn duplicate_error(
    message: Seq<char>,
    first: Span,
    first_msg: Seq<char>,
    again: Span,
    again_msg: Seq<char>,
) -> ErrorView {
    error_with(
        message,
        seq![(first, first_msg, LabelColor::Blue), (again, again_msg, LabelColor::Red)],
    )
}

/// The error for a name defined twice within an item, when the `i`-th name repeats an earlier one.
pub open spec fn duplicate_name_errors(
    names: Seq<Spanned<String>>,
    i: int,
    what: Seq<char>,
    container: Seq<char>,
    owner: Seq<char>,
) -> Seq<ErrorView> {
    match first_equal_before(names.map_values(|n: Spanned<String>| n.node@), i) {
        Some(j) => seq![
            duplicate_error(
                "duplicate "@ + what + " `"@ + names[i].node@ + "` in "@ + container + " `"@ + owner
                    + "`"@,
                names[j].span,
                "first defined here"@,
                names[i].span,
                "redefined here"@,
            ),
        ],
        None => Seq::empty(),
    }
}

/// The error for an index used twice within an item, when the `i`-th index repeats an earlier one.
pub open spec fn duplicate_index_errors(
    indices: Seq<Spanned<u32>>,
    i: int,
    container: Seq<char>,
    owner: Seq<char>,
) -> Seq<ErrorView> {
    match first_equal_before(indices.map_values(|n: Spanned<u32>| n.node), i) {
        Some(j) => seq![
            duplicate_error(
                "duplicate index "@ + spec_decimal(indices[i].node as nat) + " in "@ + container
                    + " `"@ + owner + "`"@,
                indices[j].span,
                "first used here"@,
                indices[i].span,
                "reused here"@,
            ),
        ],
        None => Seq::empty(),
    }
}

/// The error for index 0, which is reserved in messages, unions and services.
pub open spec fn zero_index_errors(index: Spanned<u32>, container: Seq<char>, owner: Seq<char>) -> Seq<
    ErrorView,
> {
    if index.node == 0 {
        seq![
            error_with(
                "index 0 is reserved in "@ + container + " `"@ + owner + "`"@,
                seq![(index.span, "indices must be >= 1"@, LabelColor::Red)],
            ),
        ]
    } else {
        Seq::empty()
    }
}

/// What validating a type as a map key gives: `Ok(None)` when it is allowed; `Ok(Some((reason,
/// labels)))` when it is not, with the labels that show why (innermost first); `Err(())` when the
/// validation would not end (a type that contains itself on the way, found when `fuel` runs out).
pub type KeyCheck = Result<Option<(Seq<char>, Seq<LabelView>)>, ()>;

/// Appends a label to a failed key check, keeping its reason.
pub open spec fn key_check_then(r: KeyCheck, label: LabelView) -> KeyCheck {
    match r {
        Ok(Some((reason, labels))) => Ok(Some((reason, labels.push(label)))),
        other => other,
    }
}

/// A failed key check with one label.
pub open spec fn key_fails(reason: Seq<char>, span: Span, label: Seq<char>) -> KeyCheck {
    Ok(Some((reason, seq![(span, label, LabelColor::Red)])))
}

/// The types of a struct's fields.
pub open spec fn struct_field_types(s: Struct) -> Seq<Option<Spanned<Type>>> {
    s.fields@.map_values(|f: Spanned<crate::schema::StructField>| Some(f.node.ty))
}

/// The types of a message's fields.
pub open spec fn message_field_types(m: Message) -> Seq<Option<Spanned<Type>>> {
    m.fields@.map_values(|f: Spanned<crate::schema::MessageField>| Some(f.node.ty))
}

/// The payload types of a union's variants.
pub open spec fn union_variant_types(u: Union) -> Seq<Option<Spanned<Type>>> {
    u.variants@.map_values(|v: Spanned<crate::schema::UnionVariant>| v.node.ty)
}

/// The number of type nodes in a type.
pub open spec fn type_size(ty: Type) -> nat
    decreases ty,
{
    match ty {
        Type::Array(inner) => 1 + type_size(inner.node),
        Type::Dict(k, v) => 1 + type_size(k.node) + type_size(v.node),
        _ => 1,
    }
}

/// Validates a type as a map key in `language`.
///
/// A type is allowed as a map key if it is a primitive other than a float, an enum, an array of
/// allowed keys (not in Go and TypeScript), a struct or message all of whose fields are allowed
/// (not in TypeScript), or a union all of whose payloads are allowed (only in Rust).
pub open spec fn eval_key(
    items: Seq<Spanned<Item>>,
    language: Language,
    ty: Type,
    span: Span,
    fuel: nat,
) -> KeyCheck
    decreases fuel, 0nat, type_size(ty),
{
    match ty {
        Type::F32 | Type::F64 => key_fails(
            "floats cannot be used as map keys"@,
            span,
            "floating-point type used here"@,
        ),
        Type::Dict(_, _) => key_fails("maps cannot be used as map keys"@, span, "map type used here"@),
        Type::Array(inner) => match language {
            Language::Rust => key_check_then(
                eval_key(items, language, inner.node, inner.span, fuel),
                (span, "array of invalid type used here"@, LabelColor::Red),
            ),
            Language::Go => key_fails(
                "arrays cannot be used as map keys in Go"@,
                span,
                "array type used here"@,
            ),
            Language::Typescript => key_fails(
                "arrays cannot be used as map keys in TypeScript"@,
                span,
                "array type used here"@,
            ),
        },
        Type::Named(name) => match lookup(items, name@) {
            None => Ok(None),
            Some(Item::Enum(_)) => Ok(None),
            Some(Item::Struct(s)) => if language == Language::Typescript {
                key_fails(
                    "structs cannot be used as map keys in TypeScript"@,
                    span,
                    "struct '"@ + name@ + "' used here"@,
                )
            } else if fuel == 0 {
                Err(())
            } else {
                key_check_then(
                    eval_key_list(items, language, struct_field_types(s), 0, (fuel - 1) as nat),
                    (span, "struct '"@ + name@ + "' contains invalid field"@, LabelColor::Red),
                )
            },
            Some(Item::Message(m)) => if language == Language::Typescript {
                key_fails(
                    "messages cannot be used as map keys in TypeScript"@,
                    span,
                    "message '"@ + name@ + "' used here"@,
                )
            } else if fuel == 0 {
                Err(())
            } else {
                key_check_then(
                    eval_key_list(items, language, message_field_types(m), 0, (fuel - 1) as nat),
                    (span, "message '"@ + name@ + "' contains invalid field"@, LabelColor::Red),
                )
            },
            Some(Item::Union(u)) => if language == Language::Go {
                key_fails(
                    "unions cannot be used as map keys in Go"@,
                    span,
                    "union '"@ + name@ + "' used here"@,
                )
            } else if language == Language::Typescript {
                key_fails(
                    "unions cannot be used as map keys in TypeScript"@,
                    span,
                    "union '"@ + name@ + "' used here"@,
                )
            } else if fuel == 0 {
                Err(())
            } else {
                key_check_then(
                    eval_key_list(items, language, union_variant_types(u), 0, (fuel - 1) as nat),
                    (span, "union '"@ + name@ + "' contains invalid variant"@, LabelColor::Red),
                )
            },
            Some(Item::Service(_)) => key_fails(
                "services cannot be used as types"@,
                span,
                "service used as type"@,
            ),
        },
        _ => Ok(None),
    }
}

/// The first failing key check among `tys[i..]` (absent types are skipped).
pub open spec fn eval_key_list(
    items: Seq<Spanned<Item>>,
    language: Language,
    tys: Seq<Option<Spanned<Type>>>,
    i: nat,
    fuel: nat,
) -> KeyCheck
    decreases fuel, 1nat, tys.len() - i,
{
    if i >= tys.len() {
        Ok(None)
    } else {
        match tys[i as int] {
            None => eval_key_list(items, language, tys, i + 1, fuel),
            Some(t) => match eval_key(items, language, t.node, t.span, fuel) {
                Ok(None) => eval_key_list(items, language, tys, i + 1, fuel),
                other => other,
            },
        }
    }
}

/// The fuel that suffices for validating map keys in a schema without cycles.
pub open spec fn key_fuel(items: Seq<Spanned<Item>>) -> nat {
    items.len()
}

/// The error for an invalid map key type.
pub open spec fn key_errors(items: Seq<Spanned<Item>>, language: Language, key: Spanned<Type>) -> Seq<
    ErrorView,
> {
    match eval_key(items, language, key.node, key.span, key_fuel(items)) {
        Ok(Some((reason, labels))) => seq![error_with("invalid map key type: "@ + reason, labels)],
        _ => Seq::empty(),
    }
}

/// The errors for the type references in a type: undefined types, services used as types, and
/// invalid map keys.
pub open spec fn type_errors(items: Seq<Spanned<Item>>, language: Language, ty: Type, span: Span) -> Seq<
    ErrorView,
>
    decreases ty,
{
    match ty {
        Type::Named(name) => match lookup(items, name@) {
            None => seq![
                error_with(
                    "undefined type `"@ + name@ + "`"@,
                    seq![(span, "not found"@, LabelColor::Red)],
                ),
            ],
            Some(Item::Service(_)) => seq![
                error_with(
                    "services cannot be used as types"@,
                    seq![(span, "service used as type"@, LabelColor::Red)],
                ),
            ],
            Some(_) => Seq::empty(),
        },
        Type::Array(inner) => type_errors(items, language, inner.node, inner.span),
        Type::Dict(k, v) => type_errors(items, language, k.node, k.span) + type_errors(
            items,
            language,
            v.node,
            v.span,
        ) + key_errors(items, language, *k),
        _ => Seq::empty(),
    }
}

/// Whether validating map keys within `ty` ends.
pub open spec fn type_keys_end(items: Seq<Spanned<Item>>, language: Language, ty: Type) -> bool
    decreases ty,
{
    match ty {
        Type::Array(inner) => type_keys_end(items, language, inner.node),
        Type::Dict(k, v) => type_keys_end(items, language, k.node) && type_keys_end(
            items,
            language,
            v.node,
        ) && eval_key(items, language, k.node, k.span, key_fuel(items)) is Ok,
        _ => true,
    }
}

/// The type a service method responds with.
pub open spec fn response_type(r: ServiceResponse) -> Type {
    match r {
        ServiceResponse::Unary(t) => t,
        ServiceResponse::Stream(t) => t,
    }
}

/// Whether validating map keys ends for every type used in the item.
pub open spec fn item_keys_end(items: Seq<Spanned<Item>>, language: Language, item: Item) -> bool {
    match item {
        Item::Struct(s) => forall|i: int|
            0 <= i < s.fields@.len() ==> type_keys_end(
                items,
                language,
                (#[trigger] s.fields@[i]).node.ty.node,
            ),
        Item::Message(m) => forall|i: int|
            0 <= i < m.fields@.len() ==> type_keys_end(
                items,
                language,
                (#[trigger] m.fields@[i]).node.ty.node,
            ),
        Item::Enum(_) => true,
        Item::Union(u) => forall|i: int|
            0 <= i < u.variants@.len() ==> match (#[trigger] u.variants@[i]).node.ty {
                Some(t) => type_keys_end(items, language, t.node),
                None => true,
            },
        Item::Service(s) => forall|i: int|
            0 <= i < s.methods@.len() ==> type_keys_end(
                items,
                language,
                (#[trigger] s.methods@[i]).node.request.node,
            ) && type_keys_end(items, language, response_type(s.methods@[i].node.response.node)),
    }
}

/// Whether the checks of a schema end: validating a map key type never runs into a type
/// that contains itself.
pub open spec fn check_ends(schema: Schema, language: Language) -> bool {
    forall|i: int|
        0 <= i < schema.items@.len() ==> item_keys_end(
            schema.items@,
            language,
            (#[trigger] schema.items@[i]).node,
        )
}

/// The labels of the definitions named `name` among `items[j..]`: the first one "first
/// defined here", the others "redefined here".
pub open spec fn definition_labels(
    items: Seq<Spanned<Item>>,
    name: Seq<char>,
    j: int,
    seen: bool,
) -> Seq<LabelView>
    decreases items.len() - j,
{
    if j < 0 || j >= items.len() {
        Seq::empty()
    } else if items[j].node.spec_name() == name {
        seq![
            if seen {
                (items[j].node.spec_name_span(), "redefined here"@, LabelColor::Red)
            } else {
                (items[j].node.spec_name_span(), "first defined here"@, LabelColor::Blue)
            },
        ] + definition_labels(items, name, j + 1, true)
    } else {
        definition_labels(items, name, j + 1, seen)
    }
}

/// The error for a name defined by several items, reported at its first definition `i`.
pub open spec fn duplicate_definition_errors(items: Seq<Spanned<Item>>, i: int) -> Seq<ErrorView> {
    let name = items[i].node.spec_name();
    let names = items.map_values(|it: Spanned<Item>| it.node.spec_name());
    if first_equal_before(names, i) is None && exists|j: int|
        i < j < items.len() && items[j].node.spec_name() == name {
        seq![
            error_with(
                "duplicate definition of `"@ + name + "`"@,
                definition_labels(items, name, i, false),
            ),
        ]
    } else {
        Seq::empty()
    }
}

/// The duplicate definition errors, one per name defined more than once, in the order of the
/// names' first definitions.
pub open spec fn all_duplicate_definition_errors(items: Seq<Spanned<Item>>, i: int) -> Seq<
    ErrorView,
>
    decreases items.len() - i,
{
    if i < 0 || i >= items.len() {
        Seq::empty()
    } else {
        duplicate_definition_errors(items, i) + all_duplicate_definition_errors(items, i + 1)
    }
}

/// The errors of a struct's fields from the `i`-th on: duplicate names and type references,
/// field by field.
pub open spec fn struct_errors(items: Seq<Spanned<Item>>, language: Language, s: Struct, i: int) -> Seq<
    ErrorView,
>
    decreases s.fields@.len() - i,
{
    if i < 0 || i >= s.fields@.len() {
        Seq::empty()
    } else {
        let names = s.fields@.map_values(|f: Spanned<crate::schema::StructField>| f.node.name);
        let f = s.fields@[i].node;
        duplicate_name_errors(names, i, "field"@, "struct"@, s.name.node@) + type_errors(
            items,
            language,
            f.ty.node,
            f.ty.span,
        ) + struct_errors(items, language, s, i + 1)
    }
}

/// The duplicate-name errors among `names[i..]`.
pub open spec fn name_errors(
    names: Seq<Spanned<String>>,
    i: int,
    what: Seq<char>,
    container: Seq<char>,
    owner: Seq<char>,
) -> Seq<ErrorView>
    decreases names.len() - i,
{
    if i < 0 || i >= names.len() {
        Seq::empty()
    } else {
        duplicate_name_errors(names, i, what, container, owner) + name_errors(
            names,
            i + 1,
            what,
            container,
            owner,
        )
    }
}

/// The index errors (and type reference errors) of a message's fields from the `i`-th on.
pub open spec fn message_index_errors(
    items: Seq<Spanned<Item>>,
    language: Language,
    m: Message,
    i: int,
) -> Seq<ErrorView>
    decreases m.fields@.len() - i,
{
    if i < 0 || i >= m.fields@.len() {
        Seq::empty()
    } else {
        let indices = m.fields@.map_values(|f: Spanned<crate::schema::MessageField>| f.node.index);
        let f = m.fields@[i].node;
        zero_index_errors(f.index, "message"@, m.name.node@) + duplicate_index_errors(
            indices,
            i,
            "message"@,
            m.name.node@,
        ) + type_errors(items, language, f.ty.node, f.ty.span) + message_index_errors(
            items,
            language,
            m,
            i + 1,
        )
    }
}

/// The errors of a message: duplicate field names, then per field a zero index, a duplicate
/// index and type reference errors.
pub open spec fn message_errors(items: Seq<Spanned<Item>>, language: Language, m: Message) -> Seq<
    ErrorView,
> {
    name_errors(
        m.fields@.map_values(|f: Spanned<crate::schema::MessageField>| f.node.name),
        0,
        "field"@,
        "message"@,
        m.name.node@,
    ) + message_index_errors(items, language, m, 0)
}

/// The duplicate-index errors of an enum's variants from the `i`-th on.
pub open spec fn enum_index_errors(e: Enum, i: int) -> Seq<ErrorView>
    decreases e.variants@.len() - i,
{
    if i < 0 || i >= e.variants@.len() {
        Seq::empty()
    } else {
        duplicate_index_errors(
            e.variants@.map_values(|v: Spanned<crate::schema::EnumVariant>| v.node.index),
            i,
            "enum"@,
            e.name.node@,
        ) + enum_index_errors(e, i + 1)
    }
}

/// The errors of an enum: duplicate variant names, then duplicate indices.
pub open spec fn enum_errors(e: Enum) -> Seq<ErrorView> {
    name_errors(
        e.variants@.map_values(|v: Spanned<crate::schema::EnumVariant>| v.node.name),
        0,
        "variant"@,
        "enum"@,
        e.name.node@,
    ) + enum_index_errors(e, 0)
}

/// The index errors (and payload type errors) of a union's variants from the `i`-th on.
pub open spec fn union_index_errors(items: Seq<Spanned<Item>>, language: Language, u: Union, i: int) -> Seq<
    ErrorView,
>
    decreases u.variants@.len() - i,
{
    if i < 0 || i >= u.variants@.len() {
        Seq::empty()
    } else {
        let indices = u.variants@.map_values(
            |v: Spanned<crate::schema::UnionVariant>| v.node.index,
        );
        let v = u.variants@[i].node;
        zero_index_errors(v.index, "union"@, u.name.node@) + duplicate_index_errors(
            indices,
            i,
            "union"@,
            u.name.node@,
        ) + match v.ty {
            Some(t) => type_errors(items, language, t.node, t.span),
            None => Seq::empty(),
        } + union_index_errors(items, language, u, i + 1)
    }
}

/// The errors of a union: duplicate variant names, then per variant a zero index, a duplicate
/// index and payload type errors.
pub open spec fn union_errors(items: Seq<Spanned<Item>>, language: Language, u: Union) -> Seq<
    ErrorView,
> {
    name_errors(
        u.variants@.map_values(|v: Spanned<crate::schema::UnionVariant>| v.node.name),
        0,
        "variant"@,
        "union"@,
        u.name.node@,
    ) + union_index_errors(items, language, u, 0)
}

/// The index errors (and request and response type errors) of a service's methods from the
/// `i`-th on.
pub open spec fn service_index_errors(
    items: Seq<Spanned<Item>>,
    language: Language,
    s: Service,
    i: int,
) -> Seq<ErrorView>
    decreases s.methods@.len() - i,
{
    if i < 0 || i >= s.methods@.len() {
        Seq::empty()
    } else {
        let indices = s.methods@.map_values(
            |m: Spanned<crate::schema::ServiceMethod>| m.node.index,
        );
        let m = s.methods@[i].node;
        zero_index_errors(m.index, "service"@, s.name.node@) + duplicate_index_errors(
            indices,
            i,
            "service"@,
            s.name.node@,
        ) + type_errors(items, language, m.request.node, m.request.span) + type_errors(
            items,
            language,
            response_type(m.response.node),
            m.response.span,
        ) + service_index_errors(items, language, s, i + 1)
    }
}

/// The errors of a service: duplicate method names, then per method a zero index, a duplicate
/// index and the request and response type errors.
pub open spec fn service_errors(items: Seq<Spanned<Item>>, language: Language, s: Service) -> Seq<
    ErrorView,
> {
    name_errors(
        s.methods@.map_values(|m: Spanned<crate::schema::ServiceMethod>| m.node.name),
        0,
        "method"@,
        "service"@,
        s.name.node@,
    ) + service_index_errors(items, language, s, 0)
}

/// The errors of one item.
pub open spec fn item_errors(items: Seq<Spanned<Item>>, language: Language, item: Item) -> Seq<
    ErrorView,
> {
    match item {
        Item::Struct(s) => struct_errors(items, language, s, 0),
        Item::Message(m) => message_errors(items, language, m),
        Item::Enum(e) => enum_errors(e),
        Item::Union(u) => union_errors(items, language, u),
        Item::Service(s) => service_errors(items, language, s),
    }
}

/// The errors of the items from the `i`-th on, item by item.
pub open spec fn items_errors(items: Seq<Spanned<Item>>, language: Language, i: int) -> Seq<
    ErrorView,
>
    decreases items.len() - i,
{
    if i < 0 || i >= items.len() {
        Seq::empty()
    } else {
        item_errors(items, language, items[i].node) + items_errors(items, language, i + 1)
    }
}

/// All errors of a schema: duplicate definitions first, then each item's errors in order.
pub open spec fn spec_check(schema: Schema, language: Language) -> Seq<ErrorView> {
    all_duplicate_definition_errors(schema.items@, 0) + items_errors(schema.items@, language, 0)
}

// ============================================================================
// The checks
// ============================================================================
proof fn lemma_first_equal_before<A>(xs: Seq<A>, i: int, j: Option<int>)
    requires
        0 <= i < xs.len(),
        j matches Some(k) ==> 0 <= k < i && xs[k] == xs[i] && forall|l: int|
            0 <= l < k ==> xs[l] != xs[i],
        j is None ==> forall|l: int| 0 <= l < i ==> xs[l] != xs[i],
    ensures
        first_equal_before(xs, i) == j,
{
    reveal(first_equal_before);
    if let Some(k) = j {
        let c = choose|c: int| 0 <= c < i && xs[c] == xs[i] && forall|l: int| 0 <= l < c ==> xs[l] != xs[i];
        assert(0 <= c < i && xs[c] == xs[i] && forall|l: int| 0 <= l < c ==> xs[l] != xs[i]);
        if c < k {
            assert(xs[c] != xs[i]);
        }
        if k < c {
            assert(xs[k] != xs[i]);
        }
    }
}

/// The views of `errors` followed by one more error.
proof fn lemma_errors_view_push(errors: Seq<CompileError>, e: CompileError)
    ensures
        errors_view(errors.push(e)) == errors_view(errors).push(e@),
{
    assert(errors_view(errors.push(e)) =~= errors_view(errors).push(e@));
}

fn push_error(errors: &mut Vec<CompileError>, e: CompileError)
    ensures
        errors_view(final(errors)@) == errors_view(old(errors)@).push(e@),
{
    proof {
        lemma_errors_view_push(errors@, e);
    }
    errors.push(e);
}

/// `"duplicate {what} `{name}` in {container} `{owner}`"`.
fn duplicate_name_message(what: &str, name: &str, container: &str, owner: &str) -> (r: String)
    ensures
        r@ == "duplicate "@ + what@ + " `"@ + name@ + "` in "@ + container@ + " `"@ + owner@ + "`"@,
{
    let mut m = String::from_str("duplicate ");
    m.append(what);
    m.append(" `");
    m.append(name);
    m.append("` in ");
    m.append(container);
    m.append(" `");
    m.append(owner);
    m.append("`");
    m
}

/// `"duplicate index {index} in {container} `{owner}`"`.
fn duplicate_index_message(index: u32, container: &str, owner: &str) -> (r: String)
    ensures
        r@ == "duplicate index "@ + spec_decimal(index as nat) + " in "@ + container@ + " `"@
            + owner@ + "`"@,
{
    let mut m = String::from_str("duplicate index ");
    push_decimal(&mut m, index as u64);
    m.append(" in ");
    m.append(container);
    m.append(" `");
    m.append(owner);
    m.append("`");
    m
}

/// An error with two labels, built as `new` followed by two `label`s.
fn two_label_error(
    message: String,
    first: Span,
    first_msg: &str,
    again: Span,
    again_msg: &str,
) -> (r: CompileError)
    ensures
        r@ == duplicate_error(message@, first, first_msg@, again, again_msg@),
{
    let e = CompileError::new(message);
    let e = e.label(first, String::from_str(first_msg), LabelColor::Blue);
    let e = e.label(again, String::from_str(again_msg), LabelColor::Red);
    assert(e@.labels =~= seq![
        (first, first_msg@, LabelColor::Blue),
        (again, again_msg@, LabelColor::Red),
    ]);
    e
}

/// An error with one label.
fn one_label_error(message: String, span: Span, label: &str) -> (r: CompileError)
    ensures
        r@ == error_with(message@, seq![(span, label@, LabelColor::Red)]),
{
    let e = CompileError::new(message);
    let e = e.label(span, String::from_str(label), LabelColor::Red);
    assert(e@.labels =~= seq![(span, label@, LabelColor::Red)]);
    e
}

/// A copy of a spanned name.
fn copy_name(n: &Spanned<String>) -> (r: Spanned<String>)
    ensures
        r == *n,
{
    Spanned { node: n.node.clone(), span: n.span }
}

/// Reports the `i`-th name if it repeats an earlier one.
fn report_duplicate_name(
    errors: &mut Vec<CompileError>,
    names: &Vec<Spanned<String>>,
    i: usize,
    what: &str,
    container: &str,
    owner: &str,
)
    requires
        i < names@.len(),
    ensures
        errors_view(final(errors)@) == errors_view(old(errors)@) + duplicate_name_errors(
            names@,
            i as int,
            what@,
            container@,
            owner@,
        ),
{
    let ghost keys = names@.map_values(|n: Spanned<String>| n.node@);
    let mut j: usize = 0;
    while j < i
        invariant
            i < names@.len(),
            j <= i,
            errors@ == old(errors)@,
            keys == names@.map_values(|n: Spanned<String>| n.node@),
            forall|l: int| 0 <= l < j ==> keys[l] != keys[i as int],
        decreases i - j,
    {
        if names[j].node == names[i].node {
            proof {
                lemma_first_equal_before(keys, i as int, Some(j as int));
            }
            let m = duplicate_name_message(
                what,
                names[i].node.as_str(),
                container,
                owner,
            );
            let e = two_label_error(m, names[j].span, "first defined here", names[i].span, "redefined here");
            push_error(errors, e);
            assert(errors_view(errors@) =~= errors_view(old(errors)@) + duplicate_name_errors(
                names@,
                i as int,
                what@,
                container@,
                owner@,
            ));
            return;
        }
        j = j + 1;
    }
    proof {
        lemma_first_equal_before(keys, i as int, None);
    }
    assert(errors_view(errors@) =~= errors_view(old(errors)@) + Seq::<ErrorView>::empty());
}

/// Reports the `i`-th index if it is zero (when `zero_reserved`) and if it repeats an earlier one.
fn report_index(
    errors: &mut Vec<CompileError>,
    indices: &Vec<Spanned<u32>>,
    i: usize,
    zero_reserved: bool,
    container: &str,
    owner: &str,
)
    requires
        i < indices@.len(),
    ensures
        errors_view(final(errors)@) == errors_view(old(errors)@) + (if zero_reserved {
            zero_index_errors(indices@[i as int], container@, owner@)
        } else {
            Seq::empty()
        }) + duplicate_index_errors(indices@, i as int, container@, owner@),
{
    let ghost start = errors_view(errors@);
    if zero_reserved && indices[i].node == 0 {
        let mut m = String::from_str("index 0 is reserved in ");
        m.append(container);
        m.append(" `");
        m.append(owner);
        m.append("`");
        let e = one_label_error(m, indices[i].span, "indices must be >= 1");
        push_error(errors, e);
    }
    let ghost mid = errors_view(errors@);
    assert(mid =~= start + (if zero_reserved {
        zero_index_errors(indices@[i as int], container@, owner@)
    } else {
        Seq::empty()
    }));
    let ghost keys = indices@.map_values(|n: Spanned<u32>| n.node);
    let mut j: usize = 0;
    while j < i
        invariant
            i < indices@.len(),
            j <= i,
            errors_view(errors@) == mid,
            mid == errors_view(old(errors)@) + (if zero_reserved {
                zero_index_errors(indices@[i as int], container@, owner@)
            } else {
                Seq::empty()
            }),
            keys == indices@.map_values(|n: Spanned<u32>| n.node),
            forall|l: int| 0 <= l < j ==> keys[l] != keys[i as int],
        decreases i - j,
    {
        if indices[j].node == indices[i].node {
            proof {
                lemma_first_equal_before(keys, i as int, Some(j as int));
            }
            let m = duplicate_index_message(indices[i].node, container, owner);
            let e = two_label_error(m, indices[j].span, "first used here", indices[i].span, "reused here");
            push_error(errors, e);
            assert(errors_view(errors@) =~= mid + duplicate_index_errors(
                indices@,
                i as int,
                container@,
                owner@,
            ));
            return;
        }
        j = j + 1;
    }
    proof {
        lemma_first_equal_before(keys, i as int, None);
    }
    assert(errors_view(errors@) =~= mid + Seq::<ErrorView>::empty());
}

/// Reports the duplicate names among `names[i..]`.
fn report_duplicate_names(
    errors: &mut Vec<CompileError>,
    names: &Vec<Spanned<String>>,
    what: &str,
    container: &str,
    owner: &str,
)
    ensures
        errors_view(final(errors)@) == errors_view(old(errors)@) + name_errors(
            names@,
            0,
            what@,
            container@,
            owner@,
        ),
{
    let mut i: usize = 0;
    while i < names.len()
        invariant
            i <= names@.len(),
            errors_view(errors@) + name_errors(names@, i as int, what@, container@, owner@)
                == errors_view(old(errors)@) + name_errors(names@, 0, what@, container@, owner@),
        decreases names.len() - i,
    {
        let ghost before = errors_view(errors@);
        report_duplicate_name(errors, names, i, what, container, owner);
        let ghost d = duplicate_name_errors(names@, i as int, what@, container@, owner@);
        let ghost rest = name_errors(names@, i + 1, what@, container@, owner@);
        assert(name_errors(names@, i as int, what@, container@, owner@) == d + rest);
        assert(before + (d + rest) =~= (before + d) + rest);
        i = i + 1;
    }
    assert(errors_view(errors@) + name_errors(names@, i as int, what@, container@, owner@)
        =~= errors_view(errors@));
}

/// `label` as an owned label.
fn red_label(span: Span, label: String) -> (r: (Span, String, LabelColor))
    ensures
        label_view(r) == (span, label@, LabelColor::Red),
{
    (span, label, LabelColor::Red)
}

/// The views of labels.
pub open spec fn labels_view(labels: Seq<(Span, String, LabelColor)>) -> Seq<LabelView> {
    labels.map_values(|l: (Span, String, LabelColor)| label_view(l))
}

fn push_label(chain: &mut Vec<(Span, String, LabelColor)>, span: Span, label: String)
    ensures
        labels_view(final(chain)@) == labels_view(old(chain)@) + seq![(span, label@, LabelColor::Red)],
{
    let l = red_label(span, label);
    chain.push(l);
    assert(labels_view(chain@) =~= labels_view(old(chain)@) + seq![label_view(l)]);
}

/// What a key check returned, against its specification: a failure's labels were pushed
/// onto the chain.
pub open spec fn key_check_matches(
    r: Result<Option<String>, ()>,
    spec: KeyCheck,
    before: Seq<LabelView>,
    after: Seq<LabelView>,
) -> bool {
    match r {
        Err(()) => spec is Err,
        Ok(None) => spec == Ok::<Option<(Seq<char>, Seq<LabelView>)>, ()>(None) && after == before,
        Ok(Some(reason)) => spec matches Ok(Some((rs, ls))) && rs == reason@ && after == before + ls,
    }
}

/// "`prefix``name``suffix`".
fn quoted(prefix: &str, name: &str, suffix: &str) -> (r: String)
    ensures
        r@ == prefix@ + name@ + suffix@,
{
    let mut m = String::from_str(prefix);
    m.append(name);
    m.append(suffix);
    m
}

/// Validates a type as a map key, pushing onto `chain` the labels that show why it is invalid.
/// Returns the reason when it is invalid; `Err(())` when `fuel` runs out.
fn validate_map_key_type(
    items: &Vec<Spanned<Item>>,
    schema: &Schema,
    language: Language,
    ty: &Type,
    span: Span,
    chain: &mut Vec<(Span, String, LabelColor)>,
    fuel: usize,
) -> (r: Result<Option<String>, ()>)
    requires
        schema.items@ == items@,
    ensures
        key_check_matches(
            r,
            eval_key(items@, language, *ty, span, fuel as nat),
            labels_view(old(chain)@),
            labels_view(final(chain)@),
        ),
    decreases fuel, 0nat, type_size(*ty),
{
    match ty {
        Type::Bool | Type::U8 | Type::U16 | Type::U32 | Type::U64 | Type::I8 | Type::I16
        | Type::I32 | Type::I64 | Type::String => Ok(None),
        Type::F32 | Type::F64 => {
            push_label(chain, span, String::from_str("floating-point type used here"));
            Ok(Some(String::from_str("floats cannot be used as map keys")))
        },
        Type::Dict(_, _) => {
            push_label(chain, span, String::from_str("map type used here"));
            Ok(Some(String::from_str("maps cannot be used as map keys")))
        },
        Type::Array(inner) => {
            match language {
                Language::Rust => {},
                Language::Go => {
                    push_label(chain, span, String::from_str("array type used here"));
                    return Ok(Some(String::from_str("arrays cannot be used as map keys in Go")));
                },
                Language::Typescript => {
                    push_label(chain, span, String::from_str("array type used here"));
                    return Ok(
                        Some(String::from_str("arrays cannot be used as map keys in TypeScript")),
                    );
                },
            }
            let ghost before = labels_view(chain@);
            match validate_map_key_type(items, schema, language, &inner.node, inner.span, chain, fuel) {
                Err(()) => Err(()),
                Ok(None) => Ok(None),
                Ok(Some(reason)) => {
                    push_label(chain, span, String::from_str("array of invalid type used here"));
                    proof {
                        let inner_spec = eval_key(items@, language, inner.node, inner.span, fuel as nat);
                        let (rs, ls) = inner_spec->Ok_0->Some_0;
                        assert(labels_view(chain@) =~= before + ls.push(
                            (span, "array of invalid type used here"@, LabelColor::Red),
                        ));
                        assert(before + ls.push((span, "array of invalid type used here"@, LabelColor::Red))
                            == before + ls.push((span, "array of invalid type used here"@, LabelColor::Red)));
                    }
                    Ok(Some(reason))
                },
            }
        },
        Type::Named(name) => {
            let item = schema.item(name.as_str());
            proof {
                lemma_find_item(items@, name@);
            }
            match item {
                None => Ok(None),
                Some(it) => match &it.node {
                    Item::Enum(_) => Ok(None),
                    Item::Struct(st) => {
                        if language == Language::Typescript {
                            push_label(chain, span, quoted("struct '", name.as_str(), "' used here"));
                            return Ok(
                                Some(
                                    String::from_str(
                                        "structs cannot be used as map keys in TypeScript",
                                    ),
                                ),
                            );
                        }
                        if fuel == 0 {
                            return Err(());
                        }
                        let ghost tys = struct_field_types(*st);
                        let mut i: usize = 0;
                        while i < st.fields.len()
                            invariant
                                fuel > 0,
                                schema.items@ == items@,
                                tys == struct_field_types(*st),
                                i <= st.fields@.len(),
                                eval_key(items@, language, *ty, span, fuel as nat) == key_check_then(
                                    eval_key_list(items@, language, tys, 0, (fuel - 1) as nat),
                                    (span, "struct '"@ + name@ + "' contains invalid field"@, LabelColor::Red),
                                ),
                                eval_key_list(items@, language, tys, 0, (fuel - 1) as nat)
                                    == eval_key_list(items@, language, tys, i as nat, (fuel - 1) as nat),
                                labels_view(chain@) == labels_view(old(chain)@),
                            decreases st.fields.len() - i,
                        {
                            let ft = &st.fields[i].node.ty;
                            assert(tys[i as int] == Some(*ft));
                            match validate_map_key_type(items, schema, language, &ft.node, ft.span, chain, fuel - 1) {
                                Err(()) => return Err(()),
                                Ok(None) => {},
                                Ok(Some(reason)) => {
                                    let ghost mid_labels = labels_view(chain@);
                                    push_label(chain, span, quoted("struct '", name.as_str(), "' contains invalid field"));
                                    proof {
                                        let lab = (span, "struct '"@ + name@ + "' contains invalid field"@, LabelColor::Red);
                                        let inner_spec = eval_key_list(items@, language, tys, i as nat, (fuel - 1) as nat);
                                        let (rs, ls) = inner_spec->Ok_0->Some_0;
                                        assert(mid_labels == labels_view(old(chain)@) + ls);
                                        assert(labels_view(chain@) =~= labels_view(old(chain)@) + ls.push(lab));
                                    }
                                    return Ok(Some(reason));
                                },
                            }
                            i = i + 1;
                        }
                        Ok(None)
                    },
                    Item::Message(m) => {
                        if language == Language::Typescript {
                            push_label(chain, span, quoted("message '", name.as_str(), "' used here"));
                            return Ok(
                                Some(
                                    String::from_str(
                                        "messages cannot be used as map keys in TypeScript",
                                    ),
                                ),
                            );
                        }
                        if fuel == 0 {
                            return Err(());
                        }
                        let ghost tys = message_field_types(*m);
                        let mut i: usize = 0;
                        while i < m.fields.len()
                            invariant
                                fuel > 0,
                                schema.items@ == items@,
                                tys == message_field_types(*m),
                                i <= m.fields@.len(),
                                eval_key(items@, language, *ty, span, fuel as nat) == key_check_then(
                                    eval_key_list(items@, language, tys, 0, (fuel - 1) as nat),
                                    (span, "message '"@ + name@ + "' contains invalid field"@, LabelColor::Red),
                                ),
                                eval_key_list(items@, language, tys, 0, (fuel - 1) as nat)
                                    == eval_key_list(items@, language, tys, i as nat, (fuel - 1) as nat),
                                labels_view(chain@) == labels_view(old(chain)@),
                            decreases m.fields.len() - i,
                        {
                            let ft = &m.fields[i].node.ty;
                            assert(tys[i as int] == Some(*ft));
                            match validate_map_key_type(items, schema, language, &ft.node, ft.span, chain, fuel - 1) {
                                Err(()) => return Err(()),
                                Ok(None) => {},
                                Ok(Some(reason)) => {
                                    let ghost mid_labels = labels_view(chain@);
                                    push_label(chain, span, quoted("message '", name.as_str(), "' contains invalid field"));
                                    proof {
                                        let lab = (span, "message '"@ + name@ + "' contains invalid field"@, LabelColor::Red);
                                        let inner_spec = eval_key_list(items@, language, tys, i as nat, (fuel - 1) as nat);
                                        let (rs, ls) = inner_spec->Ok_0->Some_0;
                                        assert(mid_labels == labels_view(old(chain)@) + ls);
                                        assert(labels_view(chain@) =~= labels_view(old(chain)@) + ls.push(lab));
                                    }
                                    return Ok(Some(reason));
                                },
                            }
                            i = i + 1;
                        }
                        Ok(None)
                    },
                    Item::Union(u) => {
                        match language {
                            Language::Rust => {},
                            Language::Go => {
                                push_label(chain, span, quoted("union '", name.as_str(), "' used here"));
                                return Ok(Some(String::from_str("unions cannot be used as map keys in Go")));
                            },
                            Language::Typescript => {
                                push_label(chain, span, quoted("union '", name.as_str(), "' used here"));
                                return Ok(
                                    Some(
                                        String::from_str(
                                            "unions cannot be used as map keys in TypeScript",
                                        ),
                                    ),
                                );
                            },
                        }
                        if fuel == 0 {
                            return Err(());
                        }
                        let ghost tys = union_variant_types(*u);
                        let mut i: usize = 0;
                        while i < u.variants.len()
                            invariant
                                fuel > 0,
                                schema.items@ == items@,
                                tys == union_variant_types(*u),
                                i <= u.variants@.len(),
                                eval_key(items@, language, *ty, span, fuel as nat) == key_check_then(
                                    eval_key_list(items@, language, tys, 0, (fuel - 1) as nat),
                                    (span, "union '"@ + name@ + "' contains invalid variant"@, LabelColor::Red),
                                ),
                                eval_key_list(items@, language, tys, 0, (fuel - 1) as nat)
                                    == eval_key_list(items@, language, tys, i as nat, (fuel - 1) as nat),
                                labels_view(chain@) == labels_view(old(chain)@),
                            decreases u.variants.len() - i,
                        {
                            assert(tys[i as int] == u.variants@[i as int].node.ty);
                            if let Some(vt) = &u.variants[i].node.ty {
                                match validate_map_key_type(items, schema, language, &vt.node, vt.span, chain, fuel - 1) {
                                    Err(()) => return Err(()),
                                    Ok(None) => {},
                                    Ok(Some(reason)) => {
                                        let ghost mid_labels = labels_view(chain@);
                                        push_label(chain, span, quoted("union '", name.as_str(), "' contains invalid variant"));
                                        proof {
                                            let lab = (span, "union '"@ + name@ + "' contains invalid variant"@, LabelColor::Red);
                                            let inner_spec = eval_key_list(items@, language, tys, i as nat, (fuel - 1) as nat);
                                            let (rs, ls) = inner_spec->Ok_0->Some_0;
                                            assert(mid_labels == labels_view(old(chain)@) + ls);
                                            assert(labels_view(chain@) =~= labels_view(old(chain)@) + ls.push(lab));
                                        }
                                        return Ok(Some(reason));
                                    },
                                }
                            }
                            i = i + 1;
                        }
                        Ok(None)
                    },
                    Item::Service(_) => {
                        push_label(chain, span, String::from_str("service used as type"));
                        Ok(Some(String::from_str("services cannot be used as types")))
                    },
                },
            }
        },
    }
}

/// Reports an invalid map key type.
fn check_map_key_type(
    errors: &mut Vec<CompileError>,
    items: &Vec<Spanned<Item>>,
    schema: &Schema,
    language: Language,
    key: &Spanned<Type>,
)
    requires
        schema.items@ == items@,
        eval_key(items@, language, key.node, key.span, key_fuel(items@)) is Ok,
    ensures
        errors_view(final(errors)@) == errors_view(old(errors)@) + key_errors(items@, language, *key),
{
    let mut chain: Vec<(Span, String, LabelColor)> = Vec::new();
    assert(labels_view(chain@) =~= Seq::<LabelView>::empty());
    let r = validate_map_key_type(items, schema, language, &key.node, key.span, &mut chain, items.len());
    match r {
        Ok(Some(reason)) => {
            let mut m = String::from_str("invalid map key type: ");
            m.append(reason.as_str());
            let ghost ls = labels_view(chain@);
            assert(Seq::<LabelView>::empty() + ls =~= ls);
            let e = error_from_labels(m, chain);
            push_error(errors, e);
            assert(errors_view(errors@) =~= errors_view(old(errors)@) + key_errors(items@, language, *key));
        },
        _ => {
            assert(errors_view(errors@) =~= errors_view(old(errors)@) + key_errors(items@, language, *key));
        },
    }
}

/// Reports the type reference errors of a type.
fn check_type(
    errors: &mut Vec<CompileError>,
    items: &Vec<Spanned<Item>>,
    schema: &Schema,
    language: Language,
    ty: &Type,
    span: Span,
)
    requires
        schema.items@ == items@,
        type_keys_end(items@, language, *ty),
    ensures
        errors_view(final(errors)@) == errors_view(old(errors)@) + type_errors(items@, language, *ty, span),
    decreases ty,
{
    match ty {
        Type::Named(name) => {
            proof {
                lemma_find_item(items@, name@);
            }
            match schema.item(name.as_str()) {
                None => {
                    let e = one_label_error(quoted("undefined type `", name.as_str(), "`"), span, "not found");
                    push_error(errors, e);
                    assert(errors_view(errors@) =~= errors_view(old(errors)@) + type_errors(items@, language, *ty, span));
                },
                Some(it) => {
                    if let Item::Service(_) = &it.node {
                        let e = one_label_error(
                            String::from_str("services cannot be used as types"),
                            span,
                            "service used as type",
                        );
                        push_error(errors, e);
                        assert(errors_view(errors@) =~= errors_view(old(errors)@) + type_errors(items@, language, *ty, span));
                    } else {
                        assert(errors_view(errors@) =~= errors_view(old(errors)@) + type_errors(items@, language, *ty, span));
                    }
                },
            }
        },
        Type::Array(inner) => {
            check_type(errors, items, schema, language, &inner.node, inner.span);
        },
        Type::Dict(key, value) => {
            let ghost e0 = errors_view(errors@);
            check_type(errors, items, schema, language, &key.node, key.span);
            let ghost e1 = errors_view(errors@);
            check_type(errors, items, schema, language, &value.node, value.span);
            let ghost e2 = errors_view(errors@);
            // Validate that the key type is valid for maps
            check_map_key_type(errors, items, schema, language, key);
            assert(errors_view(errors@) =~= e0 + type_errors(items@, language, *ty, span));
        },
        _ => {
            assert(errors_view(errors@) =~= errors_view(old(errors)@) + type_errors(items@, language, *ty, span));
        },
    }
}

fn struct_field_names(s: &Struct) -> (r: Vec<Spanned<String>>)
    ensures
        r@ == s.fields@.map_values(|f: Spanned<crate::schema::StructField>| f.node.name),
{
    let mut r: Vec<Spanned<String>> = Vec::new();
    let mut i: usize = 0;
    while i < s.fields.len()
        invariant
            i <= s.fields@.len(),
            r@ == s.fields@.take(i as int).map_values(|f: Spanned<crate::schema::StructField>| f.node.name),
        decreases s.fields.len() - i,
    {
        r.push(copy_name(&s.fields[i].node.name));
        assert(s.fields@.take(i + 1).map_values(|f: Spanned<crate::schema::StructField>| f.node.name)
            =~= s.fields@.take(i as int).map_values(|f: Spanned<crate::schema::StructField>| f.node.name).push(
            s.fields@[i as int].node.name));
        i = i + 1;
    }
    assert(s.fields@.take(i as int) =~= s.fields@);
    r
}

fn message_field_names(m: &Message) -> (r: Vec<Spanned<String>>)
    ensures
        r@ == m.fields@.map_values(|f: Spanned<crate::schema::MessageField>| f.node.name),
{
    let mut r: Vec<Spanned<String>> = Vec::new();
    let mut i: usize = 0;
    while i < m.fields.len()
        invariant
            i <= m.fields@.len(),
            r@ == m.fields@.take(i as int).map_values(|f: Spanned<crate::schema::MessageField>| f.node.name),
        decreases m.fields.len() - i,
    {
        r.push(copy_name(&m.fields[i].node.name));
        assert(m.fields@.take(i + 1).map_values(|f: Spanned<crate::schema::MessageField>| f.node.name)
            =~= m.fields@.take(i as int).map_values(|f: Spanned<crate::schema::MessageField>| f.node.name).push(
            m.fields@[i as int].node.name));
        i = i + 1;
    }
    assert(m.fields@.take(i as int) =~= m.fields@);
    r
}

fn message_field_indices(m: &Message) -> (r: Vec<Spanned<u32>>)
    ensures
        r@ == m.fields@.map_values(|f: Spanned<crate::schema::MessageField>| f.node.index),
{
    let mut r: Vec<Spanned<u32>> = Vec::new();
    let mut i: usize = 0;
    while i < m.fields.len()
        invariant
            i <= m.fields@.len(),
            r@ == m.fields@.take(i as int).map_values(|f: Spanned<crate::schema::MessageField>| f.node.index),
        decreases m.fields.len() - i,
    {
        let x = &m.fields[i].node.index;
        r.push(Spanned { node: x.node, span: x.span });
        assert(m.fields@.take(i + 1).map_values(|f: Spanned<crate::schema::MessageField>| f.node.index)
            =~= m.fields@.take(i as int).map_values(|f: Spanned<crate::schema::MessageField>| f.node.index).push(
            m.fields@[i as int].node.index));
        i = i + 1;
    }
    assert(m.fields@.take(i as int) =~= m.fields@);
    r
}

fn enum_variant_names(e: &Enum) -> (r: Vec<Spanned<String>>)
    ensures
        r@ == e.variants@.map_values(|v: Spanned<crate::schema::EnumVariant>| v.node.name),
{
    let mut r: Vec<Spanned<String>> = Vec::new();
    let mut i: usize = 0;
    while i < e.variants.len()
        invariant
            i <= e.variants@.len(),
            r@ == e.variants@.take(i as int).map_values(|v: Spanned<crate::schema::EnumVariant>| v.node.name),
        decreases e.variants.len() - i,
    {
        r.push(copy_name(&e.variants[i].node.name));
        assert(e.variants@.take(i + 1).map_values(|v: Spanned<crate::schema::EnumVariant>| v.node.name)
            =~= e.variants@.take(i as int).map_values(|v: Spanned<crate::schema::EnumVariant>| v.node.name).push(
            e.variants@[i as int].node.name));
        i = i + 1;
    }
    assert(e.variants@.take(i as int) =~= e.variants@);
    r
}

fn enum_variant_indices(e: &Enum) -> (r: Vec<Spanned<u32>>)
    ensures
        r@ == e.variants@.map_values(|v: Spanned<crate::schema::EnumVariant>| v.node.index),
{
    let mut r: Vec<Spanned<u32>> = Vec::new();
    let mut i: usize = 0;
    while i < e.variants.len()
        invariant
            i <= e.variants@.len(),
            r@ == e.variants@.take(i as int).map_values(|v: Spanned<crate::schema::EnumVariant>| v.node.index),
        decreases e.variants.len() - i,
    {
        let x = &e.variants[i].node.index;
        r.push(Spanned { node: x.node, span: x.span });
        assert(e.variants@.take(i + 1).map_values(|v: Spanned<crate::schema::EnumVariant>| v.node.index)
            =~= e.variants@.take(i as int).map_values(|v: Spanned<crate::schema::EnumVariant>| v.node.index).push(
            e.variants@[i as int].node.index));
        i = i + 1;
    }
    assert(e.variants@.take(i as int) =~= e.variants@);
    r
}

fn union_variant_names(u: &Union) -> (r: Vec<Spanned<String>>)
    ensures
        r@ == u.variants@.map_values(|v: Spanned<crate::schema::UnionVariant>| v.node.name),
{
    let mut r: Vec<Spanned<String>> = Vec::new();
    let mut i: usize = 0;
    while i < u.variants.len()
        invariant
            i <= u.variants@.len(),
            r@ == u.variants@.take(i as int).map_values(|v: Spanned<crate::schema::UnionVariant>| v.node.name),
        decreases u.variants.len() - i,
    {
        r.push(copy_name(&u.variants[i].node.name));
        assert(u.variants@.take(i + 1).map_values(|v: Spanned<crate::schema::UnionVariant>| v.node.name)
            =~= u.variants@.take(i as int).map_values(|v: Spanned<crate::schema::UnionVariant>| v.node.name).push(
            u.variants@[i as int].node.name));
        i = i + 1;
    }
    assert(u.variants@.take(i as int) =~= u.variants@);
    r
}

fn union_variant_indices(u: &Union) -> (r: Vec<Spanned<u32>>)
    ensures
        r@ == u.variants@.map_values(|v: Spanned<crate::schema::UnionVariant>| v.node.index),
{
    let mut r: Vec<Spanned<u32>> = Vec::new();
    let mut i: usize = 0;
    while i < u.variants.len()
        invariant
            i <= u.variants@.len(),
            r@ == u.variants@.take(i as int).map_values(|v: Spanned<crate::schema::UnionVariant>| v.node.index),
        decreases u.variants.len() - i,
    {
        let x = &u.variants[i].node.index;
        r.push(Spanned { node: x.node, span: x.span });
        assert(u.variants@.take(i + 1).map_values(|v: Spanned<crate::schema::UnionVariant>| v.node.index)
            =~= u.variants@.take(i as int).map_values(|v: Spanned<crate::schema::UnionVariant>| v.node.index).push(
            u.variants@[i as int].node.index));
        i = i + 1;
    }
    assert(u.variants@.take(i as int) =~= u.variants@);
    r
}

fn service_method_names(s: &Service) -> (r: Vec<Spanned<String>>)
    ensures
        r@ == s.methods@.map_values(|m: Spanned<crate::schema::ServiceMethod>| m.node.name),
{
    let mut r: Vec<Spanned<String>> = Vec::new();
    let mut i: usize = 0;
    while i < s.methods.len()
        invariant
            i <= s.methods@.len(),
            r@ == s.methods@.take(i as int).map_values(|m: Spanned<crate::schema::ServiceMethod>| m.node.name),
        decreases s.methods.len() - i,
    {
        r.push(copy_name(&s.methods[i].node.name));
        assert(s.methods@.take(i + 1).map_values(|m: Spanned<crate::schema::ServiceMethod>| m.node.name)
            =~= s.methods@.take(i as int).map_values(|m: Spanned<crate::schema::ServiceMethod>| m.node.name).push(
            s.methods@[i as int].node.name));
        i = i + 1;
    }
    assert(s.methods@.take(i as int) =~= s.methods@);
    r
}

fn service_method_indices(s: &Service) -> (r: Vec<Spanned<u32>>)
    ensures
        r@ == s.methods@.map_values(|m: Spanned<crate::schema::ServiceMethod>| m.node.index),
{
    let mut r: Vec<Spanned<u32>> = Vec::new();
    let mut i: usize = 0;
    while i < s.methods.len()
        invariant
            i <= s.methods@.len(),
            r@ == s.methods@.take(i as int).map_values(|m: Spanned<crate::schema::ServiceMethod>| m.node.index),
        decreases s.methods.len() - i,
    {
        let x = &s.methods[i].node.index;
        r.push(Spanned { node: x.node, span: x.span });
        assert(s.methods@.take(i + 1).map_values(|m: Spanned<crate::schema::ServiceMethod>| m.node.index)
            =~= s.methods@.take(i as int).map_values(|m: Spanned<crate::schema::ServiceMethod>| m.node.index).push(
            s.methods@[i as int].node.index));
        i = i + 1;
    }
    assert(s.methods@.take(i as int) =~= s.methods@);
    r
}


/// Reports a struct's duplicate field names and the type reference errors of its fields.
#[verifier::spinoff_prover]
fn check_struct(
    errors: &mut Vec<CompileError>,
    items: &Vec<Spanned<Item>>,
    schema: &Schema,
    language: Language,
    s: &Struct,
)
    requires
        schema.items@ == items@,
        forall|i: int|
            0 <= i < s.fields@.len() ==> type_keys_end(
                items@,
                language,
                (#[trigger] s.fields@[i]).node.ty.node,
            ),
    ensures
        errors_view(final(errors)@) == errors_view(old(errors)@) + struct_errors(
            items@,
            language,
            *s,
            0,
        ),
{
    let names = struct_field_names(s);
    let mut i: usize = 0;
    while i < s.fields.len()
        invariant
            i <= s.fields@.len(),
            schema.items@ == items@,
            forall|i: int|
                0 <= i < s.fields@.len() ==> type_keys_end(
                    items@,
                    language,
                    (#[trigger] s.fields@[i]).node.ty.node,
                ),
            names@ == s.fields@.map_values(|f: Spanned<crate::schema::StructField>| f.node.name),
            errors_view(errors@) + struct_errors(items@, language, *s, i as int) == errors_view(
                old(errors)@,
            ) + struct_errors(items@, language, *s, 0),
        decreases s.fields.len() - i,
    {
        let ghost before = errors_view(errors@);
        report_duplicate_name(errors, &names, i, "field", "struct", s.name.node.as_str());
        let ghost mid = errors_view(errors@);
        let f = &s.fields[i].node;
        assert(type_keys_end(items@, language, s.fields@[i as int].node.ty.node));
        check_type(errors, items, schema, language, &f.ty.node, f.ty.span);
        let ghost d = duplicate_name_errors(names@, i as int, "field"@, "struct"@, s.name.node@);
        let ghost t = type_errors(items@, language, f.ty.node, f.ty.span);
        let ghost rest = struct_errors(items@, language, *s, i + 1);
        assert(struct_errors(items@, language, *s, i as int) == d + t + rest);
        assert(before + (d + t + rest) =~= (before + d + t) + rest);
        i = i + 1;
    }
    assert(errors_view(errors@) + struct_errors(items@, language, *s, i as int) =~= errors_view(
        errors@,
    ));
}

/// Reports a message's duplicate field names, then per field a zero index, a duplicate index
/// and the type reference errors.
#[verifier::spinoff_prover]
fn check_message(
    errors: &mut Vec<CompileError>,
    items: &Vec<Spanned<Item>>,
    schema: &Schema,
    language: Language,
    m: &Message,
)
    requires
        schema.items@ == items@,
        forall|i: int|
            0 <= i < m.fields@.len() ==> type_keys_end(
                items@,
                language,
                (#[trigger] m.fields@[i]).node.ty.node,
            ),
    ensures
        errors_view(final(errors)@) == errors_view(old(errors)@) + message_errors(
            items@,
            language,
            *m,
        ),
{
    let names = message_field_names(m);
    report_duplicate_names(errors, &names, "field", "message", m.name.node.as_str());
    let ghost start = errors_view(errors@);
    let indices = message_field_indices(m);
    let mut i: usize = 0;
    while i < m.fields.len()
        invariant
            i <= m.fields@.len(),
            schema.items@ == items@,
            forall|i: int|
                0 <= i < m.fields@.len() ==> type_keys_end(
                    items@,
                    language,
                    (#[trigger] m.fields@[i]).node.ty.node,
                ),
            indices@ == m.fields@.map_values(|f: Spanned<crate::schema::MessageField>| f.node.index),
            errors_view(errors@) + message_index_errors(items@, language, *m, i as int) == start
                + message_index_errors(items@, language, *m, 0),
        decreases m.fields.len() - i,
    {
        let ghost before = errors_view(errors@);
        report_index(errors, &indices, i, true, "message", m.name.node.as_str());
        let f = &m.fields[i].node;
        assert(type_keys_end(items@, language, m.fields@[i as int].node.ty.node));
        check_type(errors, items, schema, language, &f.ty.node, f.ty.span);
        let ghost z = zero_index_errors(f.index, "message"@, m.name.node@);
        let ghost d = duplicate_index_errors(indices@, i as int, "message"@, m.name.node@);
        let ghost t = type_errors(items@, language, f.ty.node, f.ty.span);
        let ghost rest = message_index_errors(items@, language, *m, i + 1);
        assert(indices@[i as int] == f.index);
        assert(message_index_errors(items@, language, *m, i as int) == z + d + t + rest);
        assert(before + (z + d + t + rest) =~= (before + z + d + t) + rest);
        i = i + 1;
    }
    assert(errors_view(errors@) + message_index_errors(items@, language, *m, i as int)
        =~= errors_view(errors@));
    assert(errors_view(errors@) =~= errors_view(old(errors)@) + message_errors(items@, language, *m));
}

/// Reports an enum's duplicate variant names, then its duplicate indices.
#[verifier::spinoff_prover]
fn check_enum(errors: &mut Vec<CompileError>, e: &Enum)
    ensures
        errors_view(final(errors)@) == errors_view(old(errors)@) + enum_errors(*e),
{
    let names = enum_variant_names(e);
    report_duplicate_names(errors, &names, "variant", "enum", e.name.node.as_str());
    let ghost start = errors_view(errors@);
    let indices = enum_variant_indices(e);
    let mut i: usize = 0;
    while i < e.variants.len()
        invariant
            i <= e.variants@.len(),
            indices@ == e.variants@.map_values(|v: Spanned<crate::schema::EnumVariant>| v.node.index),
            errors_view(errors@) + enum_index_errors(*e, i as int) == start + enum_index_errors(*e, 0),
        decreases e.variants.len() - i,
    {
        let ghost before = errors_view(errors@);
        report_index(errors, &indices, i, false, "enum", e.name.node.as_str());
        let ghost d = duplicate_index_errors(indices@, i as int, "enum"@, e.name.node@);
        let ghost rest = enum_index_errors(*e, i + 1);
        assert(errors_view(errors@) == before + Seq::<ErrorView>::empty() + d);
        assert(before + Seq::<ErrorView>::empty() =~= before);
        assert(enum_index_errors(*e, i as int) == d + rest) by {
            assert(indices@ == e.variants@.map_values(
                |v: Spanned<crate::schema::EnumVariant>| v.node.index,
            ));
        }
        assert(before + (d + rest) =~= (before + d) + rest);
        i = i + 1;
    }
    assert(errors_view(errors@) + enum_index_errors(*e, i as int) =~= errors_view(errors@));
    assert(errors_view(errors@) =~= errors_view(old(errors)@) + enum_errors(*e));
}

/// Reports a union's duplicate variant names, then per variant a zero index, a duplicate index
/// and the payload's type reference errors.
#[verifier::spinoff_prover]
fn check_union(
    errors: &mut Vec<CompileError>,
    items: &Vec<Spanned<Item>>,
    schema: &Schema,
    language: Language,
    u: &Union,
)
    requires
        schema.items@ == items@,
        forall|i: int|
            0 <= i < u.variants@.len() ==> match (#[trigger] u.variants@[i]).node.ty {
                Some(t) => type_keys_end(items@, language, t.node),
                None => true,
            },
    ensures
        errors_view(final(errors)@) == errors_view(old(errors)@) + union_errors(
            items@,
            language,
            *u,
        ),
{
    let names = union_variant_names(u);
    report_duplicate_names(errors, &names, "variant", "union", u.name.node.as_str());
    let ghost start = errors_view(errors@);
    let indices = union_variant_indices(u);
    let mut i: usize = 0;
    while i < u.variants.len()
        invariant
            i <= u.variants@.len(),
            schema.items@ == items@,
            forall|i: int|
                0 <= i < u.variants@.len() ==> match (#[trigger] u.variants@[i]).node.ty {
                    Some(t) => type_keys_end(items@, language, t.node),
                    None => true,
                },
            indices@ == u.variants@.map_values(
                |v: Spanned<crate::schema::UnionVariant>| v.node.index,
            ),
            errors_view(errors@) + union_index_errors(items@, language, *u, i as int) == start
                + union_index_errors(items@, language, *u, 0),
        decreases u.variants.len() - i,
    {
        let ghost before = errors_view(errors@);
        report_index(errors, &indices, i, true, "union", u.name.node.as_str());
        let ghost after_index = errors_view(errors@);
        let v = &u.variants[i].node;
        assert(indices@[i as int] == v.index);
        let ghost z = zero_index_errors(v.index, "union"@, u.name.node@);
        let ghost d = duplicate_index_errors(indices@, i as int, "union"@, u.name.node@);
        let ghost t = match u.variants@[i as int].node.ty {
            Some(t) => type_errors(items@, language, t.node, t.span),
            None => Seq::<ErrorView>::empty(),
        };
        if let Some(ty) = &v.ty {
            assert(type_keys_end(items@, language, ty.node)) by {
                assert(u.variants@[i as int].node.ty == v.ty);
            }
            check_type(errors, items, schema, language, &ty.node, ty.span);
        } else {
            assert(errors_view(errors@) =~= after_index + t);
        }
        let ghost rest = union_index_errors(items@, language, *u, i + 1);
        assert(union_index_errors(items@, language, *u, i as int) == z + d + t + rest);
        assert(before + (z + d + t + rest) =~= (before + z + d + t) + rest);
        i = i + 1;
    }
    assert(errors_view(errors@) + union_index_errors(items@, language, *u, i as int)
        =~= errors_view(errors@));
    assert(errors_view(errors@) =~= errors_view(old(errors)@) + union_errors(items@, language, *u));
}

/// Reports the type reference errors of a method's request and response.
fn check_method_types(
    errors: &mut Vec<CompileError>,
    items: &Vec<Spanned<Item>>,
    schema: &Schema,
    language: Language,
    m: &crate::schema::ServiceMethod,
)
    requires
        schema.items@ == items@,
        type_keys_end(items@, language, m.request.node),
        type_keys_end(items@, language, response_type(m.response.node)),
    ensures
        errors_view(final(errors)@) == errors_view(old(errors)@) + type_errors(
            items@,
            language,
            m.request.node,
            m.request.span,
        ) + type_errors(items@, language, response_type(m.response.node), m.response.span),
{
    check_type(errors, items, schema, language, &m.request.node, m.request.span);
    // The response type is checked at the span of the whole response.
    match &m.response.node {
        ServiceResponse::Unary(ty) => {
            check_type(errors, items, schema, language, ty, m.response.span);
        },
        ServiceResponse::Stream(ty) => {
            check_type(errors, items, schema, language, ty, m.response.span);
        },
    }
}

/// Reports a service's duplicate method names, then per method a zero index, a duplicate index
/// and the type reference errors of its request and response.
#[verifier::spinoff_prover]
fn check_service(
    errors: &mut Vec<CompileError>,
    items: &Vec<Spanned<Item>>,
    schema: &Schema,
    language: Language,
    s: &Service,
)
    requires
        schema.items@ == items@,
        forall|i: int|
            0 <= i < s.methods@.len() ==> type_keys_end(
                items@,
                language,
                (#[trigger] s.methods@[i]).node.request.node,
            ) && type_keys_end(items@, language, response_type(s.methods@[i].node.response.node)),
    ensures
        errors_view(final(errors)@) == errors_view(old(errors)@) + service_errors(
            items@,
            language,
            *s,
        ),
{
    let names = service_method_names(s);
    report_duplicate_names(errors, &names, "method", "service", s.name.node.as_str());
    let ghost start = errors_view(errors@);
    let indices = service_method_indices(s);
    let mut i: usize = 0;
    while i < s.methods.len()
        invariant
            i <= s.methods@.len(),
            schema.items@ == items@,
            forall|i: int|
                0 <= i < s.methods@.len() ==> type_keys_end(
                    items@,
                    language,
                    (#[trigger] s.methods@[i]).node.request.node,
                ) && type_keys_end(
                    items@,
                    language,
                    response_type(s.methods@[i].node.response.node),
                ),
            indices@ == s.methods@.map_values(
                |m: Spanned<crate::schema::ServiceMethod>| m.node.index,
            ),
            errors_view(errors@) + service_index_errors(items@, language, *s, i as int) == start
                + service_index_errors(items@, language, *s, 0),
        decreases s.methods.len() - i,
    {
        let ghost before = errors_view(errors@);
        report_index(errors, &indices, i, true, "service", s.name.node.as_str());
        let m = &s.methods[i].node;
        assert(indices@[i as int] == m.index);
        assert(type_keys_end(items@, language, s.methods@[i as int].node.request.node));
        check_method_types(errors, items, schema, language, m);
        let ghost z = zero_index_errors(m.index, "service"@, s.name.node@);
        let ghost d = duplicate_index_errors(indices@, i as int, "service"@, s.name.node@);
        let ghost t1 = type_errors(items@, language, m.request.node, m.request.span);
        let ghost t2 = type_errors(
            items@,
            language,
            response_type(m.response.node),
            m.response.span,
        );
        let ghost rest = service_index_errors(items@, language, *s, i + 1);
        assert(service_index_errors(items@, language, *s, i as int) == z + d + t1 + t2 + rest);
        assert(before + (z + d + t1 + t2 + rest) =~= (before + z + d + t1 + t2) + rest);
        i = i + 1;
    }
    assert(errors_view(errors@) + service_index_errors(items@, language, *s, i as int)
        =~= errors_view(errors@));
    assert(errors_view(errors@) =~= errors_view(old(errors)@) + service_errors(
        items@,
        language,
        *s,
    ));
}

/// The labels of the definitions sharing the name of the `i`-th item, from the `i`-th on.
fn definition_labels_from(items: &Vec<Spanned<Item>>, i: usize) -> (r: Vec<
    (Span, String, LabelColor),
>)
    requires
        i < items@.len(),
    ensures
        labels_view(r@) == definition_labels(items@, items@[i as int].node.spec_name(), i as int, false),
{
    let name = items[i].node.name();
    let mut labels: Vec<(Span, String, LabelColor)> = Vec::new();
    let mut seen = false;
    let mut j: usize = i;
    assert(labels_view(labels@) =~= Seq::<LabelView>::empty());
    while j < items.len()
        invariant
            i <= j <= items@.len(),
            name@ == items@[i as int].node.spec_name(),
            seen == (j > i),
            labels_view(labels@) + definition_labels(items@, name@, j as int, seen)
                == definition_labels(items@, name@, i as int, false),
        decreases items.len() - j,
    {
        let ghost before = labels_view(labels@);
        if str_eq(items[j].node.name(), name) {
            let l = if seen {
                (items[j].node.name_span(), String::from_str("redefined here"), LabelColor::Red)
            } else {
                (items[j].node.name_span(), String::from_str("first defined here"), LabelColor::Blue)
            };
            labels.push(l);
            assert(labels_view(labels@) =~= before.push(label_view(l)));
            assert(before + definition_labels(items@, name@, j as int, seen) =~= labels_view(labels@)
                + definition_labels(items@, name@, j + 1, true));
        } else {
            assert(definition_labels(items@, name@, j as int, seen) == definition_labels(
                items@,
                name@,
                j + 1,
                seen,
            ));
            assert(seen == (j + 1 > i));
        }
        seen = true;
        j = j + 1;
    }
    assert(labels_view(labels@) + definition_labels(items@, name@, j as int, seen) =~= labels_view(
        labels@,
    ));
    labels
}

/// Whether an item at an index in `from..to` has the name of the `i`-th item.
fn name_used_in(items: &Vec<Spanned<Item>>, i: usize, from: usize, to: usize) -> (r: bool)
    requires
        i < items@.len(),
        from <= to <= items@.len(),
    ensures
        r == exists|j: int|
            from <= j < to && (#[trigger] items@[j]).node.spec_name()
                == items@[i as int].node.spec_name(),
{
    let name = items[i].node.name();
    let mut j = from;
    while j < to
        invariant
            from <= j <= to <= items@.len(),
            name@ == items@[i as int].node.spec_name(),
            forall|k: int| from <= k < j ==> (#[trigger] items@[k]).node.spec_name() != name@,
        decreases to - j,
    {
        if str_eq(items[j].node.name(), name) {
            return true;
        }
        j = j + 1;
    }
    false
}

/// Reports each name defined by more than one item, at its first definition, in the order of
/// the first definitions.
#[verifier::spinoff_prover]
fn check_duplicate_definitions(errors: &mut Vec<CompileError>, items: &Vec<Spanned<Item>>)
    ensures
        errors_view(final(errors)@) == errors_view(old(errors)@) + all_duplicate_definition_errors(
            items@,
            0,
        ),
{
    let ghost names = items@.map_values(|it: Spanned<Item>| it.node.spec_name());
    let mut i: usize = 0;
    while i < items.len()
        invariant
            i <= items@.len(),
            names == items@.map_values(|it: Spanned<Item>| it.node.spec_name()),
            errors_view(errors@) + all_duplicate_definition_errors(items@, i as int) == errors_view(
                old(errors)@,
            ) + all_duplicate_definition_errors(items@, 0),
        decreases items.len() - i,
    {
        let ghost before = errors_view(errors@);
        let earlier = name_used_in(items, i, 0, i);
        let later = name_used_in(items, i, i + 1, items.len());
        proof {
            if earlier {
                let j = choose|j: int|
                    0 <= j < i && (#[trigger] items@[j]).node.spec_name()
                        == items@[i as int].node.spec_name();
                assert(names[j] == names[i as int]);
                assert(first_equal_before(names, i as int) is Some) by { reveal(first_equal_before); }
            } else {
                assert forall|l: int| 0 <= l < i implies names[l] != names[i as int] by {
                    assert(items@[l].node.spec_name() != items@[i as int].node.spec_name());
                }
                assert(first_equal_before(names, i as int) is None) by { reveal(first_equal_before); }
            }
        }
        let ghost d = duplicate_definition_errors(items@, i as int);
        if !earlier && later {
            let name = items[i].node.name();
            let m = quoted("duplicate definition of `", name, "`");
            let labels = definition_labels_from(items, i);
            let e = error_from_labels(m, labels);
            push_error(errors, e);
            assert(errors_view(errors@) =~= before + d);
        } else {
            assert(errors_view(errors@) =~= before + d);
        }
        let ghost rest = all_duplicate_definition_errors(items@, i + 1);
        assert(all_duplicate_definition_errors(items@, i as int) == d + rest);
        assert(before + (d + rest) =~= (before + d) + rest);
        i = i + 1;
    }
    assert(errors_view(errors@) + all_duplicate_definition_errors(items@, i as int) =~= errors_view(
        errors@,
    ));
}

/// Whether validating the map keys within a type ends.
fn type_keys_end_in(
    items: &Vec<Spanned<Item>>,
    schema: &Schema,
    language: Language,
    ty: &Type,
) -> (r: bool)
    requires
        schema.items@ == items@,
    ensures
        r == type_keys_end(items@, language, *ty),
    decreases ty,
{
    match ty {
        Type::Array(inner) => type_keys_end_in(items, schema, language, &inner.node),
        Type::Dict(k, v) => {
            if !type_keys_end_in(items, schema, language, &k.node) {
                return false;
            }
            if !type_keys_end_in(items, schema, language, &v.node) {
                return false;
            }
            let mut chain: Vec<(Span, String, LabelColor)> = Vec::new();
            let r = validate_map_key_type(
                items,
                schema,
                language,
                &k.node,
                k.span,
                &mut chain,
                items.len(),
            );
            r.is_ok()
        },
        _ => true,
    }
}

/// Whether validating the map keys ends for every type used in an item.
fn item_keys_end_in(
    items: &Vec<Spanned<Item>>,
    schema: &Schema,
    language: Language,
    item: &Item,
) -> (r: bool)
    requires
        schema.items@ == items@,
    ensures
        r == item_keys_end(items@, language, *item),
{
    match item {
        Item::Struct(s) => {
            let mut i: usize = 0;
            while i < s.fields.len()
                invariant
                    schema.items@ == items@,
                    *item == Item::Struct(*s),
                    i <= s.fields@.len(),
                    forall|j: int|
                        0 <= j < i ==> type_keys_end(
                            items@,
                            language,
                            (#[trigger] s.fields@[j]).node.ty.node,
                        ),
                decreases s.fields.len() - i,
            {
                if !type_keys_end_in(items, schema, language, &s.fields[i].node.ty.node) {
                    let ghost f = s.fields@[i as int];
                    assert(!type_keys_end(items@, language, f.node.ty.node));
                    assert(!item_keys_end(items@, language, Item::Struct(*s))) by {
                        if item_keys_end(items@, language, Item::Struct(*s)) {
                            let it = Item::Struct(*s);
                            assert(it matches Item::Struct(x) && x.fields@[i as int] == f);
                        }
                    }
                    return false;
                }
                i = i + 1;
            }
            true
        },
        Item::Message(m) => {
            let mut i: usize = 0;
            while i < m.fields.len()
                invariant
                    schema.items@ == items@,
                    *item == Item::Message(*m),
                    i <= m.fields@.len(),
                    forall|j: int|
                        0 <= j < i ==> type_keys_end(
                            items@,
                            language,
                            (#[trigger] m.fields@[j]).node.ty.node,
                        ),
                decreases m.fields.len() - i,
            {
                if !type_keys_end_in(items, schema, language, &m.fields[i].node.ty.node) {
                    let ghost f = m.fields@[i as int];
                    assert(!type_keys_end(items@, language, f.node.ty.node));
                    assert(!item_keys_end(items@, language, Item::Message(*m))) by {
                        if item_keys_end(items@, language, Item::Message(*m)) {
                            let it = Item::Message(*m);
                            assert(it matches Item::Message(x) && x.fields@[i as int] == f);
                        }
                    }
                    return false;
                }
                i = i + 1;
            }
            true
        },
        Item::Enum(_) => true,
        Item::Union(u) => {
            let mut i: usize = 0;
            while i < u.variants.len()
                invariant
                    schema.items@ == items@,
                    *item == Item::Union(*u),
                    i <= u.variants@.len(),
                    forall|j: int|
                        0 <= j < i ==> match (#[trigger] u.variants@[j]).node.ty {
                            Some(t) => type_keys_end(items@, language, t.node),
                            None => true,
                        },
                decreases u.variants.len() - i,
            {
                if let Some(t) = &u.variants[i].node.ty {
                    if !type_keys_end_in(items, schema, language, &t.node) {
                        assert(u.variants@[i as int].node.ty == Some(*t));
                        return false;
                    }
                }
                i = i + 1;
            }
            true
        },
        Item::Service(s) => {
            let mut i: usize = 0;
            while i < s.methods.len()
                invariant
                    schema.items@ == items@,
                    *item == Item::Service(*s),
                    i <= s.methods@.len(),
                    forall|j: int|
                        0 <= j < i ==> type_keys_end(
                            items@,
                            language,
                            (#[trigger] s.methods@[j]).node.request.node,
                        ) && type_keys_end(
                            items@,
                            language,
                            response_type(s.methods@[j].node.response.node),
                        ),
                decreases s.methods.len() - i,
            {
                let m = &s.methods[i].node;
                if !type_keys_end_in(items, schema, language, &m.request.node) {
                    assert(s.methods@[i as int].node == *m);
                    return false;
                }
                let ends = match &m.response.node {
                    ServiceResponse::Unary(t) => type_keys_end_in(items, schema, language, t),
                    ServiceResponse::Stream(t) => type_keys_end_in(items, schema, language, t),
                };
                assert(ends == type_keys_end(items@, language, response_type(m.response.node)));
                if !ends {
                    assert(s.methods@[i as int].node == *m);
                    return false;
                }
                i = i + 1;
            }
            true
        },
    }
}

/// Whether checking `schema` for `language` ends.
///
/// It does not end when validating a map key type runs into a type that contains itself on
/// the way (a struct, message or union that, field by field, reaches itself again before any
/// field is found invalid); [`check`] must not be called then.
pub fn check_terminates(schema: &Schema, language: Language) -> (r: bool)
    ensures
        r == check_ends(*schema, language),
{
    let items = &schema.items;
    let mut i: usize = 0;
    while i < items.len()
        invariant
            items@ == schema.items@,
            i <= items@.len(),
            forall|j: int|
                0 <= j < i ==> item_keys_end(items@, language, (#[trigger] items@[j]).node),
        decreases items.len() - i,
    {
        if !item_keys_end_in(items, schema, language, &items[i].node) {
            return false;
        }
        i = i + 1;
    }
    true
}

/// Checks a schema for `language`, returning every error found: the duplicate definitions
/// first, then each item's errors, in the order of the items.
pub fn check(schema: &Schema, language: Language) -> (r: Vec<CompileError>)
    requires
        check_ends(*schema, language),
    ensures
        errors_view(r@) == spec_check(*schema, language),
{
    let items = &schema.items;
    let mut errors: Vec<CompileError> = Vec::new();
    assert(errors_view(errors@) =~= Seq::<ErrorView>::empty());
    check_duplicate_definitions(&mut errors, items);
    let ghost start = errors_view(errors@);
    let mut i: usize = 0;
    while i < items.len()
        invariant
            items@ == schema.items@,
            i <= items@.len(),
            check_ends(*schema, language),
            errors_view(errors@) + items_errors(items@, language, i as int) == start
                + items_errors(items@, language, 0),
        decreases items.len() - i,
    {
        let ghost before = errors_view(errors@);
        assert(item_keys_end(items@, language, items@[i as int].node));
        match &items[i].node {
            Item::Struct(s) => check_struct(&mut errors, items, schema, language, s),
            Item::Message(m) => check_message(&mut errors, items, schema, language, m),
            Item::Enum(e) => check_enum(&mut errors, e),
            Item::Union(u) => check_union(&mut errors, items, schema, language, u),
            Item::Service(s) => check_service(&mut errors, items, schema, language, s),
        }
        let ghost d = item_errors(items@, language, items@[i as int].node);
        let ghost rest = items_errors(items@, language, i + 1);
        assert(errors_view(errors@) == before + d);
        assert(items_errors(items@, language, i as int) == d + rest);
        assert(before + (d + rest) =~= (before + d) + rest);
        i = i + 1;
    }
    assert(errors_view(errors@) + items_errors(items@, language, i as int) =~= errors_view(errors@));
    errors
}

/// The span of the name an item is defined with.
pub fn item_name_span(item: &Spanned<Item>) -> (r: Span)
    ensures
        r == item.node.spec_name_span(),
{
    item.node.name_span()
}

// ============================================================================
// What a schema without errors guarantees
// ============================================================================
/// No two elements of `xs` are equal.
pub open spec fn all_distinct<A>(xs: Seq<A>) -> bool {
    forall|i: int, j: int| 0 <= i < j < xs.len() ==> xs[i] != xs[j]
}

/// The names an item defines within it (fields, variants or methods) are distinct, and so are
/// its indices; the indices of message fields, union variants and service methods are not 0.
pub open spec fn item_well_numbered(item: Item) -> bool {
    match item {
        Item::Struct(s) => all_distinct(
            s.fields@.map_values(|f: Spanned<crate::schema::StructField>| f.node.name.node@),
        ),
        Item::Message(m) => {
            &&& all_distinct(
                m.fields@.map_values(|f: Spanned<crate::schema::MessageField>| f.node.name.node@),
            )
            &&& all_distinct(
                m.fields@.map_values(|f: Spanned<crate::schema::MessageField>| f.node.index.node),
            )
            &&& forall|i: int| 0 <= i < m.fields@.len() ==> (#[trigger] m.fields@[i]).node.index.node != 0
        },
        Item::Enum(e) => {
            &&& all_distinct(
                e.variants@.map_values(|v: Spanned<crate::schema::EnumVariant>| v.node.name.node@),
            )
            &&& all_distinct(
                e.variants@.map_values(|v: Spanned<crate::schema::EnumVariant>| v.node.index.node),
            )
        },
        Item::Union(u) => {
            &&& all_distinct(
                u.variants@.map_values(|v: Spanned<crate::schema::UnionVariant>| v.node.name.node@),
            )
            &&& all_distinct(
                u.variants@.map_values(|v: Spanned<crate::schema::UnionVariant>| v.node.index.node),
            )
            &&& forall|i: int|
                0 <= i < u.variants@.len() ==> (#[trigger] u.variants@[i]).node.index.node != 0
        },
        Item::Service(s) => {
            &&& all_distinct(
                s.methods@.map_values(|m: Spanned<crate::schema::ServiceMethod>| m.node.name.node@),
            )
            &&& all_distinct(
                s.methods@.map_values(|m: Spanned<crate::schema::ServiceMethod>| m.node.index.node),
            )
            &&& forall|i: int| 0 <= i < s.methods@.len() ==> (#[trigger] s.methods@[i]).node.index.node != 0
        },
    }
}

/// When no element has an equal one before it, all are distinct.
proof fn lemma_distinct<A>(xs: Seq<A>)
    requires
        forall|j: int| 0 <= j < xs.len() ==> first_equal_before(xs, j) is None,
    ensures
        all_distinct(xs),
{
    reveal(first_equal_before);
    assert forall|i: int, j: int| 0 <= i < j < xs.len() implies xs[i] != xs[j] by {
        if xs[i] == xs[j] {
            assert(first_equal_before(xs, j) is None);
        }
    }
}

proof fn lemma_name_errors_empty(
    names: Seq<Spanned<String>>,
    views: Seq<Seq<char>>,
    k: int,
    what: Seq<char>,
    container: Seq<char>,
    owner: Seq<char>,
)
    requires
        0 <= k,
        views == names.map_values(|n: Spanned<String>| n.node@),
        name_errors(names, k, what, container, owner).len() == 0,
    ensures
        forall|j: int| k <= j < names.len() ==> (#[trigger] first_equal_before(views, j)) is None,
    decreases names.len() - k,
{
    if k < names.len() {
        lemma_name_errors_empty(names, views, k + 1, what, container, owner);
    }
}

/// The names of a list of named elements, without repeats, when no duplicate name is reported.
proof fn lemma_names_distinct(
    names: Seq<Spanned<String>>,
    what: Seq<char>,
    container: Seq<char>,
    owner: Seq<char>,
)
    requires
        name_errors(names, 0, what, container, owner).len() == 0,
    ensures
        all_distinct(names.map_values(|n: Spanned<String>| n.node@)),
{
    let views = names.map_values(|n: Spanned<String>| n.node@);
    lemma_name_errors_empty(names, views, 0, what, container, owner);
    lemma_distinct(views);
}

/// The indices of a list, distinct, when no duplicate index is reported at any element.
proof fn lemma_indices_distinct(indices: Seq<Spanned<u32>>, container: Seq<char>, owner: Seq<char>)
    requires
        forall|j: int|
            0 <= j < indices.len() ==> (#[trigger] duplicate_index_errors(
                indices,
                j,
                container,
                owner,
            )).len() == 0,
    ensures
        all_distinct(indices.map_values(|n: Spanned<u32>| n.node)),
{
    let views = indices.map_values(|n: Spanned<u32>| n.node);
    assert forall|j: int| 0 <= j < indices.len() implies (#[trigger] first_equal_before(
        views,
        j,
    )) is None by {
        assert(duplicate_index_errors(indices, j, container, owner).len() == 0);
    }
    lemma_distinct(views);
}

proof fn lemma_message_clean(items: Seq<Spanned<Item>>, language: Language, m: Message, indices: Seq<Spanned<u32>>, k: int)
    requires
        0 <= k,
        indices == m.fields@.map_values(|f: Spanned<crate::schema::MessageField>| f.node.index),
        message_index_errors(items, language, m, k).len() == 0,
    ensures
        forall|j: int|
            k <= j < m.fields@.len() ==> (#[trigger] m.fields@[j]).node.index.node != 0
                && duplicate_index_errors(indices, j, "message"@, m.name.node@).len() == 0,
    decreases m.fields@.len() - k,
{
    if k < m.fields@.len() {
        lemma_message_clean(items, language, m, indices, k + 1);
    }
}

proof fn lemma_enum_clean(e: Enum, indices: Seq<Spanned<u32>>, k: int)
    requires
        0 <= k,
        indices == e.variants@.map_values(|v: Spanned<crate::schema::EnumVariant>| v.node.index),
        enum_index_errors(e, k).len() == 0,
    ensures
        forall|j: int|
            k <= j < e.variants@.len() ==> (#[trigger] duplicate_index_errors(
                indices,
                j,
                "enum"@,
                e.name.node@,
            )).len() == 0,
    decreases e.variants@.len() - k,
{
    if k < e.variants@.len() {
        lemma_enum_clean(e, indices, k + 1);
    }
}

proof fn lemma_union_clean(items: Seq<Spanned<Item>>, language: Language, u: Union, indices: Seq<Spanned<u32>>, k: int)
    requires
        0 <= k,
        indices == u.variants@.map_values(|v: Spanned<crate::schema::UnionVariant>| v.node.index),
        union_index_errors(items, language, u, k).len() == 0,
    ensures
        forall|j: int|
            k <= j < u.variants@.len() ==> (#[trigger] u.variants@[j]).node.index.node != 0
                && duplicate_index_errors(indices, j, "union"@, u.name.node@).len() == 0,
    decreases u.variants@.len() - k,
{
    if k < u.variants@.len() {
        lemma_union_clean(items, language, u, indices, k + 1);
    }
}

proof fn lemma_service_clean(items: Seq<Spanned<Item>>, language: Language, s: Service, indices: Seq<Spanned<u32>>, k: int)
    requires
        0 <= k,
        indices == s.methods@.map_values(|m: Spanned<crate::schema::ServiceMethod>| m.node.index),
        service_index_errors(items, language, s, k).len() == 0,
    ensures
        forall|j: int|
            k <= j < s.methods@.len() ==> (#[trigger] s.methods@[j]).node.index.node != 0
                && duplicate_index_errors(indices, j, "service"@, s.name.node@).len() == 0,
    decreases s.methods@.len() - k,
{
    if k < s.methods@.len() {
        lemma_service_clean(items, language, s, indices, k + 1);
    }
}

proof fn lemma_struct_clean(
    items: Seq<Spanned<Item>>,
    language: Language,
    s: Struct,
    views: Seq<Seq<char>>,
    k: int,
)
    requires
        0 <= k,
        views == s.fields@.map_values(|f: Spanned<crate::schema::StructField>| f.node.name).map_values(
            |n: Spanned<String>| n.node@,
        ),
        struct_errors(items, language, s, k).len() == 0,
    ensures
        forall|j: int| k <= j < s.fields@.len() ==> (#[trigger] first_equal_before(views, j)) is None,
    decreases s.fields@.len() - k,
{
    if k < s.fields@.len() {
        lemma_struct_clean(items, language, s, views, k + 1);
    }
}

/// An item without errors is well numbered.
proof fn lemma_item_clean(items: Seq<Spanned<Item>>, language: Language, item: Item)
    requires
        item_errors(items, language, item).len() == 0,
    ensures
        item_well_numbered(item),
{
    match item {
        Item::Struct(s) => {
            let names = s.fields@.map_values(|f: Spanned<crate::schema::StructField>| f.node.name);
            let views = names.map_values(|n: Spanned<String>| n.node@);
            lemma_struct_clean(items, language, s, views, 0);
            lemma_distinct(views);
            assert(names.map_values(|n: Spanned<String>| n.node@) =~= s.fields@.map_values(
                |f: Spanned<crate::schema::StructField>| f.node.name.node@,
            ));
        },
        Item::Message(m) => {
            let names = m.fields@.map_values(|f: Spanned<crate::schema::MessageField>| f.node.name);
            let indices = m.fields@.map_values(|f: Spanned<crate::schema::MessageField>| f.node.index);
            lemma_names_distinct(names, "field"@, "message"@, m.name.node@);
            assert(names.map_values(|n: Spanned<String>| n.node@) =~= m.fields@.map_values(
                |f: Spanned<crate::schema::MessageField>| f.node.name.node@,
            ));
            lemma_message_clean(items, language, m, indices, 0);
            assert forall|j: int| 0 <= j < indices.len() implies (#[trigger] duplicate_index_errors(
                indices,
                j,
                "message"@,
                m.name.node@,
            )).len() == 0 by {
                assert(m.fields@[j].node.index.node != 0);
            }
            lemma_indices_distinct(indices, "message"@, m.name.node@);
            assert(indices.map_values(|n: Spanned<u32>| n.node) =~= m.fields@.map_values(
                |f: Spanned<crate::schema::MessageField>| f.node.index.node,
            ));
        },
        Item::Enum(e) => {
            let names = e.variants@.map_values(|v: Spanned<crate::schema::EnumVariant>| v.node.name);
            let indices = e.variants@.map_values(
                |v: Spanned<crate::schema::EnumVariant>| v.node.index,
            );
            lemma_names_distinct(names, "variant"@, "enum"@, e.name.node@);
            assert(names.map_values(|n: Spanned<String>| n.node@) =~= e.variants@.map_values(
                |v: Spanned<crate::schema::EnumVariant>| v.node.name.node@,
            ));
            lemma_enum_clean(e, indices, 0);
            lemma_indices_distinct(indices, "enum"@, e.name.node@);
            assert(indices.map_values(|n: Spanned<u32>| n.node) =~= e.variants@.map_values(
                |v: Spanned<crate::schema::EnumVariant>| v.node.index.node,
            ));
        },
        Item::Union(u) => {
            let names = u.variants@.map_values(|v: Spanned<crate::schema::UnionVariant>| v.node.name);
            let indices = u.variants@.map_values(
                |v: Spanned<crate::schema::UnionVariant>| v.node.index,
            );
            lemma_names_distinct(names, "variant"@, "union"@, u.name.node@);
            assert(names.map_values(|n: Spanned<String>| n.node@) =~= u.variants@.map_values(
                |v: Spanned<crate::schema::UnionVariant>| v.node.name.node@,
            ));
            lemma_union_clean(items, language, u, indices, 0);
            assert forall|j: int| 0 <= j < indices.len() implies (#[trigger] duplicate_index_errors(
                indices,
                j,
                "union"@,
                u.name.node@,
            )).len() == 0 by {
                assert(u.variants@[j].node.index.node != 0);
            }
            lemma_indices_distinct(indices, "union"@, u.name.node@);
            assert(indices.map_values(|n: Spanned<u32>| n.node) =~= u.variants@.map_values(
                |v: Spanned<crate::schema::UnionVariant>| v.node.index.node,
            ));
        },
        Item::Service(s) => {
            let names = s.methods@.map_values(|m: Spanned<crate::schema::ServiceMethod>| m.node.name);
            let indices = s.methods@.map_values(
                |m: Spanned<crate::schema::ServiceMethod>| m.node.index,
            );
            lemma_names_distinct(names, "method"@, "service"@, s.name.node@);
            assert(names.map_values(|n: Spanned<String>| n.node@) =~= s.methods@.map_values(
                |m: Spanned<crate::schema::ServiceMethod>| m.node.name.node@,
            ));
            lemma_service_clean(items, language, s, indices, 0);
            assert forall|j: int| 0 <= j < indices.len() implies (#[trigger] duplicate_index_errors(
                indices,
                j,
                "service"@,
                s.name.node@,
            )).len() == 0 by {
                assert(s.methods@[j].node.index.node != 0);
            }
            lemma_indices_distinct(indices, "service"@, s.name.node@);
            assert(indices.map_values(|n: Spanned<u32>| n.node) =~= s.methods@.map_values(
                |m: Spanned<crate::schema::ServiceMethod>| m.node.index.node,
            ));
        },
    }
}

proof fn lemma_items_clean(items: Seq<Spanned<Item>>, language: Language, k: int)
    requires
        0 <= k,
        items_errors(items, language, k).len() == 0,
    ensures
        forall|j: int| k <= j < items.len() ==> item_well_numbered(#[trigger] items[j].node),
    decreases items.len() - k,
{
    if k < items.len() {
        lemma_item_clean(items, language, items[k].node);
        lemma_items_clean(items, language, k + 1);
    }
}

proof fn lemma_definitions_clean(items: Seq<Spanned<Item>>, k: int)
    requires
        0 <= k,
        all_duplicate_definition_errors(items, k).len() == 0,
    ensures
        forall|j: int| k <= j < items.len() ==> (#[trigger] duplicate_definition_errors(items, j)).len() == 0,
    decreases items.len() - k,
{
    if k < items.len() {
        lemma_definitions_clean(items, k + 1);
    }
}

/// The first element equal to `xs[i]`, searched for from `f` on when none before `f` is.
proof fn lemma_first_occurrence<A>(xs: Seq<A>, i: int, f: int) -> (first: int)
    requires
        0 <= f <= i < xs.len(),
        forall|k: int| 0 <= k < f ==> xs[k] != xs[i],
    ensures
        0 <= first <= i,
        xs[first] == xs[i],
        first_equal_before(xs, first) is None,
    decreases i - f,
{
    if xs[f] == xs[i] {
        lemma_first_equal_before(xs, f, None);
        f
    } else {
        lemma_first_occurrence(xs, i, f + 1)
    }
}

/// Item names are distinct when no duplicate definition is reported.
proof fn lemma_definitions_distinct(items: Seq<Spanned<Item>>)
    requires
        all_duplicate_definition_errors(items, 0).len() == 0,
    ensures
        all_distinct(items.map_values(|it: Spanned<Item>| it.node.spec_name())),
{
    lemma_definitions_clean(items, 0);
    let names = items.map_values(|it: Spanned<Item>| it.node.spec_name());
    assert forall|i: int, j: int| 0 <= i < j < names.len() implies names[i] != names[j] by {
        if names[i] == names[j] {
            let f = lemma_first_occurrence(names, i, 0);
            assert(items[j].node.spec_name() == items[f].node.spec_name());
            assert(duplicate_definition_errors(items, f).len() == 1);
        }
    }
}

/// A schema that checks without errors defines each name once, and each of its items is well
/// numbered: names within an item are distinct, and so are indices, and no message field,
/// union variant or service method has index 0.
pub proof fn law_checked_schema(schema: Schema, language: Language)
    requires
        spec_check(schema, language).len() == 0,
    ensures
        all_distinct(schema.items@.map_values(|it: Spanned<Item>| it.node.spec_name())),
        forall|k: int|
            0 <= k < schema.items@.len() ==> item_well_numbered(#[trigger] schema.items@[k].node),
{
    let items = schema.items@;
    assert(all_duplicate_definition_errors(items, 0).len() == 0);
    assert(items_errors(items, language, 0).len() == 0);
    lemma_items_clean(items, language, 0);
    lemma_definitions_distinct(items);
}

// ============================================================================
// Map keys that name unions
// ============================================================================
/// A union is allowed as a map key only in Rust: a key type naming a union is refused in
/// TypeScript and in Go, with the reason and a label on the key.
pub proof fn law_union_keys(items: Seq<Spanned<Item>>, name: String, span: Span, fuel: nat)
    requires
        lookup(items, name@) matches Some(Item::Union(_)),
    ensures
        eval_key(items, Language::Typescript, Type::Named(name), span, fuel) == Ok::<
            Option<(Seq<char>, Seq<LabelView>)>,
            (),
        >(
            Some(
                (
                    "unions cannot be used as map keys in TypeScript"@,
                    seq![(span, "union '"@ + name@ + "' used here"@, LabelColor::Red)],
                ),
            ),
        ),
        eval_key(items, Language::Go, Type::Named(name), span, fuel) == Ok::<
            Option<(Seq<char>, Seq<LabelView>)>,
            (),
        >(
            Some(
                (
                    "unions cannot be used as map keys in Go"@,
                    seq![(span, "union '"@ + name@ + "' used here"@, LabelColor::Red)],
                ),
            ),
        ),
{
}

/// The error reported for a map whose key type names a union, in TypeScript.
pub open spec fn union_key_error(key: Spanned<Type>, name: Seq<char>) -> ErrorView {
    error_with(
        "invalid map key type: "@ + "unions cannot be used as map keys in TypeScript"@,
        seq![(key.span, "union '"@ + name + "' used here"@, LabelColor::Red)],
    )
}

proof fn lemma_contains_left<A>(a: Seq<A>, b: Seq<A>, x: A)
    requires
        a.contains(x),
    ensures
        (a + b).contains(x),
{
    let i = choose|i: int| 0 <= i < a.len() && a[i] == x;
    assert((a + b)[i] == x);
}

proof fn lemma_contains_right<A>(a: Seq<A>, b: Seq<A>, x: A)
    requires
        b.contains(x),
    ensures
        (a + b).contains(x),
{
    let i = choose|i: int| 0 <= i < b.len() && b[i] == x;
    assert((a + b)[a.len() + i] == x);
}

/// The errors of a type hold the union key error of every map within it whose key names a
/// union.
proof fn lemma_type_errors_union_key(
    items: Seq<Spanned<Item>>,
    ty: Spanned<Type>,
    d: Spanned<Type>,
    k: Spanned<Type>,
    v: Spanned<Type>,
    name: String,
)
    requires
        part_of(d, ty),
        d.node == Type::Dict(Box::new(k), Box::new(v)),
        k.node == Type::Named(name),
        lookup(items, name@) matches Some(Item::Union(_)),
    ensures
        type_errors(items, Language::Typescript, ty.node, ty.span).contains(union_key_error(k, name@)),
    decreases ty,
{
    let lang = Language::Typescript;
    if d == ty {
        law_union_keys(items, name, k.span, key_fuel(items));
        let e = union_key_error(k, name@);
        assert(key_errors(items, lang, k) == seq![e]);
        assert(seq![e].contains(e)) by {
            assert(seq![e][0] == e);
        }
        lemma_contains_right(type_errors(items, lang, k.node, k.span) + type_errors(items, lang, v.node, v.span), seq![e], e);
    } else {
        match ty.node {
            Type::Array(inner) => {
                lemma_type_errors_union_key(items, *inner, d, k, v, name);
            },
            Type::Dict(a, b) => {
                let ta = type_errors(items, lang, a.node, a.span);
                let tb = type_errors(items, lang, b.node, b.span);
                let e = union_key_error(k, name@);
                if part_of(d, *a) {
                    lemma_type_errors_union_key(items, *a, d, k, v, name);
                    lemma_contains_left(ta, tb, e);
                } else {
                    lemma_type_errors_union_key(items, *b, d, k, v, name);
                    lemma_contains_right(ta, tb, e);
                }
                lemma_contains_left(ta + tb, key_errors(items, lang, *a), e);
            },
            _ => {},
        }
    }
}

proof fn lemma_struct_errors_has(items: Seq<Spanned<Item>>, s: Struct, i: int, j: int, e: ErrorView)
    requires
        0 <= i <= j < s.fields@.len(),
        type_errors(items, Language::Typescript, s.fields@[j].node.ty.node, s.fields@[j].node.ty.span).contains(e),
    ensures
        struct_errors(items, Language::Typescript, s, i).contains(e),
    decreases j - i,
{
    let lang = Language::Typescript;
    let names = s.fields@.map_values(|f: Spanned<crate::schema::StructField>| f.node.name);
    let f = s.fields@[i].node;
    let a = duplicate_name_errors(names, i, "field"@, "struct"@, s.name.node@);
    let t = type_errors(items, lang, f.ty.node, f.ty.span);
    let rest = struct_errors(items, lang, s, i + 1);
    if i == j {
        lemma_contains_right(a, t, e);
        lemma_contains_left(a + t, rest, e);
    } else {
        lemma_struct_errors_has(items, s, i + 1, j, e);
        lemma_contains_right(a + t, rest, e);
    }
}

proof fn lemma_message_errors_has(items: Seq<Spanned<Item>>, m: Message, i: int, j: int, e: ErrorView)
    requires
        0 <= i <= j < m.fields@.len(),
        type_errors(items, Language::Typescript, m.fields@[j].node.ty.node, m.fields@[j].node.ty.span).contains(e),
    ensures
        message_index_errors(items, Language::Typescript, m, i).contains(e),
    decreases j - i,
{
    let lang = Language::Typescript;
    let indices = m.fields@.map_values(|f: Spanned<crate::schema::MessageField>| f.node.index);
    let f = m.fields@[i].node;
    let a = zero_index_errors(f.index, "message"@, m.name.node@) + duplicate_index_errors(
        indices,
        i,
        "message"@,
        m.name.node@,
    );
    let t = type_errors(items, lang, f.ty.node, f.ty.span);
    let rest = message_index_errors(items, lang, m, i + 1);
    if i == j {
        lemma_contains_right(a, t, e);
        lemma_contains_left(a + t, rest, e);
    } else {
        lemma_message_errors_has(items, m, i + 1, j, e);
        lemma_contains_right(a + t, rest, e);
    }
}

proof fn lemma_items_errors_has(items: Seq<Spanned<Item>>, i: int, k: int, e: ErrorView)
    requires
        0 <= i <= k < items.len(),
        item_errors(items, Language::Typescript, items[k].node).contains(e),
    ensures
        items_errors(items, Language::Typescript, i).contains(e),
    decreases k - i,
{
    let lang = Language::Typescript;
    if i == k {
        lemma_contains_left(item_errors(items, lang, items[i].node), items_errors(items, lang, i + 1), e);
    } else {
        lemma_items_errors_has(items, i + 1, k, e);
        lemma_contains_right(item_errors(items, lang, items[i].node), items_errors(items, lang, i + 1), e);
    }
}

/// In TypeScript, checking a schema reports every map, within the type of a struct or message
/// field at any depth, whose key type names a union.
pub proof fn law_union_key_reported(
    schema: Schema,
    i: int,
    j: int,
    d: Spanned<Type>,
    k: Spanned<Type>,
    v: Spanned<Type>,
    name: String,
)
    requires
        0 <= i < schema.items@.len(),
        match schema.items@[i].node {
            Item::Struct(s) => 0 <= j < s.fields@.len() && part_of(d, s.fields@[j].node.ty),
            Item::Message(m) => 0 <= j < m.fields@.len() && part_of(d, m.fields@[j].node.ty),
            _ => false,
        },
        d.node == Type::Dict(Box::new(k), Box::new(v)),
        k.node == Type::Named(name),
        lookup(schema.items@, name@) matches Some(Item::Union(_)),
    ensures
        spec_check(schema, Language::Typescript).contains(union_key_error(k, name@)),
{
    let items = schema.items@;
    let lang = Language::Typescript;
    let e = union_key_error(k, name@);
    match items[i].node {
        Item::Struct(s) => {
            lemma_type_errors_union_key(items, s.fields@[j].node.ty, d, k, v, name);
            lemma_struct_errors_has(items, s, 0, j, e);
        },
        Item::Message(m) => {
            lemma_type_errors_union_key(items, m.fields@[j].node.ty, d, k, v, name);
            lemma_message_errors_has(items, m, 0, j, e);
            let names = m.fields@.map_values(|f: Spanned<crate::schema::MessageField>| f.node.name);
            lemma_contains_right(name_errors(names, 0, "field"@, "message"@, m.name.node@), message_index_errors(items, lang, m, 0), e);
        },
        _ => {},
    }
    lemma_items_errors_has(items, 0, i, e);
    lemma_contains_right(all_duplicate_definition_errors(items, 0), items_errors(items, lang, 0), e);
}

} // verus!
