//! The schema model: items (structs, messages, enums, unions, services), types, and the
//! encoding properties that follow from them.
use vstd::prelude::*;

use crate::error::DecodeError;
use crate::message::spec_skip;
use crate::text::str_eq;

verus! {

/// A byte range `start..end` in the source text.
#[derive(Debug, Clone, Copy, PartialEq, Eq, Structural)]
pub struct Span {
    pub start: usize,
    pub end: usize,
}

impl Span {
    /// The range `start..end`.
    pub fn new(start: usize, end: usize) -> (r: Span)
        ensures
            r.start == start,
            r.end == end,
    {
        Span { start, end }
    }
}

/// A syntax node together with the source range it was parsed from.
#[derive(Debug, Clone)]
pub struct Spanned<T> {
    pub node: T,
    pub span: Span,
}

impl<T> Spanned<T> {
    pub fn new(node: T, span: Span) -> (r: Self)
        ensures
            r.node == node,
            r.span == span,
    {
        Self { node, span }
    }
}

/// How a value is laid out on the wire, as seen by a decoder that does not know its type.
#[derive(Debug, Clone, Copy, PartialEq, Eq, Structural)]
pub enum WireType {
    Fixed8,
    Varint,
    Fixed32,
    Fixed64,
    Bytes,
    Message,
    Union,
    Unit,
}

impl WireType {
    /// The numeric wire type id used in field tags.
    pub open spec fn spec_id(self) -> u8 {
        match self {
            WireType::Fixed8 => 0,
            WireType::Varint => 1,
            WireType::Fixed32 => 2,
            WireType::Fixed64 => 3,
            WireType::Bytes => 4,
            WireType::Message => 5,
            WireType::Union => 6,
            WireType::Unit => 7,
        }
    }

    /// The numeric wire type id used in field tags.
    pub fn id(&self) -> (r: u8)
        ensures
            r == self.spec_id(),
    {
        match self {
            WireType::Fixed8 => 0,
            WireType::Varint => 1,
            WireType::Fixed32 => 2,
            WireType::Fixed64 => 3,
            WireType::Bytes => 4,
            WireType::Message => 5,
            WireType::Union => 6,
            WireType::Unit => 7,
        }
    }
}

#[derive(Debug, Clone)]
pub struct Schema {
    pub items: Vec<Spanned<Item>>,
}

#[derive(Debug, Clone)]
pub enum Item {
    Struct(Struct),
    Message(Message),
    Enum(Enum),
    Union(Union),
    Service(Service),
}

#[derive(Debug)]
pub enum Type {
    Bool,
    U8,
    U16,
    U32,
    U64,
    I8,
    I16,
    I32,
    I64,
    F32,
    F64,
    String,
    Array(Box<Spanned<Type>>),
    Dict(Box<Spanned<Type>>, Box<Spanned<Type>>),
    Named(String),
}

/// A copy of a type, equal to it.
pub fn clone_type(t: &Type) -> (r: Type)
    ensures
        r == *t,
    decreases t,
{
    match t {
        Type::Bool => Type::Bool,
        Type::U8 => Type::U8,
        Type::U16 => Type::U16,
        Type::U32 => Type::U32,
        Type::U64 => Type::U64,
        Type::I8 => Type::I8,
        Type::I16 => Type::I16,
        Type::I32 => Type::I32,
        Type::I64 => Type::I64,
        Type::F32 => Type::F32,
        Type::F64 => Type::F64,
        Type::String => Type::String,
        Type::Array(inner) => Type::Array(
            Box::new(Spanned { node: clone_type(&inner.node), span: inner.span }),
        ),
        Type::Dict(k, v) => Type::Dict(
            Box::new(Spanned { node: clone_type(&k.node), span: k.span }),
            Box::new(Spanned { node: clone_type(&v.node), span: v.span }),
        ),
        Type::Named(n) => Type::Named(n.clone()),
    }
}

impl Clone for Type {
    fn clone(&self) -> (r: Self)
        ensures
            r == *self,
    {
        clone_type(self)
    }
}

#[derive(Debug, Clone)]
pub struct StructField {
    pub name: Spanned<String>,
    pub ty: Spanned<Type>,
    pub optional: bool,
}

#[derive(Debug, Clone)]
pub struct Struct {
    pub name: Spanned<String>,
    pub fields: Vec<Spanned<StructField>>,
}

#[derive(Debug, Clone)]
pub struct MessageField {
    pub name: Spanned<String>,
    pub ty: Spanned<Type>,
    pub index: Spanned<u32>,
    pub optional: bool,
}

#[derive(Debug, Clone)]
pub struct Message {
    pub name: Spanned<String>,
    pub fields: Vec<Spanned<MessageField>>,
}

#[derive(Debug, Clone)]
pub struct EnumVariant {
    pub name: Spanned<String>,
    pub index: Spanned<u32>,
}

#[derive(Debug, Clone)]
pub struct Enum {
    pub name: Spanned<String>,
    pub variants: Vec<Spanned<EnumVariant>>,
}

#[derive(Debug, Clone)]
pub struct UnionVariant {
    pub name: Spanned<String>,
    pub ty: Option<Spanned<Type>>,
    pub index: Spanned<u32>,
}

#[derive(Debug, Clone)]
pub struct Union {
    pub name: Spanned<String>,
    pub variants: Vec<Spanned<UnionVariant>>,
}

/// What a service method answers: a single value, or a stream of them.
#[derive(Debug, Clone)]
pub enum ServiceResponse {
    Unary(Type),
    Stream(Type),
}

#[derive(Debug, Clone)]
pub struct ServiceMethod {
    pub name: Spanned<String>,
    pub request: Spanned<Type>,
    pub response: Spanned<ServiceResponse>,
    pub index: Spanned<u32>,
}

#[derive(Debug, Clone)]
pub struct Service {
    pub name: Spanned<String>,
    pub methods: Vec<Spanned<ServiceMethod>>,
}

impl Item {
    /// The name an item is defined with.
    pub open spec fn spec_name(&self) -> Seq<char> {
        match self {
            Item::Struct(s) => s.name.node@,
            Item::Message(m) => m.name.node@,
            Item::Enum(e) => e.name.node@,
            Item::Union(u) => u.name.node@,
            Item::Service(s) => s.name.node@,
        }
    }

    /// The source range of the item's name.
    pub open spec fn spec_name_span(&self) -> Span {
        match self {
            Item::Struct(s) => s.name.span,
            Item::Message(m) => m.name.span,
            Item::Enum(e) => e.name.span,
            Item::Union(u) => u.name.span,
            Item::Service(s) => s.name.span,
        }
    }

    /// Get the name of an item.
    pub fn name(&self) -> (r: &str)
        ensures
            r@ == self.spec_name(),
    {
        match self {
            Item::Struct(s) => s.name.node.as_str(),
            Item::Message(m) => m.name.node.as_str(),
            Item::Enum(e) => e.name.node.as_str(),
            Item::Union(u) => u.name.node.as_str(),
            Item::Service(s) => s.name.node.as_str(),
        }
    }

    /// The source range of the item's name.
    pub fn name_span(&self) -> (r: Span)
        ensures
            r == self.spec_name_span(),
    {
        match self {
            Item::Struct(s) => s.name.span,
            Item::Message(m) => m.name.span,
            Item::Enum(e) => e.name.span,
            Item::Union(u) => u.name.span,
            Item::Service(s) => s.name.span,
        }
    }
}

/// The index of the first of `items`, from `i` on, named `name`.
pub open spec fn find_item_from(items: Seq<Spanned<Item>>, name: Seq<char>, i: int) -> Option<int>
    decreases items.len() - i,
{
    if i < 0 || i >= items.len() {
        None
    } else if items[i].node.spec_name() == name {
        Some(i)
    } else {
        find_item_from(items, name, i + 1)
    }
}

/// The index of the first item named `name`.
pub open spec fn find_item(items: Seq<Spanned<Item>>, name: Seq<char>) -> Option<int> {
    find_item_from(items, name, 0)
}

proof fn lemma_find_item_from(items: Seq<Spanned<Item>>, name: Seq<char>, i: int)
    requires
        0 <= i,
    ensures
        find_item_from(items, name, i) matches Some(k) ==> i <= k < items.len()
            && items[k].node.spec_name() == name && forall|j: int|
            i <= j < k ==> items[j].node.spec_name() != name,
        find_item_from(items, name, i) is None ==> forall|j: int|
            i <= j < items.len() ==> items[j].node.spec_name() != name,
    decreases items.len() - i,
{
    if i < items.len() && items[i].node.spec_name() != name {
        lemma_find_item_from(items, name, i + 1);
    }
}

/// The first item named `name` is the one at index `k`, or there is none.
pub proof fn lemma_find_item(items: Seq<Spanned<Item>>, name: Seq<char>)
    ensures
        find_item(items, name) matches Some(k) ==> 0 <= k < items.len()
            && items[k].node.spec_name() == name && forall|j: int|
            0 <= j < k ==> items[j].node.spec_name() != name,
        find_item(items, name) is None ==> forall|j: int|
            0 <= j < items.len() ==> items[j].node.spec_name() != name,
{
    lemma_find_item_from(items, name, 0);
}

/// The item that a named type refers to.
pub open spec fn lookup(items: Seq<Spanned<Item>>, name: Seq<char>) -> Option<Item> {
    match find_item(items, name) {
        Some(k) => Some(items[k].node),
        None => None,
    }
}

/// The encoded size of a type when it is fixed (`Ok(Some(n))`), `Ok(None)` when it is not,
/// and `Err(())` when working it out would not end: a chain of struct references longer than
/// `fuel` (a cycle), a reference to an undefined type, or a size beyond `usize::MAX`.
pub open spec fn eval_fixed_size(items: Seq<Spanned<Item>>, ty: Type, fuel: nat) -> Result<
    Option<nat>,
    (),
>
    decreases fuel, 0nat, 0nat,
{
    match ty {
        Type::Bool | Type::U8 | Type::I8 => Ok(Some(1)),
        Type::F32 => Ok(Some(4)),
        Type::F64 => Ok(Some(8)),
        Type::Named(name) => match lookup(items, name@) {
            None => Err(()),
            Some(Item::Struct(s)) => if fuel == 0 {
                Err(())
            } else {
                eval_struct_fixed_size(items, s, (fuel - 1) as nat)
            },
            Some(_) => Ok(None),
        },
        _ => Ok(None),
    }
}

/// Whether any field of the struct is optional.
pub open spec fn has_optional_field(s: Struct) -> bool {
    exists|i: int| 0 <= i < s.fields@.len() && (#[trigger] s.fields@[i]).node.optional
}

/// The fixed size of a struct: the sum of its fields' sizes when none is optional and all
/// are fixed.
pub open spec fn eval_struct_fixed_size(items: Seq<Spanned<Item>>, s: Struct, fuel: nat) -> Result<
    Option<nat>,
    (),
>
    decreases fuel, 2nat, 0nat,
{
    if has_optional_field(s) {
        Ok(None)
    } else {
        eval_fields_fixed_size(items, s.fields@, 0, 0, fuel)
    }
}

/// Adds up the fixed sizes of `fields[i..]` onto `total`.
pub open spec fn eval_fields_fixed_size(
    items: Seq<Spanned<Item>>,
    fields: Seq<Spanned<StructField>>,
    i: nat,
    total: nat,
    fuel: nat,
) -> Result<Option<nat>, ()>
    decreases fuel, 1nat, fields.len() - i,
{
    if i >= fields.len() {
        Ok(Some(total))
    } else {
        match eval_fixed_size(items, fields[i as int].node.ty.node, fuel) {
            Err(()) => Err(()),
            Ok(None) => Ok(None),
            Ok(Some(size)) => if total + size > usize::MAX {
                Err(())
            } else {
                eval_fields_fixed_size(items, fields, i + 1, total + size, fuel)
            },
        }
    }
}

/// The fuel that suffices for any chain of struct references without a cycle.
pub open spec fn struct_fuel(s: &Schema) -> nat {
    s.items@.len() + 1
}

/// Every named type in `ty`, at its top level, refers to a defined item other than a service.
pub open spec fn names_resolve(items: Seq<Spanned<Item>>, ty: Type) -> bool {
    match ty {
        Type::Named(name) => match lookup(items, name@) {
            Some(Item::Service(_)) => false,
            Some(_) => true,
            None => false,
        },
        _ => true,
    }
}

/// The wire type a type is encoded with.
pub open spec fn spec_wire_type(items: Seq<Spanned<Item>>, ty: Type) -> WireType {
    match ty {
        Type::Bool | Type::U8 | Type::I8 => WireType::Fixed8,
        Type::U16 | Type::U32 | Type::U64 | Type::I16 | Type::I32 | Type::I64 => WireType::Varint,
        Type::F32 => WireType::Fixed32,
        Type::F64 => WireType::Fixed64,
        Type::String | Type::Array(_) | Type::Dict(_, _) => WireType::Bytes,
        Type::Named(name) => match lookup(items, name@) {
            Some(Item::Message(_)) => WireType::Message,
            Some(Item::Enum(_)) => WireType::Varint,
            Some(Item::Union(_)) => WireType::Union,
            _ => WireType::Bytes,
        },
    }
}

impl Schema {
    /// Get an item by name.
    pub fn item(&self, name: &str) -> (r: Option<&Spanned<Item>>)
        ensures
            match find_item(self.items@, name@) {
                Some(k) => r == Some(&self.items@[k]),
                None => r is None,
            },
    {
        let mut i: usize = 0;
        while i < self.items.len()
            invariant
                i <= self.items@.len(),
                find_item(self.items@, name@) == find_item_from(self.items@, name@, i as int),
            decreases self.items.len() - i,
        {
            if str_eq(self.items[i].node.name(), name) {
                return Some(&self.items[i]);
            }
            i = i + 1;
        }
        None
    }

    /// Returns the fixed encoded size of a type, or None if variable-length.
    pub fn fixed_size(&self, ty: &Type) -> (r: Option<usize>)
        requires
            eval_fixed_size(self.items@, *ty, struct_fuel(self)) is Ok,
        ensures
            eval_fixed_size(self.items@, *ty, struct_fuel(self)) == Ok::<Option<nat>, ()>(
                match r {
                    Some(n) => Some(n as nat),
                    None => None,
                },
            ),
    {
        self.fixed_size_with(ty, Ghost(struct_fuel(self)))
    }

    fn fixed_size_with(&self, ty: &Type, Ghost(fuel): Ghost<nat>) -> (r: Option<usize>)
        requires
            eval_fixed_size(self.items@, *ty, fuel) is Ok,
        ensures
            eval_fixed_size(self.items@, *ty, fuel) == Ok::<Option<nat>, ()>(
                match r {
                    Some(n) => Some(n as nat),
                    None => None,
                },
            ),
        decreases fuel, 0nat,
    {
        match ty {
            Type::Bool | Type::U8 | Type::I8 => Some(1),
            Type::F32 => Some(4),
            Type::F64 => Some(8),
            Type::U16 | Type::U32 | Type::U64 | Type::I16 | Type::I32 | Type::I64 => None,
            Type::String | Type::Array(_) | Type::Dict(_, _) => None,
            Type::Named(name) => {
                let item = self.item(name.as_str());
                match item {
                    Some(it) => match &it.node {
                        Item::Struct(s) => self.struct_fixed_size_with(s, Ghost((fuel - 1) as nat)),
                        Item::Message(_) => None,
                        Item::Enum(_) => None,
                        Item::Union(_) => None,
                        Item::Service(_) => None,
                    },
                    None => None,
                }
            },
        }
    }

    /// Returns the fixed encoded size of a struct, or None if it has variable-length fields or optionals.
    pub fn struct_fixed_size(&self, s: &Struct) -> (r: Option<usize>)
        requires
            eval_struct_fixed_size(self.items@, *s, struct_fuel(self)) is Ok,
        ensures
            eval_struct_fixed_size(self.items@, *s, struct_fuel(self)) == Ok::<Option<nat>, ()>(
                match r {
                    Some(n) => Some(n as nat),
                    None => None,
                },
            ),
    {
        self.struct_fixed_size_with(s, Ghost(struct_fuel(self)))
    }

    fn struct_fixed_size_with(&self, s: &Struct, Ghost(fuel): Ghost<nat>) -> (r: Option<usize>)
        requires
            eval_struct_fixed_size(self.items@, *s, fuel) is Ok,
        ensures
            eval_struct_fixed_size(self.items@, *s, fuel) == Ok::<Option<nat>, ()>(
                match r {
                    Some(n) => Some(n as nat),
                    None => None,
                },
            ),
        decreases fuel, 2nat,
    {
        // Structs with optional fields have presence bits, making them variable-length
        let mut i: usize = 0;
        while i < s.fields.len()
            invariant
                i <= s.fields@.len(),
                forall|j: int| 0 <= j < i ==> !(#[trigger] s.fields@[j]).node.optional,
            decreases s.fields.len() - i,
        {
            if s.fields[i].node.optional {
                return None;
            }
            i = i + 1;
        }
        assert(!has_optional_field(*s));
        let mut total: usize = 0;
        let mut i: usize = 0;
        while i < s.fields.len()
            invariant
                i <= s.fields@.len(),
                !has_optional_field(*s),
                eval_struct_fixed_size(self.items@, *s, fuel) is Ok,
                eval_struct_fixed_size(self.items@, *s, fuel) == eval_fields_fixed_size(
                    self.items@,
                    s.fields@,
                    i as nat,
                    total as nat,
                    fuel,
                ),
            decreases s.fields.len() - i,
        {
            match self.fixed_size_with(&s.fields[i].node.ty.node, Ghost(fuel)) {
                Some(size) => {
                    total = total + size;
                },
                None => return None,
            }
            i = i + 1;
        }
        Some(total)
    }

    /// The fixed encoded size of a type, like [`Schema::fixed_size`], or `None` when it cannot
    /// be worked out: the type refers to an undefined type, its structs contain themselves, or
    /// the size exceeds `usize::MAX`.
    pub fn try_fixed_size(&self, ty: &Type) -> (r: Option<Option<usize>>)
        ensures
            match r {
                None => eval_fixed_size(self.items@, *ty, struct_fuel(self)) is Err,
                Some(x) => eval_fixed_size(self.items@, *ty, struct_fuel(self)) == Ok::<
                    Option<nat>,
                    (),
                >(
                    match x {
                        Some(n) => Some(n as nat),
                        None => None,
                    },
                ),
            },
    {
        let fuel: u128 = self.items.len() as u128 + 1;
        self.try_fixed_size_with(ty, fuel)
    }

    fn try_fixed_size_with(&self, ty: &Type, fuel: u128) -> (r: Option<Option<usize>>)
        ensures
            match r {
                None => eval_fixed_size(self.items@, *ty, fuel as nat) is Err,
                Some(x) => eval_fixed_size(self.items@, *ty, fuel as nat) == Ok::<Option<nat>, ()>(
                    match x {
                        Some(n) => Some(n as nat),
                        None => None,
                    },
                ),
            },
        decreases fuel, 0nat,
    {
        match ty {
            Type::Bool | Type::U8 | Type::I8 => Some(Some(1)),
            Type::F32 => Some(Some(4)),
            Type::F64 => Some(Some(8)),
            Type::U16 | Type::U32 | Type::U64 | Type::I16 | Type::I32 | Type::I64 => Some(None),
            Type::String | Type::Array(_) | Type::Dict(_, _) => Some(None),
            Type::Named(name) => match self.item(name.as_str()) {
                Some(it) => match &it.node {
                    Item::Struct(s) => if fuel == 0 {
                        None
                    } else {
                        self.try_struct_fixed_size_with(s, fuel - 1)
                    },
                    _ => Some(None),
                },
                None => None,
            },
        }
    }

    fn try_struct_fixed_size_with(&self, s: &Struct, fuel: u128) -> (r: Option<Option<usize>>)
        ensures
            match r {
                None => eval_struct_fixed_size(self.items@, *s, fuel as nat) is Err,
                Some(x) => eval_struct_fixed_size(self.items@, *s, fuel as nat) == Ok::<
                    Option<nat>,
                    (),
                >(
                    match x {
                        Some(n) => Some(n as nat),
                        None => None,
                    },
                ),
            },
        decreases fuel, 2nat,
    {
        let mut i: usize = 0;
        while i < s.fields.len()
            invariant
                i <= s.fields@.len(),
                forall|j: int| 0 <= j < i ==> !(#[trigger] s.fields@[j]).node.optional,
            decreases s.fields.len() - i,
        {
            if s.fields[i].node.optional {
                return Some(None);
            }
            i = i + 1;
        }
        assert(!has_optional_field(*s));
        let mut total: usize = 0;
        let mut i: usize = 0;
        while i < s.fields.len()
            invariant
                i <= s.fields@.len(),
                !has_optional_field(*s),
                eval_struct_fixed_size(self.items@, *s, fuel as nat) == eval_fields_fixed_size(
                    self.items@,
                    s.fields@,
                    i as nat,
                    total as nat,
                    fuel as nat,
                ),
            decreases s.fields.len() - i,
        {
            match self.try_fixed_size_with(&s.fields[i].node.ty.node, fuel) {
                Some(Some(size)) => {
                    if total > usize::MAX - size {
                        return None;
                    }
                    total = total + size;
                },
                Some(None) => return Some(None),
                None => return None,
            }
            i = i + 1;
        }
        Some(Some(total))
    }

    /// The wire type used to encode a type, like [`Schema::wire_type`], or `None` when the
    /// type names an undefined type or a service.
    pub fn try_wire_type(&self, ty: &Type) -> (r: Option<WireType>)
        ensures
            r == (if names_resolve(self.items@, *ty) {
                Some(spec_wire_type(self.items@, *ty))
            } else {
                None
            }),
    {
        if let Type::Named(name) = ty {
            match self.item(name.as_str()) {
                Some(it) => {
                    if let Item::Service(_) = &it.node {
                        return None;
                    }
                },
                None => return None,
            }
        }
        Some(self.wire_type(ty))
    }

    /// Returns the wire type used to encode a type.
    pub fn wire_type(&self, ty: &Type) -> (r: WireType)
        requires
            names_resolve(self.items@, *ty),
        ensures
            r == spec_wire_type(self.items@, *ty),
    {
        match ty {
            Type::Bool | Type::U8 | Type::I8 => WireType::Fixed8,
            Type::U16 | Type::U32 | Type::U64 | Type::I16 | Type::I32 | Type::I64 => WireType::Varint,
            Type::F32 => WireType::Fixed32,
            Type::F64 => WireType::Fixed64,
            Type::String | Type::Array(_) | Type::Dict(_, _) => WireType::Bytes,
            Type::Named(name) => match self.item(name.as_str()) {
                Some(it) => match &it.node {
                    Item::Struct(_) => WireType::Bytes,
                    Item::Message(_) => WireType::Message,
                    Item::Enum(_) => WireType::Varint,
                    Item::Union(_) => WireType::Union,
                    Item::Service(_) => WireType::Bytes,
                },
                None => WireType::Bytes,
            },
        }
    }
}

// ============================================================================
// Parts of types
// ============================================================================
/// `part` is `ty` itself or a type within it, at any depth: an array's element type, or a
/// map's key or value type.
pub open spec fn part_of(part: Spanned<Type>, ty: Spanned<Type>) -> bool
    decreases ty,
{
    part == ty || match ty.node {
        Type::Array(inner) => part_of(part, *inner),
        Type::Dict(k, v) => part_of(part, *k) || part_of(part, *v),
        _ => false,
    }
}

/// The keyword that names a primitive type in a schema, `None` for the other types.
pub open spec fn type_keyword(ty: Type) -> Option<Seq<char>> {
    match ty {
        Type::Bool => Some("bool"@),
        Type::U8 => Some("u8"@),
        Type::U16 => Some("u16"@),
        Type::U32 => Some("u32"@),
        Type::U64 => Some("u64"@),
        Type::I8 => Some("i8"@),
        Type::I16 => Some("i16"@),
        Type::I32 => Some("i32"@),
        Type::I64 => Some("i64"@),
        Type::F32 => Some("f32"@),
        Type::F64 => Some("f64"@),
        Type::String => Some("string"@),
        _ => None,
    }
}

// ============================================================================
// Wire types agree with sizes and with the runtime
// ============================================================================
/// A decoder that skips a value of a primitive type by the wire type the schema gives it
/// skips exactly the type's fixed size when it has one; and a primitive type without a fixed
/// size has a wire type without one (VARINT or BYTES).
pub proof fn law_wire_type_skips_fixed_size(items: Seq<Spanned<Item>>, ty: Type, fuel: nat, s: Seq<u8>)
    requires
        type_keyword(ty) is Some,
    ensures
        eval_fixed_size(items, ty, fuel) matches Ok(Some(n)) ==> (s.len() >= n ==> spec_skip(
            spec_wire_type(items, ty).spec_id(),
            s,
        ) == Ok::<nat, DecodeError>(n)),
        eval_fixed_size(items, ty, fuel) == Ok::<Option<nat>, ()>(None) ==> (spec_wire_type(items, ty)
            == WireType::Varint || spec_wire_type(items, ty) == WireType::Bytes),
{
}

/// The wire type the schema gives each type with a runtime encoding is the one the runtime
/// writes it with: field tags written by generated code and by the runtime agree.
pub proof fn law_wire_types_match_runtime(items: Seq<Spanned<Item>>, k: Spanned<Type>, v: Spanned<Type>, e: Spanned<Type>)
    ensures
        spec_wire_type(items, Type::Bool).spec_id() == <bool as crate::codec::WireType>::WIRE_TYPE,
        spec_wire_type(items, Type::U8).spec_id() == <u8 as crate::codec::WireType>::WIRE_TYPE,
        spec_wire_type(items, Type::I8).spec_id() == <i8 as crate::codec::WireType>::WIRE_TYPE,
        spec_wire_type(items, Type::U16).spec_id() == <u16 as crate::codec::WireType>::WIRE_TYPE,
        spec_wire_type(items, Type::U32).spec_id() == <u32 as crate::codec::WireType>::WIRE_TYPE,
        spec_wire_type(items, Type::U64).spec_id() == <u64 as crate::codec::WireType>::WIRE_TYPE,
        spec_wire_type(items, Type::I16).spec_id() == <i16 as crate::codec::WireType>::WIRE_TYPE,
        spec_wire_type(items, Type::I32).spec_id() == <i32 as crate::codec::WireType>::WIRE_TYPE,
        spec_wire_type(items, Type::I64).spec_id() == <i64 as crate::codec::WireType>::WIRE_TYPE,
        spec_wire_type(items, Type::String).spec_id() == <String as crate::codec::WireType>::WIRE_TYPE,
        spec_wire_type(items, Type::Array(Box::new(e))).spec_id() == <Vec<u8> as crate::codec::WireType>::WIRE_TYPE,
        spec_wire_type(items, Type::Dict(Box::new(k), Box::new(v))).spec_id() == <crate::map::MapEntries<
            u8,
            u8,
        > as crate::codec::WireType>::WIRE_TYPE,
        eval_fixed_size(items, Type::Bool, 0) == Ok::<Option<nat>, ()>(Some(1)),
        eval_fixed_size(items, Type::U8, 0) == Ok::<Option<nat>, ()>(Some(1)),
        eval_fixed_size(items, Type::I8, 0) == Ok::<Option<nat>, ()>(Some(1)),
        <bool as crate::codec::WireType>::spec_fixed_size() == Some(1usize),
        <u8 as crate::codec::WireType>::spec_fixed_size() == Some(1usize),
        <i8 as crate::codec::WireType>::spec_fixed_size() == Some(1usize),
{
    crate::codec::lemma_wire_types::<u8>();
    crate::map::lemma_map_wire_types::<u8, u8>();
}

} // verus!
