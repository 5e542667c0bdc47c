use volex::checker::{check, check_terminates, item_name_span};
use volex::diagnostics::{CompileError, LabelColor, Language};
use volex::lexer::{tokenize, LexErrorKind, TokenKind};
use volex::parser::parse;
use volex::schema::{Item, Schema, ServiceResponse, Span, Type, WireType};
use volex::{compile, compile_with_recovery};

fn at(src: &str, needle: &str, nth: usize) -> Span {
    let mut from = 0;
    let mut found = 0;
    for _ in 0..=nth {
        found = from + src[from..].find(needle).unwrap();
        from = found + 1;
    }
    Span::new(found, found + needle.len())
}

fn errors(src: &str, language: Language) -> Vec<CompileError> {
    match compile(src, language) {
        Ok(_) => panic!("expected errors"),
        Err(e) => e,
    }
}

fn messages(errs: &[CompileError]) -> Vec<String> {
    errs.iter().map(|e| e.message.clone()).collect()
}

#[test]
fn tokens_of_a_struct() {
    let toks = tokenize("struct P { x?: u8; }").unwrap();
    let kinds: Vec<TokenKind> = toks.iter().map(|t| t.kind).collect();
    assert_eq!(
        kinds,
        vec![
            TokenKind::Struct,
            TokenKind::Ident,
            TokenKind::LBrace,
            TokenKind::Ident,
            TokenKind::Question,
            TokenKind::Colon,
            TokenKind::U8,
            TokenKind::Semicolon,
            TokenKind::RBrace
        ]
    );
    assert_eq!(toks[1].span, Span::new(7, 8));
}

#[test]
fn integer_tokens() {
    let toks = tokenize("= 42 -> 0").unwrap();
    assert_eq!(toks[1].kind, TokenKind::Int);
    assert_eq!(toks[1].value, 42);
    assert_eq!(toks[2].kind, TokenKind::Arrow);
    assert_eq!(toks[3].value, 0);
    assert_eq!(tokenize("4294967295").unwrap()[0].value, u32::MAX);
}

#[test]
fn lexical_errors() {
    assert_eq!(tokenize("4294967296").unwrap_err().kind, LexErrorKind::TooLarge);
    let e = tokenize("01").unwrap_err();
    assert_eq!(e.kind, LexErrorKind::Unexpected);
    assert_eq!(e.span, Span::new(1, 2));
    assert_eq!(tokenize("12ab").unwrap_err().span, Span::new(2, 3));
    assert_eq!(tokenize("a - b").unwrap_err().span, Span::new(2, 3));
    let e = tokenize("x /* open").unwrap_err();
    assert_eq!(e.kind, LexErrorKind::UnterminatedComment);
    assert_eq!(e.span, Span::new(2, 9));
}

#[test]
fn comments_are_skipped_and_nest() {
    let toks = tokenize("// line\nstruct /* a /* b */ c */ S {}").unwrap();
    assert_eq!(toks.len(), 4);
    assert_eq!(toks[0].kind, TokenKind::Struct);
    assert_eq!(toks[1].kind, TokenKind::Ident);
}

#[test]
fn parse_a_struct_with_spans() {
    let src = "struct Point { x: f32; y?: f32 }";
    let schema = parse(src).unwrap();
    assert_eq!(schema.items.len(), 1);
    let item = &schema.items[0];
    assert_eq!(item.span, Span::new(0, src.len()));
    match &item.node {
        Item::Struct(s) => {
            assert_eq!(s.name.node, "Point");
            assert_eq!(s.name.span, at(src, "Point", 0));
            assert_eq!(s.fields.len(), 2);
            assert_eq!(s.fields[0].node.name.node, "x");
            assert!(!s.fields[0].node.optional);
            assert!(matches!(s.fields[0].node.ty.node, Type::F32));
            assert_eq!(s.fields[0].span, Span::new(at(src, "x", 0).start, at(src, ";", 0).end));
            assert_eq!(s.fields[0].node.ty.span, at(src, "f32", 0));
            assert!(s.fields[1].node.optional);
            assert_eq!(s.fields[1].span, Span::new(at(src, "y", 0).start, at(src, "f32", 1).end));
        }
        _ => panic!("expected a struct"),
    }
}

#[test]
fn semicolons_are_optional() {
    let with = parse("message M { a: u8 = 1; b: string = 2; }").unwrap();
    let without = parse("message M {\n  a: u8 = 1\n  b: string = 2\n}").unwrap();
    for schema in [with, without] {
        match &schema.items[0].node {
            Item::Message(m) => {
                assert_eq!(m.fields.len(), 2);
                assert_eq!(m.fields[1].node.index.node, 2);
                assert!(matches!(m.fields[1].node.ty.node, Type::String));
            }
            _ => panic!("expected a message"),
        }
    }
}

#[test]
fn parse_nested_types() {
    let src = "struct S { m: {string: [[u32]]} }";
    let schema = parse(src).unwrap();
    match &schema.items[0].node {
        Item::Struct(s) => match &s.fields[0].node.ty.node {
            Type::Dict(k, v) => {
                assert!(matches!(k.node, Type::String));
                assert_eq!(k.span, at(src, "string", 0));
                match &v.node {
                    Type::Array(inner) => {
                        assert!(matches!(inner.node, Type::Array(_)));
                        assert_eq!(inner.span, at(src, "[u32]", 0));
                    }
                    _ => panic!("expected an array"),
                }
                assert_eq!(v.span, at(src, "[[u32]]", 0));
            }
            _ => panic!("expected a map"),
        },
        _ => panic!("expected a struct"),
    }
}

#[test]
fn parse_unions_enums_and_services() {
    let src = "enum E { A = 0 B = 5 }\nunion U { None = 1 Some(u32) = 2 }\n\
               service Svc { fn get(E) -> U = 1; fn watch(E) -> stream U = 2; }";
    let schema = parse(src).unwrap();
    assert_eq!(schema.items.len(), 3);
    match &schema.items[1].node {
        Item::Union(u) => {
            assert!(u.variants[0].node.ty.is_none());
            assert!(matches!(u.variants[1].node.ty.as_ref().unwrap().node, Type::U32));
            assert_eq!(u.variants[1].node.index.node, 2);
        }
        _ => panic!("expected a union"),
    }
    match &schema.items[2].node {
        Item::Service(s) => {
            assert_eq!(s.methods.len(), 2);
            assert_eq!(s.methods[0].node.name.node, "get");
            assert!(matches!(s.methods[0].node.response.node, ServiceResponse::Unary(Type::Named(_))));
            assert!(matches!(s.methods[1].node.response.node, ServiceResponse::Stream(Type::Named(_))));
            assert_eq!(s.methods[1].node.response.span, at(src, "stream U", 0));
            assert_eq!(s.methods[1].node.index.node, 2);
        }
        _ => panic!("expected a service"),
    }
}

#[test]
fn syntax_errors() {
    let e = parse("struct {").unwrap_err();
    assert_eq!(e.len(), 1);
    assert_eq!(e[0].message, "found '{' expected identifier");
    assert_eq!(e[0].labels[0].1, "Unexpected '{'");
    assert_eq!(e[0].notes, vec!["Expected one of: identifier".to_string()]);
    assert_eq!(e[0].span, Span::new(7, 8));

    let e = parse("struct S { a u8 }").unwrap_err();
    assert_eq!(e[0].message, "found 'u8' expected '?', ':'");

    let e = parse("struct S { a: u8").unwrap_err();
    assert_eq!(e[0].message, "found end of input expected identifier, '}'");
    assert_eq!(e[0].labels[0].1, "Unexpected end of input");
    assert_eq!(e[0].span, Span::new(16, 16));

    let e = parse("thing").unwrap_err();
    assert_eq!(
        e[0].message,
        "found 'thing' expected 'struct', 'message', 'enum', 'union', 'service', end of input"
    );

    let e = parse("message M { a: u8 = x }").unwrap_err();
    assert_eq!(e[0].message, "found 'x' expected integer");

    let e = parse("service S { fn f(u8) -> = 1 }").unwrap_err();
    assert!(e[0].message.starts_with("found '=' expected 'stream', 'bool'"));

    let e = parse("union U { A: u8 }").unwrap_err();
    assert_eq!(e[0].message, "found ':' expected '(', '='");
}

#[test]
fn lexical_errors_are_reported() {
    let e = parse("struct S { a: u8 } $").unwrap_err();
    assert_eq!(e[0].message, "found '$' expected something else");
    assert_eq!(e[0].labels[0].1, "Unexpected '$'");
    let e = parse("enum E { A = 4294967296 }").unwrap_err();
    assert_eq!(e[0].message, "integer literal '4294967296' is too large (must fit in u32)");
    let e = parse("struct S {} /* no end").unwrap_err();
    assert_eq!(e[0].message, "unterminated block comment");
    let e = parse("struct S { é: u8 }").unwrap_err();
    assert_eq!(e[0].message, "found a non-ASCII character expected something else");
}

#[test]
fn a_valid_schema_compiles() {
    let src = "struct Point { x: f32; y: f32 }\n\
               message User { id: u64 = 1; name?: string = 2; tags: [string] = 3; scores: {string: u32} = 4 }\n\
               enum Status { Idle = 0; Busy = 1 }\n\
               union Shape { Dot = 1; At(Point) = 2 }\n\
               service Users { fn get(u64) -> User = 1; fn all(Status) -> stream User = 2 }";
    let schema = compile(src, Language::Rust).unwrap();
    assert_eq!(schema.items.len(), 5);
    assert_eq!(schema.items[4].node.name(), "Users");
}

#[test]
fn duplicate_definitions() {
    let src = "enum A { X = 0 }\nenum A { Y = 1 }\nstruct A {}";
    let errs = errors(src, Language::Rust);
    assert_eq!(messages(&errs), vec!["duplicate definition of `A`".to_string()]);
    let labels = &errs[0].labels;
    assert_eq!(labels.len(), 3);
    assert_eq!(labels[0], (at(src, "A", 0), "first defined here".to_string(), LabelColor::Blue));
    assert_eq!(labels[1], (at(src, "A", 1), "redefined here".to_string(), LabelColor::Red));
    assert_eq!(labels[2].0, at(src, "A", 2));
    assert_eq!(errs[0].span, at(src, "A", 0));
}

#[test]
fn duplicate_names_within_items() {
    let src = "struct S { a: u8; a: u8 }";
    let errs = errors(src, Language::Rust);
    assert_eq!(messages(&errs), vec!["duplicate field `a` in struct `S`".to_string()]);
    assert_eq!(errs[0].labels[0], (at(src, "a", 0), "first defined here".to_string(), LabelColor::Blue));
    assert_eq!(errs[0].labels[1], (at(src, "a", 1), "redefined here".to_string(), LabelColor::Red));

    let errs = errors("enum E { A = 0; A = 1 }", Language::Rust);
    assert_eq!(messages(&errs), vec!["duplicate variant `A` in enum `E`".to_string()]);
    let errs = errors("union U { A = 1; A = 2 }", Language::Rust);
    assert_eq!(messages(&errs), vec!["duplicate variant `A` in union `U`".to_string()]);
    let errs = errors("service S { fn f(u8) -> u8 = 1; fn f(u8) -> u8 = 2 }", Language::Rust);
    assert_eq!(messages(&errs), vec!["duplicate method `f` in service `S`".to_string()]);
}

#[test]
fn indices() {
    let src = "message M { a: u8 = 0; b: u8 = 2; c: u8 = 2 }";
    let errs = errors(src, Language::Rust);
    assert_eq!(
        messages(&errs),
        vec!["index 0 is reserved in message `M`".to_string(), "duplicate index 2 in message `M`".to_string()]
    );
    assert_eq!(errs[0].labels[0], (at(src, "0", 0), "indices must be >= 1".to_string(), LabelColor::Red));
    assert_eq!(errs[1].labels[0].1, "first used here");
    assert_eq!(errs[1].labels[1], (at(src, "2", 1), "reused here".to_string(), LabelColor::Red));

    assert!(compile("enum E { A = 0 }", Language::Rust).is_ok());
    let errs = errors("enum E { A = 3; B = 3 }", Language::Rust);
    assert_eq!(messages(&errs), vec!["duplicate index 3 in enum `E`".to_string()]);
    let errs = errors("union U { A = 0 }", Language::Rust);
    assert_eq!(messages(&errs), vec!["index 0 is reserved in union `U`".to_string()]);
    let errs = errors("service S { fn f(u8) -> u8 = 0 }", Language::Rust);
    assert_eq!(messages(&errs), vec!["index 0 is reserved in service `S`".to_string()]);
}

#[test]
fn type_references() {
    let src = "struct S { a: Missing }";
    let errs = errors(src, Language::Rust);
    assert_eq!(messages(&errs), vec!["undefined type `Missing`".to_string()]);
    assert_eq!(errs[0].labels[0], (at(src, "Missing", 0), "not found".to_string(), LabelColor::Red));

    let src = "service Svc { fn f(u8) -> u8 = 1 }\nstruct S { a: [Svc] }";
    let errs = errors(src, Language::Rust);
    assert_eq!(messages(&errs), vec!["services cannot be used as types".to_string()]);
    assert_eq!(errs[0].labels[0].1, "service used as type");

    let src = "service Svc { fn f(Nope) -> stream Gone = 1 }";
    let errs = errors(src, Language::Rust);
    assert_eq!(
        messages(&errs),
        vec!["undefined type `Nope`".to_string(), "undefined type `Gone`".to_string()]
    );
    assert_eq!(errs[1].span, at(src, "stream Gone", 0));
}

#[test]
fn map_keys() {
    let src = "struct S { m: {f32: u8} }";
    let errs = errors(src, Language::Rust);
    assert_eq!(messages(&errs), vec!["invalid map key type: floats cannot be used as map keys".to_string()]);
    assert_eq!(errs[0].labels, vec![(at(src, "f32", 0), "floating-point type used here".to_string(), LabelColor::Red)]);

    let errs = errors("struct S { m: {{u8: u8}: u8} }", Language::Rust);
    assert_eq!(messages(&errs), vec!["invalid map key type: maps cannot be used as map keys".to_string()]);

    assert!(compile("struct S { m: {[u8]: u8} }", Language::Rust).is_ok());
    let errs = errors("struct S { m: {[u8]: u8} }", Language::Go);
    assert_eq!(messages(&errs), vec!["invalid map key type: arrays cannot be used as map keys in Go".to_string()]);
    let errs = errors("struct S { m: {[u8]: u8} }", Language::Typescript);
    assert_eq!(
        messages(&errs),
        vec!["invalid map key type: arrays cannot be used as map keys in TypeScript".to_string()]
    );

    let src = "struct K { a: u8 }\nstruct S { m: {K: u8} }";
    assert!(compile(src, Language::Go).is_ok());
    let errs = errors(src, Language::Typescript);
    assert_eq!(
        messages(&errs),
        vec!["invalid map key type: structs cannot be used as map keys in TypeScript".to_string()]
    );
    assert_eq!(errs[0].labels[0].1, "struct 'K' used here");

    let src = "union K { A = 1 }\nstruct S { m: {K: u8} }";
    assert!(compile(src, Language::Rust).is_ok());
    let errs = errors(src, Language::Go);
    assert_eq!(messages(&errs), vec!["invalid map key type: unions cannot be used as map keys in Go".to_string()]);

    let src = "message K { a: u8 = 1 }\nstruct S { m: {K: u8} }";
    let errs = errors(src, Language::Typescript);
    assert_eq!(
        messages(&errs),
        vec!["invalid map key type: messages cannot be used as map keys in TypeScript".to_string()]
    );

    let src = "enum K { A = 0 }\nstruct S { m: {K: u8} }";
    assert!(compile(src, Language::Typescript).is_ok());
}

#[test]
fn invalid_map_key_chain() {
    let src = "struct K { a: f64 }\nstruct S { m: {K: u8} }";
    let errs = errors(src, Language::Rust);
    assert_eq!(messages(&errs), vec!["invalid map key type: floats cannot be used as map keys".to_string()]);
    assert_eq!(
        errs[0].labels,
        vec![
            (at(src, "f64", 0), "floating-point type used here".to_string(), LabelColor::Red),
            (at(src, "K", 1), "struct 'K' contains invalid field".to_string(), LabelColor::Red),
        ]
    );

    let src = "union K { A(f32) = 1 }\nstruct S { m: {[K]: u8} }";
    let errs = errors(src, Language::Rust);
    assert_eq!(errs[0].labels.len(), 3);
    assert_eq!(errs[0].labels[1].1, "union 'K' contains invalid variant");
    assert_eq!(errs[0].labels[2], (at(src, "[K]", 0), "array of invalid type used here".to_string(), LabelColor::Red));
}

#[test]
fn errors_come_in_order() {
    let src = "struct A { x: Nope }\nstruct A {}\nenum E { V = 1; V = 1 }";
    let errs = errors(src, Language::Rust);
    assert_eq!(
        messages(&errs),
        vec![
            "duplicate definition of `A`".to_string(),
            "undefined type `Nope`".to_string(),
            "duplicate variant `V` in enum `E`".to_string(),
            "duplicate index 1 in enum `E`".to_string(),
        ]
    );
}

#[test]
fn a_key_type_that_contains_itself() {
    let src = "struct A { a: A }\nstruct S { m: {A: u8} }";
    let schema = parse(src).unwrap();
    assert!(!check_terminates(&schema, Language::Rust));
    assert!(check_terminates(&schema, Language::Typescript));
    let errs = errors(src, Language::Rust);
    assert_eq!(messages(&errs), vec!["a map key type contains itself".to_string()]);
    let errs = errors(src, Language::Typescript);
    assert_eq!(
        messages(&errs),
        vec!["invalid map key type: structs cannot be used as map keys in TypeScript".to_string()]
    );
    let self_ref = "struct A { a: A }";
    assert!(compile(self_ref, Language::Rust).is_ok());
}

#[test]
fn check_of_a_parsed_schema() {
    let schema = parse("struct S { a: Nope }").unwrap();
    assert!(check_terminates(&schema, Language::Rust));
    let errs = check(&schema, Language::Rust);
    assert_eq!(messages(&errs), vec!["undefined type `Nope`".to_string()]);
}

#[test]
fn compile_with_recovery_keeps_the_schema() {
    let (schema, errs) = compile_with_recovery("struct S { a: Nope }", Language::Rust);
    assert!(schema.is_some());
    assert_eq!(messages(&errs), vec!["undefined type `Nope`".to_string()]);
    let (schema, errs) = compile_with_recovery("struct S { a: }", Language::Rust);
    assert!(schema.is_none());
    assert_eq!(errs.len(), 1);
    let (schema, errs) = compile_with_recovery("struct S { a: u8 }", Language::Go);
    assert!(schema.is_some());
    assert!(errs.is_empty());
}

#[test]
fn languages() {
    assert_eq!(Language::parse("rust"), Ok(Language::Rust));
    assert_eq!(Language::parse("RUST"), Ok(Language::Rust));
    assert_eq!(Language::parse("Go"), Ok(Language::Go));
    assert_eq!(Language::parse("TypeScript"), Ok(Language::Typescript));
    assert_eq!(Language::parse("java"), Err("Unknown language: java".to_string()));
    assert_eq!("typescript".parse::<Language>(), Ok(Language::Typescript));
}

#[test]
fn compile_errors_are_built_from_labels() {
    let e = CompileError::new("boom".to_string());
    assert_eq!(e.span, Span::new(0, 0));
    let e = e.label(Span::new(3, 4), "here".to_string(), LabelColor::Red);
    assert_eq!(e.span, Span::new(3, 4));
    let e = e.label(Span::new(5, 6), "and here".to_string(), LabelColor::Blue);
    assert_eq!(e.span, Span::new(3, 4));
    assert_eq!(e.labels.len(), 2);
    let e = e.note("a note".to_string());
    assert_eq!(e.notes, vec!["a note".to_string()]);
}

#[test]
fn fixed_sizes_and_wire_types() {
    let src = "struct P { x: f32; y: f32; z: f32 }\nstruct Q { p: P; flag: bool }\n\
               struct O { a?: u8 }\nstruct V { a: u32 }\nenum E { A = 0 }\nmessage M {}\nunion U { A = 1 }";
    let schema: Schema = compile(src, Language::Rust).unwrap();
    let named = |n: &str| Type::Named(n.to_string());
    assert_eq!(schema.fixed_size(&named("P")), Some(12));
    assert_eq!(schema.fixed_size(&named("Q")), Some(13));
    assert_eq!(schema.fixed_size(&named("O")), None);
    assert_eq!(schema.fixed_size(&named("V")), None);
    assert_eq!(schema.fixed_size(&Type::F64), Some(8));
    assert_eq!(schema.fixed_size(&named("E")), None);
    assert_eq!(schema.wire_type(&named("P")), WireType::Bytes);
    assert_eq!(schema.wire_type(&named("E")), WireType::Varint);
    assert_eq!(schema.wire_type(&named("M")), WireType::Message);
    assert_eq!(schema.wire_type(&named("U")), WireType::Union);
    assert_eq!(schema.wire_type(&Type::F32), WireType::Fixed32);
    assert_eq!(WireType::Union.id(), 6);
    match &schema.items[0].node {
        Item::Struct(s) => assert_eq!(schema.struct_fixed_size(s), Some(12)),
        _ => panic!("expected a struct"),
    }
    assert!(schema.item("Q").is_some());
    assert!(schema.item("Z").is_none());
}

#[test]
fn item_names_and_their_spans() {
    let src = "struct Point { x: f32 }\nmessage User { id: u64 = 1 }";
    let schema = compile(src, Language::Go).unwrap();
    assert_eq!(item_name_span(&schema.items[0]), at(src, "Point", 0));
    assert_eq!(item_name_span(&schema.items[1]), at(src, "User", 0));
}

#[test]
fn a_schema_without_errors_is_well_numbered() {
    let src = "message A { x: u32 = 1; y: u32 = 2 }\nenum B { P = 0; Q = 1 }\n\
               union C { D = 1; E = 2 }\nservice S { fn f(A) -> A = 1; fn g(A) -> A = 2 }";
    let schema = compile(src, Language::Typescript).unwrap();
    let names: Vec<&str> = schema.items.iter().map(|it| it.node.name()).collect();
    assert_eq!(names, vec!["A", "B", "C", "S"]);
    match &schema.items[0].node {
        Item::Message(m) => {
            let idx: Vec<u32> = m.fields.iter().map(|f| f.node.index.node).collect();
            assert_eq!(idx, vec![1, 2]);
        }
        _ => panic!("expected a message"),
    }
    let again = "message A { x: u32 = 1; y: u32 = 1 }";
    assert_eq!(
        messages(&errors(again, Language::Rust)),
        vec!["duplicate index 1 in message `A`".to_string()]
    );
}

#[test]
fn sizes_and_wire_types_checked() {
    let src = "struct P { x: f32; y: f32; z: f32 }\nstruct A { a: A }\nservice S { fn f(P) -> P = 1 }\nmessage M {}";
    let schema: Schema = parse(src).unwrap();
    let named = |n: &str| Type::Named(n.to_string());
    assert_eq!(schema.try_fixed_size(&named("P")), Some(Some(12)));
    assert_eq!(schema.try_fixed_size(&named("A")), None);
    assert_eq!(schema.try_fixed_size(&named("Z")), None);
    assert_eq!(schema.try_fixed_size(&named("M")), Some(None));
    assert_eq!(schema.try_fixed_size(&Type::U32), Some(None));
    assert_eq!(schema.try_wire_type(&named("M")), Some(WireType::Message));
    assert_eq!(schema.try_wire_type(&named("S")), None);
    assert_eq!(schema.try_wire_type(&named("Z")), None);
    assert_eq!(schema.try_wire_type(&Type::Bool), Some(WireType::Fixed8));
}
