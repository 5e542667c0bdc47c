use volex::diagnostics::Language;
use volex::lsp::{
    definition_span, diagnostics, find_item_at_position, hover_text, offset_to_position,
    position_to_offset, reference_spans, renumber_action, span_to_range, target_name, AtPosition,
    Position, Range,
};
use volex::parser::parse;
use volex::schema::Span;
use volex::{compile, compile_with_recovery};

fn pos(line: u32, character: u32) -> Position {
    Position { line, character }
}

fn at(src: &str, needle: &str, nth: usize) -> Span {
    let mut from = 0;
    let mut found = 0;
    for _ in 0..=nth {
        found = from + src[from..].find(needle).unwrap();
        from = found + 1;
    }
    Span::new(found, found + needle.len())
}

#[test]
fn positions_and_offsets() {
    let text = "ab\ncd";
    assert_eq!(position_to_offset(text, pos(0, 0)), Some(0));
    assert_eq!(position_to_offset(text, pos(0, 2)), Some(2));
    assert_eq!(position_to_offset(text, pos(1, 1)), Some(4));
    assert_eq!(position_to_offset(text, pos(1, 2)), Some(5));
    assert_eq!(position_to_offset(text, pos(0, 3)), None);
    assert_eq!(position_to_offset(text, pos(2, 0)), None);
    assert_eq!(offset_to_position(text, 4), pos(1, 1));
    assert_eq!(offset_to_position(text, 2), pos(0, 2));
    assert_eq!(offset_to_position(text, 3), pos(1, 0));
    assert_eq!(offset_to_position(text, 100), pos(1, 2));
    assert_eq!(
        span_to_range(text, Span::new(1, 4)),
        Range { start: pos(0, 1), end: pos(1, 1) }
    );
}

#[test]
fn characters_are_counted_not_bytes() {
    let text = "é!\nx";
    assert_eq!(position_to_offset(text, pos(0, 1)), Some(2));
    assert_eq!(offset_to_position(text, 2), pos(0, 1));
    assert_eq!(offset_to_position(text, 1), pos(0, 1));
    assert_eq!(position_to_offset(text, pos(1, 0)), Some(4));
}

#[test]
fn offsets_come_back_through_positions() {
    let text = "struct A {\n  é: u8\n}\n";
    for (k, _) in text.char_indices() {
        let p = offset_to_position(text, k);
        assert_eq!(position_to_offset(text, p), Some(k));
    }
    let p = offset_to_position(text, text.len());
    assert_eq!(position_to_offset(text, p), Some(text.len()));
}

const SRC: &str = "struct A { b: B }\nstruct B { x: [A] }\nmessage Q { a: A = 5; b: B = 9 }\n\
                   service S { fn f(Q) -> stream A = 1 }";

#[test]
fn what_stands_at_a_position() {
    let schema = compile(SRC, Language::Rust).unwrap();
    match find_item_at_position(&schema, at(SRC, "A", 0).start) {
        Some(AtPosition::ItemDefinition(0, span)) => assert_eq!(span, at(SRC, "A", 0)),
        other => panic!("unexpected {:?}", other),
    }
    match find_item_at_position(&schema, at(SRC, "B", 0).start) {
        Some(AtPosition::TypeReference(name, span)) => {
            assert_eq!(name, "B");
            assert_eq!(span, at(SRC, "B", 0));
        }
        other => panic!("unexpected {:?}", other),
    }
    match find_item_at_position(&schema, at(SRC, "[A]", 0).start + 1) {
        Some(AtPosition::TypeReference(name, span)) => {
            assert_eq!(name, "A");
            assert_eq!(span, at(SRC, "A", 1));
        }
        other => panic!("unexpected {:?}", other),
    }
    assert!(find_item_at_position(&schema, at(SRC, "[A]", 0).start).is_none());
    match find_item_at_position(&schema, at(SRC, "stream", 0).start) {
        Some(AtPosition::TypeReference(name, span)) => {
            assert_eq!(name, "A");
            assert_eq!(span, at(SRC, "stream A", 0));
        }
        other => panic!("unexpected {:?}", other),
    }
    assert!(find_item_at_position(&schema, at(SRC, "struct", 0).start).is_none());
    assert!(find_item_at_position(&schema, 10_000).is_none());
}

#[test]
fn definitions_and_hovers() {
    let schema = compile(SRC, Language::Rust).unwrap();
    let at_b = find_item_at_position(&schema, at(SRC, "B", 0).start).unwrap();
    assert_eq!(definition_span(&schema, &at_b), Some(schema.items[1].span));
    assert_eq!(hover_text(&schema, &at_b), Some("```volex\nstruct B\n```".to_string()));
    assert_eq!(target_name(&schema, &at_b), Some("B".to_string()));
    let at_q = find_item_at_position(&schema, at(SRC, "Q", 0).start).unwrap();
    assert_eq!(definition_span(&schema, &at_q), Some(at(SRC, "Q", 0)));
    assert_eq!(hover_text(&schema, &at_q), Some("```volex\nmessage Q\n```".to_string()));
    assert_eq!(target_name(&schema, &at_q), Some("Q".to_string()));
    let stale = AtPosition::ItemDefinition(99, Span::new(0, 1));
    assert_eq!(hover_text(&schema, &stale), None);
    assert_eq!(target_name(&schema, &stale), None);

    let (schema, _) = compile_with_recovery("struct S { a: Nope }", Language::Rust);
    let schema = schema.unwrap();
    let src = "struct S { a: Nope }";
    let at_nope = find_item_at_position(&schema, at(src, "Nope", 0).start).unwrap();
    assert_eq!(hover_text(&schema, &at_nope), Some("Type: Nope".to_string()));
    assert_eq!(definition_span(&schema, &at_nope), None);
}

#[test]
fn references_and_renames() {
    let schema = compile(SRC, Language::Rust).unwrap();
    assert_eq!(
        reference_spans(&schema, "A", true),
        vec![at(SRC, "A", 0), at(SRC, "A", 1), at(SRC, "A", 2), at(SRC, "stream A", 0)]
    );
    assert_eq!(
        reference_spans(&schema, "A", false),
        vec![at(SRC, "A", 1), at(SRC, "A", 2), at(SRC, "stream A", 0)]
    );
    assert_eq!(reference_spans(&schema, "B", true), vec![at(SRC, "B", 1), at(SRC, "B", 0), at(SRC, "B", 2)]);
    assert_eq!(reference_spans(&schema, "Q", true), vec![at(SRC, "Q", 0), at(SRC, "Q", 1)]);
    assert!(reference_spans(&schema, "Z", true).is_empty());
}

#[test]
fn renumbering() {
    let src = "message M { a: u8 = 5; b: u8 = 9 }\nenum E { X = 4; Y = 7 }\nunion U { P = 3 }\nstruct S {}\nenum Empty {}";
    let schema = parse(src).unwrap();
    let (title, edits) = renumber_action(&schema.items[0].node).unwrap();
    assert_eq!(title, "Renumber message fields");
    assert_eq!(edits, vec![(at(src, "5", 0), "1".to_string()), (at(src, "9", 0), "2".to_string())]);
    let (title, edits) = renumber_action(&schema.items[1].node).unwrap();
    assert_eq!(title, "Renumber enum variants");
    assert_eq!(edits, vec![(at(src, "4", 0), "0".to_string()), (at(src, "7", 0), "1".to_string())]);
    let (title, edits) = renumber_action(&schema.items[2].node).unwrap();
    assert_eq!(title, "Renumber union variants");
    assert_eq!(edits, vec![(at(src, "3", 0), "1".to_string())]);
    assert!(renumber_action(&schema.items[3].node).is_none());
    assert!(renumber_action(&schema.items[4].node).is_none());
}

#[test]
fn diagnostics_of_errors() {
    let src = "struct S { a: u8; a: u8 }\nstruct T { b: Nope }";
    let (_, errs) = compile_with_recovery(src, Language::Rust);
    let ds = diagnostics(src, &errs);
    let messages: Vec<String> = ds.iter().map(|d| d.1.clone()).collect();
    assert_eq!(
        messages,
        vec![
            "duplicate field `a` in struct `S`: first defined here".to_string(),
            "duplicate field `a` in struct `S`: redefined here".to_string(),
            "undefined type `Nope`: not found".to_string(),
        ]
    );
    assert_eq!(ds[2].0, Range { start: pos(1, 14), end: pos(1, 18) });

    let src = "struct A { a: A }\nstruct S { m: {A: u8} }";
    let (_, errs) = compile_with_recovery(src, Language::Rust);
    let ds = diagnostics(src, &errs);
    assert_eq!(ds.len(), 1);
    assert_eq!(ds[0].1, "a map key type contains itself");
    assert_eq!(ds[0].0, Range { start: pos(0, 0), end: pos(0, 0) });
}
