use volex::diagnostics::Language;
use volex::tester::{
    encode_check, is_empty_vec, is_false, run_verdict, skips_language, sorted_unique, strip_spaces, test_pairs,
    try_as_bytes, EncodeCheck, JsonBytes, Tally, Transport,
};
use volex::text::str_lt;

#[test]
fn transport_names() {
    assert_eq!(Transport::Tcp.as_str(), "tcp");
    assert_eq!(Transport::Http.as_str(), "http");
    assert_eq!(Transport::Tcp.name(), "TCP");
    assert_eq!(Transport::Http.name(), "HTTP");
}

#[test]
fn language_names() {
    assert_eq!(Language::Rust.as_str(), "rust");
    assert_eq!(Language::Go.as_str(), "go");
    assert_eq!(Language::Typescript.as_str(), "typescript");
    assert_eq!(Language::Rust.name(), "Rust");
    assert_eq!(Language::Go.name(), "Go");
    assert_eq!(Language::Typescript.name(), "TypeScript");
}

#[test]
fn pairs_under_test() {
    let all = test_pairs(true, None, None);
    assert_eq!(
        all,
        vec![
            (Language::Go, Language::Go),
            (Language::Go, Language::Rust),
            (Language::Rust, Language::Go),
            (Language::Rust, Language::Rust),
            (Language::Typescript, Language::Go),
            (Language::Typescript, Language::Rust),
        ]
    );
    assert_eq!(
        test_pairs(false, Some(Language::Rust), Some(Language::Go)),
        vec![(Language::Rust, Language::Go)]
    );
}

#[test]
fn skipped_fields() {
    assert!(is_false(&false));
    assert!(!is_false(&true));
    assert!(is_empty_vec(&vec![]));
    assert!(!is_empty_vec(&vec!["go".to_string()]));
}

#[test]
fn hex_without_spaces() {
    assert_eq!(strip_spaces("0a 0b  ff"), "0a0bff");
    assert_eq!(strip_spaces(""), "");
    assert_eq!(strip_spaces("   "), "");
}

#[test]
fn bytes_from_test_data() {
    assert_eq!(try_as_bytes(&JsonBytes::Text("AQID".to_string())), Some(vec![1, 2, 3]));
    assert_eq!(try_as_bytes(&JsonBytes::Text("aGk=".to_string())), Some(b"hi".to_vec()));
    assert_eq!(try_as_bytes(&JsonBytes::Text("not base64!".to_string())), None);
    assert_eq!(try_as_bytes(&JsonBytes::Numbers(vec![Some(1), Some(255)])), Some(vec![1, 255]));
    assert_eq!(try_as_bytes(&JsonBytes::Numbers(vec![Some(1), Some(256)])), None);
    assert_eq!(try_as_bytes(&JsonBytes::Numbers(vec![Some(1), None])), None);
    assert_eq!(try_as_bytes(&JsonBytes::Numbers(vec![])), Some(vec![]));
    assert_eq!(try_as_bytes(&JsonBytes::Other), None);
}

#[test]
fn skipping_a_language() {
    let skip = vec!["go".to_string(), "typescript".to_string()];
    assert!(skips_language(&skip, Language::Go));
    assert!(skips_language(&skip, Language::Typescript));
    assert!(!skips_language(&skip, Language::Rust));
    assert!(!skips_language(&Vec::new(), Language::Rust));
}

#[test]
fn checking_an_encoding() {
    assert_eq!(encode_check(false, "0102", "0102"), EncodeCheck::Pass);
    assert_eq!(encode_check(false, "0102", "0103"), EncodeCheck::Fail);
    assert_eq!(encode_check(true, "0102", "0201"), EncodeCheck::Roundtrip);
    assert_eq!(encode_check(true, "0102", "0102"), EncodeCheck::Roundtrip);
}

#[test]
fn counting_checks() {
    let mut t = Tally::new();
    assert_eq!(run_verdict(&t), Ok(()));
    t.record(true);
    t.record(true);
    t.record(false);
    t.record_regenerated();
    assert_eq!(t, Tally { passed: 2, failed: 1, regenerated: 1 });
    assert_eq!(run_verdict(&t), Err("1 tests failed".to_string()));
    for _ in 0..11 {
        t.record(false);
    }
    assert_eq!(run_verdict(&t), Err("12 tests failed".to_string()));
}

#[test]
fn strings_by_their_bytes() {
    assert!(str_lt("a", "b"));
    assert!(str_lt("a", "ab"));
    assert!(!str_lt("ab", "a"));
    assert!(!str_lt("a", "a"));
    assert!(str_lt("", "a"));
    assert!(str_lt("Z", "a"));
    assert!(str_lt("z", "é"));
}

#[test]
fn type_names_in_order_once_each() {
    let names: Vec<String> = ["Point", "Color", "Point", "Bytes", "Color", "u32"]
        .iter()
        .map(|s| s.to_string())
        .collect();
    assert_eq!(sorted_unique(&names), vec!["Bytes", "Color", "Point", "u32"]);
    assert_eq!(sorted_unique(&Vec::new()), Vec::<String>::new());
    let one = vec!["x".to_string(), "x".to_string()];
    assert_eq!(sorted_unique(&one), vec!["x"]);
}
