use volex::testbin::{
    go_mod, go_test_main, rust_cargo_toml, rust_test_main, rust_testbin_texts, typescript_test_main,
};

fn names(v: &[&str]) -> Vec<String> {
    v.iter().map(|s| s.to_string()).collect()
}

#[test]
fn go_module_of_a_suite() {
    assert_eq!(
        go_mod("basic"),
        "module basic_testbin\n\ngo 1.21\n\nreplace github.com/lolserialize/runtime => ../../../lolserialize-go-runtime\n"
    );
}

#[test]
fn rust_manifest_of_a_suite() {
    let toml = rust_cargo_toml("maps", "../../runtime-rust");
    assert!(toml.starts_with("[workspace]\n\n[package]\nname = \"maps_testbin_rust\"\n"));
    assert!(toml.contains("[[bin]]\nname = \"maps_testbin\"\n"));
    assert!(toml.contains("volex = { path = \"../../runtime-rust\" }\n"));
}

#[test]
fn rust_program_imports_result_under_another_name() {
    let main = rust_test_main("../gen.rs", &names(&["Point", "Result", "Color"]));
    assert!(main.starts_with("\nmod generated {\n    include!(\"../gen.rs\");\n}\n\nuse generated::{Point, Color};\nuse generated::Result as SchemaResult;\nuse volex::{Encode, Decode};\n"));
    assert!(main.contains("        \"Result\" => {\n            let val: SchemaResult = serde_json::from_value(json)\n                .map_err(|e| format!(\"failed to deserialize: {}\", e))?;\n            val.encode(&mut buf);\n        }\n        \"Color\" => {"));
    assert!(main.contains("        \"Point\" => {\n            let val = Point::decode(&mut slice)\n"));
    let plain = rust_test_main("g.rs", &names(&["A"]));
    assert!(plain.contains("use generated::{A};\nuse volex::{Encode, Decode};"));
}

#[test]
fn go_program_has_a_case_per_type() {
    let main = go_test_main(&names(&["A", "B"]));
    assert!(main.starts_with("package main\n"));
    assert!(main.contains("\tcase \"A\":\n\t\tvar val A\n"));
    assert!(main.contains("\tcase \"B\":\n\t\tval, err := DecodeB(&bytes)\n"));
    assert_eq!(main.matches("\tcase \"A\":").count(), 2);
}

#[test]
fn typescript_program_imports_each_codec() {
    let main = typescript_test_main(&names(&["A", "B"]));
    assert!(main.starts_with("import * as runtime from \"volex\";\nimport {\nencodeA, decodeA, encodeB, decodeB\n} from \"./generated.js\";\n"));
    assert!(main.contains("    case \"A\":\n      const valA = convertJsonValue(req.json);\n"));
    assert!(main.contains("/.{1,2}/g"));
}

#[test]
fn rust_texts_refer_to_relative_paths() {
    let (toml, main) = rust_testbin_texts(
        "x",
        "/a/runtime-rust",
        "/a/temp/x_testbin_rust",
        "/a/temp/x_testbin_rust/src",
        "/a/temp/x_generated.rs",
        &names(&["T"]),
    )
    .unwrap();
    assert_eq!(toml, rust_cargo_toml("x", "../../runtime-rust"));
    assert_eq!(main, rust_test_main("../../x_generated.rs", &names(&["T"])));

    let (_, main) =
        rust_testbin_texts("x", "/a/runtime-rust", "/a/b", "/a/b/src", "gen.rs", &names(&["T"])).unwrap();
    assert_eq!(main, rust_test_main("../../basic_generated.rs", &names(&["T"])));

    assert_eq!(
        rust_testbin_texts("x", "runtime-rust", "/a/b", "/a/b/src", "/g.rs", &names(&["T"])),
        Err("failed to compute relative path".to_string())
    );
}
