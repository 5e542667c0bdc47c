//! The programs of the test binaries of the encoding suites, as text: for each language, a
//! program around the code generated from a suite's schema that answers encode and decode
//! requests, one JSON line each, for the suite's types.
use vstd::prelude::*;

use vstd::string::StrSliceExecFns;

use crate::text::str_eq;

verus! {

/// The texts of a sequence of strings.
pub open spec fn texts(names: Seq<String>) -> Seq<Seq<char>> {
    names.map_values(|n: String| n@)
}

/// The parts, with `sep` between each two.
pub open spec fn join(parts: Seq<Seq<char>>, sep: Seq<char>) -> Seq<char>
    decreases parts.len(),
{
    if parts.len() == 0 {
        Seq::empty()
    } else if parts.len() == 1 {
        parts[0]
    } else {
        join(parts.drop_last(), sep) + sep + parts.last()
    }
}

proof fn lemma_join_step(parts: Seq<Seq<char>>, i: int, sep: Seq<char>)
    requires
        0 <= i < parts.len(),
    ensures
        join(parts.take(i + 1), sep) == join(parts.take(i), sep) + (if i > 0 {
            sep
        } else {
            Seq::empty()
        }) + parts[i],
{
    assert(parts.take(i + 1).drop_last() =~= parts.take(i));
    if i == 0 {
        assert(join(parts.take(i), sep) == Seq::<char>::empty());
        assert(Seq::<char>::empty() + Seq::<char>::empty() + parts[0] =~= parts[0]);
    }
}

/// How the type named `t` is written in Rust code: the schema's `Result` is imported as
/// `SchemaResult`, so as not to hide Rust's own.
pub open spec fn spec_type_ref(t: Seq<char>) -> Seq<char> {
    if t == "Result"@ {
        "SchemaResult"@
    } else {
        t
    }
}

fn type_ref(t: &str) -> (r: &str)
    ensures
        r@ == spec_type_ref(t@),
{
    if str_eq(t, "Result") {
        "SchemaResult"
    } else {
        t
    }
}

/// The piece of a test program written for each type name.
#[derive(Debug, Clone, Copy, PartialEq, Eq, Structural)]
pub enum Piece {
    /// The name itself.
    Name,
    RustEncode,
    RustDecode,
    GoEncode,
    GoDecode,
    TsEncode,
    TsDecode,
    /// The encoder and decoder functions of the type, as TypeScript imports them.
    TsImport,
}

/// The piece written for the type named `t`.
pub open spec fn spec_piece(piece: Piece, t: Seq<char>) -> Seq<char> {
    match piece {
        Piece::Name => t,
        Piece::RustEncode => spec_rust_encode_arm(t, spec_type_ref(t)),
        Piece::RustDecode => spec_rust_decode_arm(t, spec_type_ref(t)),
        Piece::GoEncode => spec_go_encode_case(t),
        Piece::GoDecode => spec_go_decode_case(t),
        Piece::TsEncode => spec_ts_encode_case(t),
        Piece::TsDecode => spec_ts_decode_case(t),
        Piece::TsImport => "encode"@ + t + ", decode"@ + t,
    }
}

fn piece_text(piece: Piece, t: &str) -> (r: String)
    ensures
        r@ == spec_piece(piece, t@),
{
    match piece {
        Piece::Name => {
            let mut out = String::new();
            out.append(t);
            assert(out@ =~= t@);
            out
        },
        Piece::RustEncode => rust_encode_arm(t, type_ref(t)),
        Piece::RustDecode => rust_decode_arm(t, type_ref(t)),
        Piece::GoEncode => go_encode_case(t),
        Piece::GoDecode => go_decode_case(t),
        Piece::TsEncode => ts_encode_case(t),
        Piece::TsDecode => ts_decode_case(t),
        Piece::TsImport => {
            let mut out = String::new();
            out.append("encode");
            out.append(t);
            out.append(", decode");
            out.append(t);
            assert(out@ =~= spec_piece(piece, t@));
            out
        },
    }
}

/// The pieces written for each of the type names.
pub open spec fn pieces(piece: Piece, names: Seq<Seq<char>>) -> Seq<Seq<char>> {
    names.map_values(|t: Seq<char>| spec_piece(piece, t))
}

/// The pieces written for each of `names`, with `sep` between each two.
fn joined_pieces(piece: Piece, names: &Vec<String>, sep: &str) -> (r: String)
    ensures
        r@ == join(pieces(piece, texts(names@)), sep@),
{
    let ghost parts = pieces(piece, texts(names@));
    let mut out = String::new();
    let mut i: usize = 0;
    assert(parts.take(0) =~= Seq::<Seq<char>>::empty());
    while i < names.len()
        invariant
            i <= names@.len(),
            parts == pieces(piece, texts(names@)),
            out@ == join(parts.take(i as int), sep@),
        decreases names.len() - i,
    {
        proof {
            lemma_join_step(parts, i as int, sep@);
        }
        if i > 0 {
            out.append(sep);
        }
        let p = piece_text(piece, names[i].as_str());
        out.append(p.as_str());
        assert(out@ =~= join(parts.take(i + 1), sep@));
        i = i + 1;
    }
    assert(parts.take(names@.len() as int) =~= parts);
    out
}

/// The type names but `Result`, in order.
pub open spec fn without_result(names: Seq<Seq<char>>) -> Seq<Seq<char>>
    decreases names.len(),
{
    if names.len() == 0 {
        Seq::empty()
    } else if names.last() == "Result"@ {
        without_result(names.drop_last())
    } else {
        without_result(names.drop_last()).push(names.last())
    }
}

fn names_without_result(names: &Vec<String>) -> (r: Vec<String>)
    ensures
        texts(r@) == without_result(texts(names@)),
{
    let mut out: Vec<String> = Vec::new();
    let mut i: usize = 0;
    assert(texts(names@).take(0) =~= Seq::<Seq<char>>::empty());
    assert(texts(out@) =~= Seq::<Seq<char>>::empty());
    while i < names.len()
        invariant
            i <= names@.len(),
            texts(out@) == without_result(texts(names@).take(i as int)),
        decreases names.len() - i,
    {
        assert(texts(names@).take(i + 1).drop_last() =~= texts(names@).take(i as int));
        if !str_eq(names[i].as_str(), "Result") {
            let ghost before = out@;
            out.push(names[i].clone());
            assert(texts(out@) =~= texts(before).push(names@[i as int]@));
        }
        i = i + 1;
    }
    assert(texts(names@).take(names@.len() as int) =~= texts(names@));
    out
}

/// Whether one of the type names is `Result`.
pub open spec fn has_result(names: Seq<Seq<char>>) -> bool {
    exists|i: int| 0 <= i < names.len() && names[i] == "Result"@
}

/// The text of the Rust test binary's `main.rs`: the generated code at `gen_path` as a
/// module, the suite's types imported (`Result` as `SchemaResult`), and one match arm per type
/// to encode and one to decode.
pub open spec fn spec_rust_test_main(gen_path: Seq<char>, names: Seq<Seq<char>>) -> Seq<char> {
    spec_rust_main_text(
        gen_path,
        join(without_result(names), ", "@),
        if has_result(names) {
            "\nuse generated::Result as SchemaResult;"@
        } else {
            Seq::empty()
        },
        join(pieces(Piece::RustEncode, names), "\n"@),
        join(pieces(Piece::RustDecode, names), "\n"@),
    )
}

/// The text of the Rust test binary's `main.rs`.
pub fn rust_test_main(gen_path: &str, type_names: &Vec<String>) -> (r: String)
    ensures
        r@ == spec_rust_test_main(gen_path@, texts(type_names@)),
{
    let kept = names_without_result(type_names);
    let use_types = joined_pieces(Piece::Name, &kept, ", ");
    proof {
        assert(pieces(Piece::Name, texts(kept@)) =~= texts(kept@));
    }
    let mut found = false;
    let mut i: usize = 0;
    while i < type_names.len()
        invariant
            i <= type_names@.len(),
            found == exists|j: int| 0 <= j < i && texts(type_names@)[j] == "Result"@,
        decreases type_names.len() - i,
    {
        if str_eq(type_names[i].as_str(), "Result") {
            found = true;
        }
        assert(texts(type_names@)[i as int] == type_names@[i as int]@);
        i = i + 1;
    }
    let use_result = if found {
        "\nuse generated::Result as SchemaResult;"
    } else {
        ""
    };
    proof {
        if !found {
            assert(use_result@ =~= Seq::<char>::empty()) by {
                reveal_strlit("");
            }
        }
    }
    let encode_arms = joined_pieces(Piece::RustEncode, type_names, "\n");
    let decode_arms = joined_pieces(Piece::RustDecode, type_names, "\n");
    rust_main_text(gen_path, use_types.as_str(), use_result, encode_arms.as_str(), decode_arms.as_str())
}

/// What `pathdiff::diff_paths` gives for two paths: the path that leads from `base` to `path`,
/// or `None` when there is none.
pub uninterp spec fn spec_diff_paths(path: Seq<char>, base: Seq<char>) -> Option<Seq<char>>;

/// `pathdiff::diff_paths`, with the result displayed as text: the relative path from `base`
/// to `path`, or `None` when there is none. What it gives is left to the name
/// [`spec_diff_paths`]; it is worked out from the two paths alone, without the file system.
#[verifier::external_body]
fn relative_path(path: &str, base: &str) -> (r: Option<String>)
    ensures
        r is None <==> spec_diff_paths(path@, base@) is None,
        r matches Some(s) ==> spec_diff_paths(path@, base@) == Some(s@),
{
    pathdiff::diff_paths(path, base).map(|p| p.display().to_string())
}

/// The generated file that a Rust test binary whose sources are in `src_dir` includes: its
/// path relative to `src_dir`, or `../../basic_generated.rs` when there is none.
pub open spec fn spec_included_path(generated_path: Seq<char>, src_dir: Seq<char>) -> Seq<char> {
    match spec_diff_paths(generated_path, src_dir) {
        Some(p) => p,
        None => "../../basic_generated.rs"@,
    }
}

/// The `Cargo.toml` and the `main.rs` of the Rust test binary of a suite, whose crate is in
/// `crate_dir` with sources in `src_dir`: the runtime at `runtime_path` and the generated code
/// at `generated_path` are referred to relative to them. It fails when no relative path leads
/// from the crate to the runtime.
pub open spec fn spec_rust_testbin_texts(
    suite: Seq<char>,
    runtime_path: Seq<char>,
    crate_dir: Seq<char>,
    src_dir: Seq<char>,
    generated_path: Seq<char>,
    names: Seq<Seq<char>>,
) -> Result<(Seq<char>, Seq<char>), Seq<char>> {
    match spec_diff_paths(runtime_path, crate_dir) {
        None => Err("failed to compute relative path"@),
        Some(rel) => Ok(
            (
                spec_rust_cargo_toml(suite, rel),
                spec_rust_test_main(spec_included_path(generated_path, src_dir), names),
            ),
        ),
    }
}

/// The `Cargo.toml` and the `main.rs` of the Rust test binary of a suite.
pub fn rust_testbin_texts(
    suite: &str,
    runtime_path: &str,
    crate_dir: &str,
    src_dir: &str,
    generated_path: &str,
    type_names: &Vec<String>,
) -> (r: Result<(String, String), String>)
    ensures
        match r {
            Ok((toml, main)) => spec_rust_testbin_texts(
                suite@,
                runtime_path@,
                crate_dir@,
                src_dir@,
                generated_path@,
                texts(type_names@),
            ) == Ok::<(Seq<char>, Seq<char>), Seq<char>>((toml@, main@)),
            Err(e) => spec_rust_testbin_texts(
                suite@,
                runtime_path@,
                crate_dir@,
                src_dir@,
                generated_path@,
                texts(type_names@),
            ) == Err::<(Seq<char>, Seq<char>), Seq<char>>(e@),
        },
{
    let rel = match relative_path(runtime_path, crate_dir) {
        Some(p) => p,
        None => return Err(String::from_str("failed to compute relative path")),
    };
    let toml = rust_cargo_toml(suite, rel.as_str());
    let included = match relative_path(generated_path, src_dir) {
        Some(p) => p,
        None => String::from_str("../../basic_generated.rs"),
    };
    let main = rust_test_main(included.as_str(), type_names);
    Ok((toml, main))
}

/// The text of the Go test binary's `main.go`: one switch case per type to encode and one to
/// decode.
pub open spec fn spec_go_test_main(names: Seq<Seq<char>>) -> Seq<char> {
    spec_go_main_text(
        join(pieces(Piece::GoEncode, names), "\n"@),
        join(pieces(Piece::GoDecode, names), "\n"@),
    )
}

/// The text of the Go test binary's `main.go`.
pub fn go_test_main(type_names: &Vec<String>) -> (r: String)
    ensures
        r@ == spec_go_test_main(texts(type_names@)),
{
    let encode_cases = joined_pieces(Piece::GoEncode, type_names, "\n");
    let decode_cases = joined_pieces(Piece::GoDecode, type_names, "\n");
    go_main_text(encode_cases.as_str(), decode_cases.as_str())
}

/// The text of the TypeScript test binary's `main.ts`: each type's encoder and decoder
/// imported, and one switch case per type to encode and one to decode.
pub open spec fn spec_typescript_test_main(names: Seq<Seq<char>>) -> Seq<char> {
    spec_ts_main_text(
        join(pieces(Piece::TsImport, names), ", "@),
        join(pieces(Piece::TsEncode, names), "\n"@),
        join(pieces(Piece::TsDecode, names), "\n"@),
    )
}

/// The text of the TypeScript test binary's `main.ts`.
pub fn typescript_test_main(type_names: &Vec<String>) -> (r: String)
    ensures
        r@ == spec_typescript_test_main(texts(type_names@)),
{
    let imports = joined_pieces(Piece::TsImport, type_names, ", ");
    let encode_cases = joined_pieces(Piece::TsEncode, type_names, "\n");
    let decode_cases = joined_pieces(Piece::TsDecode, type_names, "\n");
    ts_main_text(imports.as_str(), encode_cases.as_str(), decode_cases.as_str())
}

// The text of `rust_cargo_toml`, between the places where its values go.
pub const RUST_CARGO_TOML_0: &'static str = r##"[workspace]

[package]
name = ""##;

pub const RUST_CARGO_TOML_1: &'static str = r##"_testbin_rust"
version = "0.1.0"
edition = "2024"

[[bin]]
name = ""##;

pub const RUST_CARGO_TOML_2: &'static str = r##"_testbin"
path = "src/main.rs"

[dependencies]
volex = { path = ""##;

pub const RUST_CARGO_TOML_3: &'static str = r##"" }
serde = { version = "1.0", features = ["derive"] }
serde_json = "1.0"
hex = "0.4"

[features]
serde = []
"##;


/// The `Cargo.toml` of the Rust test binary of a suite, depending on the runtime at `runtime_path`.
pub open spec fn spec_rust_cargo_toml(suite: Seq<char>, runtime_path: Seq<char>) -> Seq<char> {
    RUST_CARGO_TOML_0@ + suite + RUST_CARGO_TOML_1@ + suite + RUST_CARGO_TOML_2@ + runtime_path + RUST_CARGO_TOML_3@
}

pub fn rust_cargo_toml(suite: &str, runtime_path: &str) -> (r: String)
    ensures
        r@ == spec_rust_cargo_toml(suite@, runtime_path@),
{
    let mut out = String::new();
    out.append(RUST_CARGO_TOML_0);
    out.append(suite);
    out.append(RUST_CARGO_TOML_1);
    out.append(suite);
    out.append(RUST_CARGO_TOML_2);
    out.append(runtime_path);
    out.append(RUST_CARGO_TOML_3);
    assert(out@ =~= spec_rust_cargo_toml(suite@, runtime_path@));
    out
}

// The text of `rust_encode_arm`, between the places where its values go.
pub const RUST_ENCODE_ARM_0: &'static str = r##"        ""##;

pub const RUST_ENCODE_ARM_1: &'static str = r##"" => {
            let val: "##;

pub const RUST_ENCODE_ARM_2: &'static str = r##" = serde_json::from_value(json)
                .map_err(|e| format!("failed to deserialize: {}", e))?;
            val.encode(&mut buf);
        }"##;


/// The match arm that encodes a value of the type named `t`, written `type_ref` in Rust.
pub open spec fn spec_rust_encode_arm(t: Seq<char>, type_ref: Seq<char>) -> Seq<char> {
    RUST_ENCODE_ARM_0@ + t + RUST_ENCODE_ARM_1@ + type_ref + RUST_ENCODE_ARM_2@
}

fn rust_encode_arm(t: &str, type_ref: &str) -> (r: String)
    ensures
        r@ == spec_rust_encode_arm(t@, type_ref@),
{
    let mut out = String::new();
    out.append(RUST_ENCODE_ARM_0);
    out.append(t);
    out.append(RUST_ENCODE_ARM_1);
    out.append(type_ref);
    out.append(RUST_ENCODE_ARM_2);
    assert(out@ =~= spec_rust_encode_arm(t@, type_ref@));
    out
}

// The text of `rust_decode_arm`, between the places where its values go.
pub const RUST_DECODE_ARM_0: &'static str = r##"        ""##;

pub const RUST_DECODE_ARM_1: &'static str = r##"" => {
            let val = "##;

pub const RUST_DECODE_ARM_2: &'static str = r##"::decode(&mut slice)
                .map_err(|e| format!("decode failed: {:?}", e))?;
            serde_json::to_value(&val)
                .map_err(|e| format!("failed to serialize: {}", e))?
        }"##;


/// The match arm that decodes a value of the type named `t`, written `type_ref` in Rust.
pub open spec fn spec_rust_decode_arm(t: Seq<char>, type_ref: Seq<char>) -> Seq<char> {
    RUST_DECODE_ARM_0@ + t + RUST_DECODE_ARM_1@ + type_ref + RUST_DECODE_ARM_2@
}

fn rust_decode_arm(t: &str, type_ref: &str) -> (r: String)
    ensures
        r@ == spec_rust_decode_arm(t@, type_ref@),
{
    let mut out = String::new();
    out.append(RUST_DECODE_ARM_0);
    out.append(t);
    out.append(RUST_DECODE_ARM_1);
    out.append(type_ref);
    out.append(RUST_DECODE_ARM_2);
    assert(out@ =~= spec_rust_decode_arm(t@, type_ref@));
    out
}

// The text of `rust_main_text`, between the places where its values go.
pub const RUST_MAIN_TEXT_0: &'static str = r##"
mod generated {
    include!(""##;

pub const RUST_MAIN_TEXT_1: &'static str = r##"");
}

use generated::{"##;

pub const RUST_MAIN_TEXT_2: &'static str = r##"};"##;

pub const RUST_MAIN_TEXT_3: &'static str = r##"
use volex::{Encode, Decode};
use serde_json::{self, json};
use std::io::{self, BufRead, Write};

#[derive(serde::Deserialize)]
#[serde(tag = "cmd")]
enum Request {
    #[serde(rename = "encode")]
    Encode {
        r#type: String,
        json: serde_json::Value,
    },
    #[serde(rename = "decode")]
    Decode {
        r#type: String,
        hex: String,
    },
}

fn encode_type(type_name: &str, json: serde_json::Value) -> std::result::Result<String, String> {
    let mut buf = Vec::new();

    match type_name {
"##;

pub const RUST_MAIN_TEXT_4: &'static str = r##"
        _ => return Err(format!("unknown type: {}", type_name)),
    }

    Ok(hex::encode(&buf))
}

fn decode_type(type_name: &str, hex: &str) -> std::result::Result<serde_json::Value, String> {
    let bytes = hex::decode(hex)
        .map_err(|e| format!("invalid hex: {}", e))?;
    let mut slice = bytes.as_slice();

    let result = match type_name {
"##;

pub const RUST_MAIN_TEXT_5: &'static str = r##"
        _ => return Err(format!("unknown type: {}", type_name)),
    };

    Ok(result)
}

fn main() {
    let stdin = io::stdin();
    let mut stdout = io::stdout();

    for line in stdin.lock().lines() {
        let line = match line {
            Ok(l) => l,
            Err(e) => {
                eprintln!("Failed to read line: {}", e);
                break;
            }
        };

        let req: Request = match serde_json::from_str(&line) {
            Ok(r) => r,
            Err(e) => {
                let resp = json!({
                    "ok": false,
                    "error": format!("invalid request: {}", e)
                });
                writeln!(stdout, "{}", resp).unwrap();
                stdout.flush().unwrap();
                continue;
            }
        };

        let resp = match req {
            Request::Encode { r#type, json } => {
                match encode_type(&r#type, json) {
                    Ok(hex) => json!({ "ok": true, "result": hex }),
                    Err(e) => json!({ "ok": false, "error": e }),
                }
            }
            Request::Decode { r#type, hex } => {
                match decode_type(&r#type, &hex) {
                    Ok(val) => json!({ "ok": true, "result": val }),
                    Err(e) => json!({ "ok": false, "error": e }),
                }
            }
        };

        writeln!(stdout, "{}", resp).unwrap();
        stdout.flush().unwrap();
    }
}
"##;


/// The `main.rs` of the Rust test binary, given its parts.
pub open spec fn spec_rust_main_text(gen_path: Seq<char>, use_types: Seq<char>, use_result: Seq<char>, encode_arms: Seq<char>, decode_arms: Seq<char>) -> Seq<char> {
    RUST_MAIN_TEXT_0@ + gen_path + RUST_MAIN_TEXT_1@ + use_types + RUST_MAIN_TEXT_2@ + use_result + RUST_MAIN_TEXT_3@ + encode_arms + RUST_MAIN_TEXT_4@ + decode_arms + RUST_MAIN_TEXT_5@
}

fn rust_main_text(gen_path: &str, use_types: &str, use_result: &str, encode_arms: &str, decode_arms: &str) -> (r: String)
    ensures
        r@ == spec_rust_main_text(gen_path@, use_types@, use_result@, encode_arms@, decode_arms@),
{
    let mut out = String::new();
    out.append(RUST_MAIN_TEXT_0);
    out.append(gen_path);
    out.append(RUST_MAIN_TEXT_1);
    out.append(use_types);
    out.append(RUST_MAIN_TEXT_2);
    out.append(use_result);
    out.append(RUST_MAIN_TEXT_3);
    out.append(encode_arms);
    out.append(RUST_MAIN_TEXT_4);
    out.append(decode_arms);
    out.append(RUST_MAIN_TEXT_5);
    assert(out@ =~= spec_rust_main_text(gen_path@, use_types@, use_result@, encode_arms@, decode_arms@));
    out
}

// The text of `go_mod`, between the places where its values go.
pub const GO_MOD_0: &'static str = r##"module "##;

pub const GO_MOD_1: &'static str = r##"_testbin

go 1.21

replace github.com/lolserialize/runtime => ../../../lolserialize-go-runtime
"##;


/// The `go.mod` of the Go test binary of a suite.
pub open spec fn spec_go_mod(suite: Seq<char>) -> Seq<char> {
    GO_MOD_0@ + suite + GO_MOD_1@
}

pub fn go_mod(suite: &str) -> (r: String)
    ensures
        r@ == spec_go_mod(suite@),
{
    let mut out = String::new();
    out.append(GO_MOD_0);
    out.append(suite);
    out.append(GO_MOD_1);
    assert(out@ =~= spec_go_mod(suite@));
    out
}

// The text of `go_encode_case`, between the places where its values go.
pub const GO_ENCODE_CASE_0: &'static str = r##"	case ""##;

pub const GO_ENCODE_CASE_1: &'static str = r##"":
		var val "##;

pub const GO_ENCODE_CASE_2: &'static str = r##"
		if err := json.Unmarshal(jsonData, &val); err != nil {
			return "", fmt.Errorf("failed to deserialize: %v", err)
		}
		val.Encode(&buf)"##;


/// The switch case that encodes a value of the type named `t` in Go.
pub open spec fn spec_go_encode_case(t: Seq<char>) -> Seq<char> {
    GO_ENCODE_CASE_0@ + t + GO_ENCODE_CASE_1@ + t + GO_ENCODE_CASE_2@
}

fn go_encode_case(t: &str) -> (r: String)
    ensures
        r@ == spec_go_encode_case(t@),
{
    let mut out = String::new();
    out.append(GO_ENCODE_CASE_0);
    out.append(t);
    out.append(GO_ENCODE_CASE_1);
    out.append(t);
    out.append(GO_ENCODE_CASE_2);
    assert(out@ =~= spec_go_encode_case(t@));
    out
}

// The text of `go_decode_case`, between the places where its values go.
pub const GO_DECODE_CASE_0: &'static str = r##"	case ""##;

pub const GO_DECODE_CASE_1: &'static str = r##"":
		val, err := Decode"##;

pub const GO_DECODE_CASE_2: &'static str = r##"(&bytes)
		if err != nil {
			return nil, fmt.Errorf("decode failed: %v", err)
		}
		return val, nil"##;


/// The switch case that decodes a value of the type named `t` in Go.
pub open spec fn spec_go_decode_case(t: Seq<char>) -> Seq<char> {
    GO_DECODE_CASE_0@ + t + GO_DECODE_CASE_1@ + t + GO_DECODE_CASE_2@
}

fn go_decode_case(t: &str) -> (r: String)
    ensures
        r@ == spec_go_decode_case(t@),
{
    let mut out = String::new();
    out.append(GO_DECODE_CASE_0);
    out.append(t);
    out.append(GO_DECODE_CASE_1);
    out.append(t);
    out.append(GO_DECODE_CASE_2);
    assert(out@ =~= spec_go_decode_case(t@));
    out
}

// The text of `go_main_text`, between the places where its values go.
pub const GO_MAIN_TEXT_0: &'static str = r##"package main

import (
	"bufio"
	"encoding/hex"
	"encoding/json"
	"fmt"
	"os"
)

type Request struct {
	Cmd  string          `json:"cmd"`
	Type string          `json:"type"`
	Json json.RawMessage `json:"json,omitempty"`
	Hex  string          `json:"hex,omitempty"`
}

type TestResponse struct {
	Ok     bool        `json:"ok"`
	Result interface{} `json:"result,omitempty"`
	Error  string      `json:"error,omitempty"`
}

func encodeType(typeName string, jsonData []byte) (string, error) {
	buf := []byte{}

	switch typeName {
"##;

pub const GO_MAIN_TEXT_1: &'static str = r##"
	default:
		return "", fmt.Errorf("unknown type: %s", typeName)
	}

	return hex.EncodeToString(buf), nil
}

func decodeType(typeName string, hexStr string) (interface{}, error) {
	bytes, err := hex.DecodeString(hexStr)
	if err != nil {
		return nil, fmt.Errorf("invalid hex: %v", err)
	}

	switch typeName {
"##;

pub const GO_MAIN_TEXT_2: &'static str = r##"
	default:
		return nil, fmt.Errorf("unknown type: %s", typeName)
	}
}

func main() {
	scanner := bufio.NewScanner(os.Stdin)
	for scanner.Scan() {
		line := scanner.Text()

		var req Request
		if err := json.Unmarshal([]byte(line), &req); err != nil {
			resp := TestResponse{Ok: false, Error: fmt.Sprintf("invalid request: %v", err)}
			respJson, _ := json.Marshal(resp)
			fmt.Println(string(respJson))
			continue
		}

		var resp TestResponse
		switch req.Cmd {
		case "encode":
			result, err := encodeType(req.Type, req.Json)
			if err != nil {
				resp = TestResponse{Ok: false, Error: err.Error()}
			} else {
				resp = TestResponse{Ok: true, Result: result}
			}
		case "decode":
			result, err := decodeType(req.Type, req.Hex)
			if err != nil {
				resp = TestResponse{Ok: false, Error: err.Error()}
			} else {
				resp = TestResponse{Ok: true, Result: result}
			}
		default:
			resp = TestResponse{Ok: false, Error: fmt.Sprintf("unknown command: %s", req.Cmd)}
		}

		respJson, err := json.Marshal(resp)
		if err != nil {
			resp = TestResponse{Ok: false, Error: fmt.Sprintf("failed to serialize response: %v", err)}
			respJson, _ = json.Marshal(resp)
		}
		fmt.Println(string(respJson))
	}
}
"##;


/// The `main.go` of the Go test binary, given its parts.
pub open spec fn spec_go_main_text(encode_cases: Seq<char>, decode_cases: Seq<char>) -> Seq<char> {
    GO_MAIN_TEXT_0@ + encode_cases + GO_MAIN_TEXT_1@ + decode_cases + GO_MAIN_TEXT_2@
}

fn go_main_text(encode_cases: &str, decode_cases: &str) -> (r: String)
    ensures
        r@ == spec_go_main_text(encode_cases@, decode_cases@),
{
    let mut out = String::new();
    out.append(GO_MAIN_TEXT_0);
    out.append(encode_cases);
    out.append(GO_MAIN_TEXT_1);
    out.append(decode_cases);
    out.append(GO_MAIN_TEXT_2);
    assert(out@ =~= spec_go_main_text(encode_cases@, decode_cases@));
    out
}

// The text of `ts_encode_case`, between the places where its values go.
pub const TS_ENCODE_CASE_0: &'static str = r##"    case ""##;

pub const TS_ENCODE_CASE_1: &'static str = r##"":
      const val"##;

pub const TS_ENCODE_CASE_2: &'static str = r##" = convertJsonValue(req.json);
      const buf"##;

pub const TS_ENCODE_CASE_3: &'static str = r##" = new runtime.WriteBuf();
      encode"##;

pub const TS_ENCODE_CASE_4: &'static str = r##"(val"##;

pub const TS_ENCODE_CASE_5: &'static str = r##", buf"##;

pub const TS_ENCODE_CASE_6: &'static str = r##");
      return { ok: true, result: Array.from(buf"##;

pub const TS_ENCODE_CASE_7: &'static str = r##".toUint8Array()).map(b => b.toString(16).padStart(2, '0')).join('') };"##;


/// The switch case that encodes a value of the type named `t` in TypeScript.
pub open spec fn spec_ts_encode_case(t: Seq<char>) -> Seq<char> {
    TS_ENCODE_CASE_0@ + t + TS_ENCODE_CASE_1@ + t + TS_ENCODE_CASE_2@ + t + TS_ENCODE_CASE_3@ + t + TS_ENCODE_CASE_4@ + t + TS_ENCODE_CASE_5@ + t + TS_ENCODE_CASE_6@ + t + TS_ENCODE_CASE_7@
}

fn ts_encode_case(t: &str) -> (r: String)
    ensures
        r@ == spec_ts_encode_case(t@),
{
    let mut out = String::new();
    out.append(TS_ENCODE_CASE_0);
    out.append(t);
    out.append(TS_ENCODE_CASE_1);
    out.append(t);
    out.append(TS_ENCODE_CASE_2);
    out.append(t);
    out.append(TS_ENCODE_CASE_3);
    out.append(t);
    out.append(TS_ENCODE_CASE_4);
    out.append(t);
    out.append(TS_ENCODE_CASE_5);
    out.append(t);
    out.append(TS_ENCODE_CASE_6);
    out.append(t);
    out.append(TS_ENCODE_CASE_7);
    assert(out@ =~= spec_ts_encode_case(t@));
    out
}

// The text of `ts_decode_case`, between the places where its values go.
pub const TS_DECODE_CASE_0: &'static str = r##"    case ""##;

pub const TS_DECODE_CASE_1: &'static str = r##"":
      const bytes"##;

pub const TS_DECODE_CASE_2: &'static str = r##" = req.hex ? new Uint8Array(req.hex.match(/.{1,2}/g)!.map(byte => parseInt(byte, 16))) : new Uint8Array(0);
      const buf"##;

pub const TS_DECODE_CASE_3: &'static str = r##" = new runtime.Buf(bytes"##;

pub const TS_DECODE_CASE_4: &'static str = r##");
      const result"##;

pub const TS_DECODE_CASE_5: &'static str = r##" = decode"##;

pub const TS_DECODE_CASE_6: &'static str = r##"(buf"##;

pub const TS_DECODE_CASE_7: &'static str = r##");
      return { ok: true, result: convertToJson(result"##;

pub const TS_DECODE_CASE_8: &'static str = r##") };"##;


/// The switch case that decodes a value of the type named `t` in TypeScript.
pub open spec fn spec_ts_decode_case(t: Seq<char>) -> Seq<char> {
    TS_DECODE_CASE_0@ + t + TS_DECODE_CASE_1@ + t + TS_DECODE_CASE_2@ + t + TS_DECODE_CASE_3@ + t + TS_DECODE_CASE_4@ + t + TS_DECODE_CASE_5@ + t + TS_DECODE_CASE_6@ + t + TS_DECODE_CASE_7@ + t + TS_DECODE_CASE_8@
}

fn ts_decode_case(t: &str) -> (r: String)
    ensures
        r@ == spec_ts_decode_case(t@),
{
    let mut out = String::new();
    out.append(TS_DECODE_CASE_0);
    out.append(t);
    out.append(TS_DECODE_CASE_1);
    out.append(t);
    out.append(TS_DECODE_CASE_2);
    out.append(t);
    out.append(TS_DECODE_CASE_3);
    out.append(t);
    out.append(TS_DECODE_CASE_4);
    out.append(t);
    out.append(TS_DECODE_CASE_5);
    out.append(t);
    out.append(TS_DECODE_CASE_6);
    out.append(t);
    out.append(TS_DECODE_CASE_7);
    out.append(t);
    out.append(TS_DECODE_CASE_8);
    assert(out@ =~= spec_ts_decode_case(t@));
    out
}

// The text of `ts_main_text`, between the places where its values go.
pub const TS_MAIN_TEXT_0: &'static str = r##"import * as runtime from "volex";
import {
"##;

pub const TS_MAIN_TEXT_1: &'static str = r##"
} from "./generated.js";
import * as readline from "readline";

interface Request {
  cmd: "encode" | "decode";
  type: string;
  json?: any;
  hex?: string;
}

interface Response {
  ok: boolean;
  result?: any;
  error?: string;
}

// Convert JSON value to proper TypeScript types (Objects to Maps for map fields only)
function convertJsonValue(val: any): any {
  if (val === null || val === undefined) return val;
  if (Array.isArray(val)) {
    return val.map(v => convertJsonValue(v));
  }
  if (typeof val === 'object') {
    const result: any = {};
    for (const [k, v] of Object.entries(val)) {
      // For 'values' fields - assume deeply nested maps (e.g., {string: {string: u32}}, [{string: u32}])
      if (k === 'values' && v !== null && typeof v === 'object' && !('$tag' in v)) {
        result[k] = convertMapFieldDeep(v);
      }
      // For 'map' fields or fields ending in '_map' - assume shallow maps (values might be structs)
      else if ((k === 'map' || k.endsWith('_map')) && v !== null && typeof v === 'object' && !('$tag' in v)) {
        if (Array.isArray(v)) {
          result[k] = v.map((elem: any) => convertJsonValue(elem));
        } else {
          result[k] = convertObjectToMapShallow(v);
        }
      } else if (k === '$value' && val.$tag === 'Map' && v !== null && typeof v === 'object' && !Array.isArray(v)) {
        // For unions with tag="Map", convert $value to Map
        // Don't recursively convert values - they might be structs
        result[k] = convertObjectToMapShallow(v);
      } else if (k === '$value' && val.$tag === 'Values' && v !== null && typeof v === 'object' && !('$tag' in v)) {
        // For unions with tag="Values", convert $value deeply (nested maps/arrays of maps)
        result[k] = convertMapFieldDeep(v);
      } else {
        result[k] = convertJsonValue(v);
      }
    }
    return result;
  }
  return val;
}

// Convert a map field value deeply - handles maps, arrays of maps, nested maps, etc.
// This assumes all nested objects are maps (not structs)
function convertMapFieldDeep(val: any): any {
  if (val === null || val === undefined) return val;
  if (Array.isArray(val)) {
    return val.map((elem: any) => convertMapFieldDeep(elem));
  }
  if (typeof val === 'object') {
    return convertObjectToMapDeep(val);
  }
  return val;
}

// Convert a JSON object to a Map, recursively converting nested objects to Maps
function convertObjectToMapDeep(obj: any): Map<any, any> {
  const map = new Map();
  for (const [mk, mv] of Object.entries(obj)) {
    if (mv !== null && typeof mv === 'object' && !Array.isArray(mv) && !('$tag' in mv)) {
      map.set(mk, convertObjectToMapDeep(mv));
    } else if (Array.isArray(mv)) {
      map.set(mk, convertMapFieldDeep(mv));
    } else {
      map.set(mk, convertJsonValue(mv));
    }
  }
  return map;
}

// Convert a JSON object to a Map without recursively converting nested objects
// (used when values might be structs, not nested maps)
function convertObjectToMapShallow(obj: any): Map<any, any> {
  const map = new Map();
  for (const [mk, mv] of Object.entries(obj)) {
    map.set(mk, convertJsonValue(mv));
  }
  return map;
}

// Convert result back to JSON-serializable form (Maps to objects)
function convertToJson(val: any): any {
  if (val === null || val === undefined) return val;
  if (val instanceof Map) {
    const obj: any = {};
    for (const [k, v] of val.entries()) {
      obj[k] = convertToJson(v);
    }
    return obj;
  }
  if (Array.isArray(val)) {
    return val.map(convertToJson);
  }
  if (typeof val === 'object') {
    const result: any = {};
    for (const [k, v] of Object.entries(val)) {
      result[k] = convertToJson(v);
    }
    return result;
  }
  return val;
}

function processRequest(req: Request): Response {
  try {
    if (req.cmd === "encode") {
      switch (req.type) {
"##;

pub const TS_MAIN_TEXT_2: &'static str = r##"
        default:
          return { ok: false, error: `Unknown type: ${req.type}` };
      }
    } else if (req.cmd === "decode") {
      switch (req.type) {
"##;

pub const TS_MAIN_TEXT_3: &'static str = r##"
        default:
          return { ok: false, error: `Unknown type: ${req.type}` };
      }
    } else {
      return { ok: false, error: `Unknown command: ${req.cmd}` };
    }
  } catch (error) {
    return { ok: false, error: String(error) };
  }
}

// Read from stdin line by line
const rl = readline.createInterface({
  input: process.stdin,
  output: process.stdout,
  terminal: false
});

rl.on('line', (line: string) => {
  if (line.trim()) {
    const req = JSON.parse(line);
    const resp = processRequest(req);
    console.log(JSON.stringify(resp));
  }
});
"##;


/// The `main.ts` of the TypeScript test binary, given its parts.
pub open spec fn spec_ts_main_text(imports: Seq<char>, encode_cases: Seq<char>, decode_cases: Seq<char>) -> Seq<char> {
    TS_MAIN_TEXT_0@ + imports + TS_MAIN_TEXT_1@ + encode_cases + TS_MAIN_TEXT_2@ + decode_cases + TS_MAIN_TEXT_3@
}

fn ts_main_text(imports: &str, encode_cases: &str, decode_cases: &str) -> (r: String)
    ensures
        r@ == spec_ts_main_text(imports@, encode_cases@, decode_cases@),
{
    let mut out = String::new();
    out.append(TS_MAIN_TEXT_0);
    out.append(imports);
    out.append(TS_MAIN_TEXT_1);
    out.append(encode_cases);
    out.append(TS_MAIN_TEXT_2);
    out.append(decode_cases);
    out.append(TS_MAIN_TEXT_3);
    assert(out@ =~= spec_ts_main_text(imports@, encode_cases@, decode_cases@));
    out
}

} // verus!
