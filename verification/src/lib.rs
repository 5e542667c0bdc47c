//! Volex: a schema language for binary serialization, its wire format and its RPC protocol.
pub mod checker;
pub mod codec;
pub mod diagnostics;
pub mod error;
pub mod leb128;
pub mod lexer;
pub mod lsp;
pub mod map;
pub mod message;
pub mod parser;
pub mod rpc;
pub mod schema;
pub mod tester;
pub mod testbin;
pub mod text;
pub mod wire;

pub use codec::{Decode, Encode, WireType};
pub use error::DecodeError;
pub use leb128::{decode_leb128_u64, encode_leb128_u64, zigzag_decode, zigzag_encode};
pub use message::{
    decode_field, decode_presence_bits, decode_tag, encode_field, encode_message_end,
    encode_presence_bits, encode_tag, skip_by_wire_type,
};

use vstd::prelude::*;
use vstd::string::StringSliceAdditionalSpecFns;

use checker::{check, check_ends, check_terminates, spec_check};
use diagnostics::{error_with, errors_view, CompileError, ErrorView, Language};
use lexer::lex;
use parser::{items_end, lex_error, parse, parse_error, schema_read};
use schema::Schema;

verus! {

/// The error reported instead of checking a schema in which validating a map key type would
/// run into a type that contains itself, field by field, without end.
pub open spec fn key_cycle_error() -> ErrorView {
    error_with("a map key type contains itself"@, Seq::empty())
}

/// What checking a parsed schema reports: the checker's errors, or the key cycle error when
/// the checks would not end.
pub open spec fn check_report(s: Schema, language: Language) -> Seq<ErrorView> {
    if check_ends(s, language) {
        spec_check(s, language)
    } else {
        seq![key_cycle_error()]
    }
}

fn checked(schema: &Schema, language: Language) -> (r: Vec<CompileError>)
    ensures
        errors_view(r@) == check_report(*schema, language),
{
    if check_terminates(schema, language) {
        check(schema, language)
    } else {
        let e = CompileError::new(String::from_str("a map key type contains itself"));
        let errs = vec![e];
        assert(errors_view(errs@) =~= seq![key_cycle_error()]);
        errs
    }
}

/// Compile a Volex schema from source code.
///
/// This performs both parsing and semantic checking, returning either a valid schema or the
/// errors found: the first lexical or syntax error, or else every error of the checks.
pub fn compile(src: &str, language: Language) -> (r: Result<Schema, Vec<CompileError>>)
    ensures
        match lex(src.spec_bytes()) {
            Err(e) => r matches Err(errs) && errors_view(errs@) == seq![lex_error(src.spec_bytes(), e)],
            Ok(t) => match items_end(t, 0) {
                Err((p, e)) => r matches Err(errs) && errors_view(errs@) == seq![
                    parse_error(src.spec_bytes(), t, p, e),
                ],
                Ok(_) => match r {
                    Ok(s) => schema_read(src.spec_bytes(), t, s) && check_report(s, language)
                        == Seq::<ErrorView>::empty(),
                    Err(errs) => exists|s: Schema|
                        schema_read(src.spec_bytes(), t, s) && errors_view(errs@) == check_report(
                            s,
                            language,
                        ) && errs@.len() > 0,
                },
            },
        },
{
    let schema = match parse(src) {
        Ok(s) => s,
        Err(errs) => {
            return Err(errs);
        },
    };
    let errors = checked(&schema, language);
    if errors.len() > 0 {
        return Err(errors);
    }
    assert(check_report(schema, language) =~= Seq::<ErrorView>::empty());
    Ok(schema)
}

/// Compile with error recovery, for editors.
///
/// Returns the parsed schema, if the source parses, together with all errors: the syntax
/// error, or the errors of the checks.
pub fn compile_with_recovery(src: &str, language: Language) -> (r: (Option<Schema>, Vec<CompileError>))
    ensures
        match lex(src.spec_bytes()) {
            Err(e) => r.0 is None && errors_view(r.1@) == seq![lex_error(src.spec_bytes(), e)],
            Ok(t) => match items_end(t, 0) {
                Err((p, e)) => r.0 is None && errors_view(r.1@) == seq![
                    parse_error(src.spec_bytes(), t, p, e),
                ],
                Ok(_) => r.0 matches Some(s) && schema_read(src.spec_bytes(), t, s) && errors_view(
                    r.1@,
                ) == check_report(s, language),
            },
        },
{
    match parse(src) {
        Ok(schema) => {
            let errors = checked(&schema, language);
            (Some(schema), errors)
        },
        Err(errs) => (None, errs),
    }
}

/// In TypeScript, a schema with a map, within the type of a struct or message field, whose key
/// type names a union does not compile: its report is never empty, and when the checks end it
/// holds the union key error.
pub proof fn law_union_key_does_not_compile(
    schema: Schema,
    i: int,
    j: int,
    d: schema::Spanned<schema::Type>,
    k: schema::Spanned<schema::Type>,
    v: schema::Spanned<schema::Type>,
    name: String,
)
    requires
        0 <= i < schema.items@.len(),
        match schema.items@[i].node {
            schema::Item::Struct(s) => 0 <= j < s.fields@.len() && schema::part_of(d, s.fields@[j].node.ty),
            schema::Item::Message(m) => 0 <= j < m.fields@.len() && schema::part_of(d, m.fields@[j].node.ty),
            _ => false,
        },
        d.node == schema::Type::Dict(Box::new(k), Box::new(v)),
        k.node == schema::Type::Named(name),
        schema::lookup(schema.items@, name@) matches Some(schema::Item::Union(_)),
    ensures
        check_report(schema, Language::Typescript).len() > 0,
        check_ends(schema, Language::Typescript) ==> check_report(schema, Language::Typescript).contains(
            checker::union_key_error(k, name@),
        ),
{
    checker::law_union_key_reported(schema, i, j, d, k, v, name);
}

} // verus!
