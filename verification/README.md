# volex

Volex is a schema language for compact binary serialization, with a wire format and an RPC
protocol on top of it. This crate holds the schema compiler (lexer, parser, checker), the
runtime encoding, the RPC framing and the language-server logic, with their behaviour stated
as Verus contracts and proved.

## Layout

- `src/` — the verified library.
  - `lexer.rs`, `parser.rs`: the lexical grammar and the grammar of schemas, as spec
    functions, and the executable lexer and recursive-descent parser proved against them.
  - `checker.rs`: the semantic checks (duplicate definitions, names and indices, type
    references, map key types), stated as the list of errors a schema has, and the law that a
    schema without errors defines each name once and numbers its items consistently.
  - `schema.rs`, `diagnostics.rs`: the schema tree and compile errors.
  - `leb128.rs`, `codec.rs`, `map.rs`, `message.rs`, `wire.rs`, `error.rs`: the wire format —
    LEB128 and zigzag integers, the `Encode`/`Decode` traits with round-trip lemmas, maps as
    their entries, field tags, presence bits and skipping unknown fields.
  - `rpc.rs`: RPC frames, their parsing, the decisions of the packet client and server, the
    HTTP framing and the streaming length prefix, with round-trip laws for each frame kind.
  - `lsp.rs`: positions and offsets, lookups at a position, references, renames, hover text,
    renumbering and diagnostics for the language server.
  - `tester.rs`: the decisions of the cross-language test runners: which cases and pairs
    run, how an encoding is judged, the tally and verdict of a suite, and the type names of a
    suite in order, each once.
  - `testbin.rs`: the text of the encoding suites' test programs, in Rust, Go and TypeScript,
    for a suite's type names.
  - `text.rs`: decimal numbers, string equality and the byte order of strings.
- `tests/`: tests of the library on concrete values.
- `app/`: the command-line compiler, the language server loop, the async RPC runtime and the
  test runner with its test binaries, and the RPC tester with its harnesses, which do the I/O
  around the library.
