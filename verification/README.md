# llmlang

The front end and analyses of llmlang, a token-dense prefix-arity language,
as a Verus-verified library, with the command-line compiler, the LLVM
backend and the MCP language server around it.

## Layout

- `src/` — the verified library.
  - `compiler/lexer.rs`, `compiler/grammar.rs`, `compiler/parser.rs`,
    `compiler/router.rs`, `compiler/signature.rs`: tokens, the grammar as
    spec functions, and the parser proved against it.
  - `compiler/ast/`: the syntax tree and the pretty printer.
  - `compiler/reparse.rs`: printed expressions and modules parse back to
    what was printed.
  - `compiler/analysis/`: purity, complexity, calls, structural
    fingerprints, pointer-returning expressions, dead-code elimination and
    the affine ownership analysis (`verify.rs`).
  - `compiler/codegen/symbol.rs`: the decisions of code generation that do
    not need LLVM — name mangling and resolution, signature files, pointer
    inference over a module, field slots, the checks run before a function
    is emitted.
  - `index.rs`: the codebase index behind the language server.
  - `testing.rs`: test discovery, the dispatcher `main` and the result
    protocol of the test harness.
  - `text.rs`: character and string helpers.
- `tests/` — tests of the library.
- `app/` — the `llmlang` command (compiler, `test`, `mcp-server`), the
  LLVM backend built on inkwell, the file-system signature resolver and the
  serde forms of the library's data.
