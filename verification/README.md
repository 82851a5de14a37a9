# apexforge

The ApexForge NightScript (AFNS) toolkit as a verified Rust library: the
ApexLang lexer, parser and syntax tree, its number-theory, bit, fraction,
memory-buffer, network and text-format functions, the AFNS syntax tree with
its LLVM code generator and interpreter decisions, the binary value format,
and the AFNS standard library types (collections, option and result,
e-mail, URL and MAC address types, memory pool, smart pointers, Flutter
widgets). Every function in `src/` carries a contract that Verus proves.

Layout:

- `src/apexlang/` — ApexLang: lexer, grammar and parser, inline assembly,
  the number and bit natives, fractions, CSV, XML, Base64, the binary value
  format, TOML numbers, memory buffers and IPv4 helpers, and the variable
  scopes of a running ApexLang program.
- `src/ast.rs`, `src/codegen.rs`, `src/interpreter.rs` — the AFNS syntax
  tree, its LLVM IR generator and the interpreter's value semantics.
- `src/forge/` — the AFNS standard library types; big integers go through
  num-bigint behind small trusted wrappers in `src/forge/math.rs`.
- `src/text.rs` — text helpers shared by the modules.
- `tests/` — tests against concrete values.
- `app/` — the `afpm` command line and the runtime around the library:
  the ApexLang and AFNS interpreters' walking, printing and the native
  function tables.
