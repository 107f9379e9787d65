# cipr

A small scripting language: a scanner, a recursive-descent parser that
builds an arena of nodes, a static type checker, and a tree-walking
interpreter, written in Verus with their contracts proved.

## Layout

- `src/` — the verified library.
  - `scanner.rs`, `token.rs` — tokens, with a functional specification of
    scanning (`spec_tokens`, `spec_scan_errors`).
  - `parser.rs`, `ast.rs`, `type_syntax.rs` — the parser and the node arena
    (an `id_arena::Arena` behind a small trusted interface).
  - `type_checker.rs` and `type_checker/` — types of nodes, scopes of names
    (`env.rs`) and the growth of the arena while checking (`growth.rs`).
  - `interpreter.rs`, `interpreter/value.rs`, `environment.rs` — run-time
    values, chained scopes that closures keep, and evaluation with a step
    budget; `interpreter/semantics.rs` says what evaluating an expression and
    running a statement give (values, errors, scopes and printed text,
    function calls and loops included), and the interpreter is proved to
    follow it.
  - `native/` — the functions the interpreter provides (`print`, `rand`,
    `size`, `trim`, `split`, `extract`, `hex`, `base64_encode`,
    `base64_decode`), the binding of every native function, and the types
    of all of them. The natives that work with the outside world (files,
    processes, the environment, the clock, the network) stop a run with a
    request; the program that runs the interpreter performs it and hands the
    answer back in `Core::replies` for the next run, which takes the answers
    in order.
  - `diagnostics.rs`, `ast_printer.rs`, `driver.rs` — error reports, a
    printer for trees, and the pipeline from source text to a run.
  - `lowering.rs` — which machine instruction each binary operator becomes
    for code generation, and how a function body ends.
- `app/` — the `cipr` command: files, the prompt, code generation through
  LLVM (inkwell), linking with the C runtime, running the result, and the
  outside-world natives of the interpreter (`natives.rs`).
- `tests/` — end-to-end programs, the scanner's cases, and tests of the
  library's parts and laws.
