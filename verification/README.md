# kingcobra

An interpreter for Kingcobra, a small scripting language with `let`, functions,
`when`/`otherwise`, `while`, arrays, hashes, classes and imports, written in Verus.

## Layout

- `src/` is the verified library.
  - `token.rs`, `lexer.rs`: tokens, and the lexer together with `next_token_at`, the
    tokenizer written as a function on characters that the lexer is proved to follow.
  - `ast.rs`, `grammar.rs`, `parser.rs`: the syntax tree, the grammar as spec functions over
    the token stream (a Pratt parser with the same binding strengths), and the parser proved
    to build exactly what the grammar describes, error messages included.
  - `object.rs`, `environment.rs`: runtime values with their printed form, hashes, and
    scopes kept in an `EnvHeap` and named by number.
  - `semantics.rs`, `evaluator.rs`, `builtins.rs`: the meaning of programs as a
    definitional interpreter, and the evaluator proved to compute it.
  - `host.rs`, `replay.rs`: the requests for outside work and their replies, and the proof
    that running a program again with a longer reply log changes nothing but what the new
    replies answer.
  - `fuel.rs`: the proof that more fuel changes no run that did not run out, and the laws of
    evaluation that compare two runs (errors in sub-terms, `when`, `let`, blocks).
  - `repl.rs`: the decisions of the read-eval-print loop for one line.
  - `debug.rs`: how error messages write a value out, with the contents of the scopes it
    refers to read from the heap.
  - `text.rs`: characters and strings: decimal digits, whitespace trimming, letters.
- `tests/` runs the library on concrete programs.
- `app/` is the command line program: it runs a file or a read-eval-print loop, and does the
  outside work (printing, files, the clock, imports) that evaluation asks for.

## How outside work is done

Evaluation never touches the outside world. Where a builtin such as `print` or
`read_file`, or an `import`, needs outside work, the evaluator looks for the next unused
reply in a log that it is given; when there is none, it stops with a `HostRequest`. The
program in `app/` performs the request, adds the reply to the log, and evaluates the program
again from the state it started in. `replay.rs` proves that this is sound: a run with a
longer log takes the same steps as before up to the new reply.

Integer overflow stops evaluation with `Outcome::Crash`, carrying the message with which
Rust's checked arithmetic panics; the program in `app/` panics with it.
