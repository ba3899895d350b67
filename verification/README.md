# gello

Gello is a small dynamically typed scripting language: `let` bindings,
first-class functions with lexical closures, `if`/`while` blocks with their own
scopes, arrays shared by reference, and `print`. This crate is its lexer,
parser and interpreter, verified with Verus.

## Layout

- `src/` — the verified library.
  - `text.rs`: character classes and string helpers.
  - `token.rs`, `lexer.rs`: tokens and the lexer. `tokenize_spec` states the
    lexical grammar; `Lexer::tokenize` computes exactly it.
  - `ast.rs`, `parser.rs`: the syntax tree and the recursive-descent parser.
    `parse_spec` states the grammar; `Parser::parse` computes exactly it.
  - `value.rs`, `environment.rs`: runtime values and the store of lexical
    scopes, with laws relating lookup, `let` and assignment.
  - `interpreter.rs`: the interpreter as a step machine. Each call of
    `Interpreter::step` performs exactly one step of `step_spec`. Arithmetic
    on numbers (IEEE-754 doubles) is not done by the library: the machine asks
    its driver (`NumQuery`) and goes on with the answer.
  - `semantics.rs`: the meaning of a program read recursively, and the proof
    that the machine reaches that meaning.
  - `invariants.rs`: what every step keeps (no dangling scope or array, every
    scope nested in an older one, no name bound twice in a scope).
  - `messages.rs`: the wording of lexical, syntax and runtime error messages.
  - `source.rs`, `session.rs`: running a whole source text line by line, as the
    web playground does, and the lines it shows (`output_lines`).
- `app/` — the REPL and the playground entry point: input and output, and
  the arithmetic and formatting of `f64` numbers.
- `tests/` — tests of the library, driving the machine with real arithmetic.
