# evalrus

A small Lisp-like language: a lexer and parser for s-expressions, a compiler
from s-expressions to register byte code, and a virtual machine that runs it,
all over a managed memory of pairs, symbols, byte code and functions. The
library is written in Verus, and each of its functions carries a contract
that Verus proves.

## Layout

- `src/` the verified library
  - `lexer`, `parser`: text to tokens to values, against spec functions
    `spec_tokenize` and `spec_parse`
  - `memory`, `pair`, `function`, `symbolmap`, `array`, `rawarray`: the
    managed memory, an append-only table of objects whose addresses only
    ever point back to older objects, and the symbol table that interns names
  - `printer`: values to text; `roundtrip` proves that printed values parse
    back to themselves
  - `dict`: the open-addressing hash table of global bindings, hashing
    symbol names with FNV-1a
  - `bytecode`, `compiler`: byte code and the compiler, against `spec_compile`
  - `vm`: the machine, against a step function `spec_step` over a model state
  - `repl`: one read-eval-print step, answering a line with the text to show
  - `error`: errors, and showing them in the context of the source
- `tests/` tests of the library
- `app/` the command line: a read-eval-print loop with line editing and
  history
