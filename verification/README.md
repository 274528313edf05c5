# MoonRust

MoonRust runs a subset of Lua: it parses a program into a syntax tree and
executes the tree. The library in `src/` is written in Verus; its parser and
interpreter carry contracts that Verus proves.

## Layout

- `src/ast.rs` — the syntax tree and its printed form.
- `src/text.rs` — small text helpers (characters, integer text, trimming).
- `src/parser.rs`, `src/parser/` — a recursive-descent parser over the
  characters of the program: white space and comments, names and keywords,
  numerals and strings (`util`), expressions with Lua's precedence and
  associativity (`expression`), prefix expressions, calls, tables and
  function bodies (`common`), and statements (`statement`).
- `src/interpreter.rs` — values, tables and the heap that holds scopes,
  tables, functions, printed lines and input lines.
- `src/interpreter/environment.rs` — scopes, the local stack, closures'
  captured scopes, and the laws on how names are read and bound.
- `src/interpreter/ops.rs` — integer arithmetic, comparison and bit
  operations, with the errors they raise.
- `src/interpreter/expression.rs` — evaluation of expressions and calls,
  and the built-in functions `print`, `read` and `random`.
- `src/interpreter/statement.rs` — execution of statements and blocks.
- `src/interpreter/float.rs` — the trait through which the host supplies
  floating-point arithmetic.
- `app/main.rs` — the command line program: reads a file, parses it, runs it
  with floats from the host, and prints what the program printed.

Execution takes a step budget; running out of steps ends the program with
an error, so every evaluation terminates.

`print` shows a table or a function the way Lua shows an address: `0x`
and hexadecimal digits. The heap keeps tables and functions in arenas and
hands out no machine addresses, so the digits are made from the value's
slot (distinct for every table and every function).
