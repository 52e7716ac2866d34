# nakala

A small typed scripting language: its lexer, symbol table and type-checking
parser, verified with Verus, and the `nak` command around them.

## Layout

- `src/` — the verified library.
  - `lexer` — splits a text into tokens by longest match (`tokenize`, `Lexer`).
    The kinds of the bracket characters keep the names the language has always
    given them: `(` is `RightParen`, `)` is `LeftParen`, `{` is `RightBrace`
    and `}` is `LeftBrace`. Groups, calls, parameter lists and blocks are
    written as usual, `(…)` and `{…}`: the parser opens them with the kind of
    `(` and `{`.
  - `span`, `source` — byte spans, and a source with a cursor over its tokens.
  - `types`, `type_check` — static types, their compatibility and how messages
    write them.
  - `ast` — the typed syntax tree.
  - `symtab` — scopes of symbols.
  - `grammar` — what the parser computes, as spec functions over token
    sequences; `parser` — the parser, whose results are proved equal to them;
    `reads` — how far each step reads.
  - `error` — the parse errors.
  - `compiler` — the C++ prelude of generated programs; `codegen` — the C++
    code of a parsed program, as text and float literals.
  - `value` — how the interpreter orders its values (by kind, then content);
    `env` — the interpreter's scopes and bindings (define, get, assign).
  - `precedence` — the binding powers of the arithmetic operators.
- `app/` — the `nak` command: reads `.nak` files or a prompt, parses, and
  reports errors with source excerpts; the C++ code generator's writing of
  float literals as the numbers they denote.
- `tests/` — tests of the library.

## What is proved

Among others: the tokens of a text spell it and their spans tile it; a lookup
after a declaration finds it, and leaving a scope restores the table; a
successful parse reads every token, keeps the number of scopes, forgets no
declared name, leaves each top-level declaration in the innermost scope, and
declares new names only in the innermost scope (below it, each scope keeps
its names and their kinds of symbol, `scopes_keep`), leaves a declared
function findable as a function of its arity (`function_declared`), and
gives a tree whose every expression and statement obeys the type rules
(`well_typed`, `stmt_well_typed`); every parsing step that succeeds reads
input (`reads`); and each parse result or error is exactly
the one that `grammar` describes. Where `grammar` says the parser halts (an
integer literal that does not fit in 64 bits, or a symbol that its own
declarations should have left in the table), `parse_checked` gives `None`,
and only there.
