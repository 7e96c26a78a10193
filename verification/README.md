# mining

A compiler front end for MinING, a small teaching language with global
variables, declarations (scalars, arrays, constants of type INTEGER, FLOAT or
CHAR) and instructions (assignments, IF/ELSE, FOR, READ, WRITE).

The library in `src/` is written in Verus; every function carries a contract
that Verus proves:

- `lexer`: source text to tokens by longest match (`tokenize`, `Lexer`);
- `productions` and `parser`: the grammar as functions on token sequences,
  and a recursive-descent parser proved to read exactly what the grammar says;
- `symbol_table`, `type_checker`, `semantics`, `semantic_rules`,
  `semantic_analyzer`: what semantic analysis means, and the analyzer proved
  against it;
- `quadruplets`: intermediate code with numbered temporaries;
- `code_generator`: C source text for a program;
- `table_format`: the printed form of the symbol table.

Semantic analysis fills the symbol table itself: the grammar leaves it empty,
and the analyzer enters each declared name with its type, its constness, the
size of an array and the value an initialized declaration gives it. A name
declared twice is refused. A declaration that fails enters nothing, and the
table keeps what the declarations before it entered. Instructions are checked
against the table (declared names, constness, types, array bounds) and never
change it: an assignment records no value.

Floating-point values are kept as written; the library does no
floating-point arithmetic.

`app/` holds the command-line driver (file reading, coloured output) and the
Cranelift JIT back end, which are not verified. `tests/` holds the tests.
