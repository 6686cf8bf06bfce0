# minicc

The front end of a small C compiler, verified with Verus: a tokenizer over the `clex` lexer, a
recursive-descent parser for a C subset (expressions with `+ - * / == != < <= > >= =`, unary
`+`/`-`, parentheses, local variables, and `return`, `if`/`else`, `for`, `while` and block
statements) and a text dump of the parsed syntax tree (loops are parsed but have no dump).

Layout:

- `src/utils.rs`: `Mbox`, a nullable owning pointer.
- `src/tokenize.rs`: tokens, and the tokenizer that turns `clex` lexemes into tokens.
- `src/ast.rs`: syntax-tree nodes, locals, functions and the parser state.
- `src/parse.rs`: the grammar as spec functions, and the parser proved against it.
- `src/dump.rs`: the dump format as spec functions, and the dump proved against it.
- `src/laws.rs`: properties over all inputs: what the tokens of a text are; that the parser only
  reads forward, appends locals at offset 0 in the order of their tokens, never reads past an
  end-of-input token and builds complete block trees;
  how some rules relate (`expr` is `assign`, `>` swaps into `<`, a unary `+` adds no node, the
  shape of `while` and `for` loops); that what the parser builds dumps in full unless it holds a
  `for` or `while` loop, which the dump does not print; and how the dump of a block and the
  indentation of a dump behave.
- `app/main.rs`: reads `hello.cxx`, parses it and prints the dump.
