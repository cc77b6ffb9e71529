# rusted_engine

The statement parser of a small SQL-like database shell, verified with Verus.

- `src/text.rs`: character classes, text building, decimal numerals, trimming.
- `src/types.rs`: values, column types, operators, commands, and their views.
- `src/lexer.rs`: the token grammar (`lex`) and the tokenizer that meets it.
- `src/parser.rs`: the statement grammar (`command_of`, `parse_spec`) and the parser.
- `src/laws.rs`: properties of the language as a whole.
- `app/main.rs`: the interactive shell around `parse`.
