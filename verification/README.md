# lib — a verified core of a JavaScript/Flow parser

The parser reads a sequence of tokens (ending with an `eof` token) and builds
syntax-tree nodes, reporting diagnostics as it goes. Every executable
function states what it returns, where it leaves the token cursor and which
diagnostics it adds, in terms of spec functions over the token sequence.

Layout of `src/`:

- `token_kinds.rs` — token kinds, reserved words, binary-operator precedence.
- `lexer.rs` — the token cursor (`JSLexer`) and its abstract state.
- `js/mod.rs` — the parser state, diagnostics, and the shared token tests.
- `js/expressions.rs` — the syntax-tree nodes, operands, unary and postfix
  expressions, binary expressions parsed by precedence climbing, and
  property names.
- `js/assignment.rs` — conditional expressions, assignment chains, and
  arrow function parameters read from a cover expression.
- `js/precedence.rs` — the tree a binary expression stands for, the
  diagnostics for mixing `??` with `&&`/`||`, and the laws about both.
- `js/classes.rs` — token tests for class-element modifiers, and the
  rules class methods and properties must follow.
- `js/flow/types.rs` — Flow type annotations and generic types.
- `js/flow/params.rs` — type-parameter declarations and `implements` entries.
- `js/flow/function_types.rs` — function, hook and parenthesized types,
  their parameters, method signatures, return types with type guards, and
  `%checks` predicates.
- `js/flow/object_types.rs` — object types and their members (properties,
  methods, accessors, indexers, mapped types, call properties, internal
  slots and spreads).
- `js/flow/declarations.rs` — `component`/`hook`/`record` tests, `enum`
  declarations, type aliases, interfaces, records, Flow declarations,
  `declare` statements (classes, functions, hooks, variables, exports),
  and render types.
- `js/flow/match_.rs` — the start of a `match`, and match patterns.
- `js/flow/mod.rs` — remaining Flow token tests and `record` expressions.

The tests under `tests/` split a source text written with blanks between
tokens into tokens and check the parser's results on concrete inputs.
