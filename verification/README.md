# lex

A Lox interpreter as a verified library: a scanner, a recursive-descent
parser, a resolver and a tree-walking interpreter, plus the start of a
bytecode machine. The library in `src/` is verified with Verus; `app/` is the
command line around it (argument parsing, files, the prompt, and the
floating-point number type the interpreter computes with).

- `scanner` turns source text into tokens; `scan` is its exact
  specification.
- `grammar` states, as functions from where parsing stands to where it
  stands afterwards, what each construct of the grammar reads, which ids it
  hands out and which syntax errors it records; `parser` is proved to
  follow it exactly, and every variable reference, assignment, `this` and
  `super` gets a fresh id.
- `resolution` states what resolving finds: for each local reference, how
  many scopes out its binding lives, or the first misplaced `return`,
  `this` or `super`, variable read in its own initializer or second
  declaration; `resolver` is proved to follow it exactly.
  Resolving a statement keeps the scopes around it
  (`law_resolving_keeps_outer_scopes`).
- `interpreter` runs statements over an arena of environment frames and
  instances. Numbers are left to a type implementing `LoxNumber`, whose
  operations give what its spec functions name. `eval_spec`, `exec_spec`
  and `block_spec` say what expressions and statements do to the frames and
  instances and what they print: variables, arithmetic, comparison,
  equality (instances and classes by content), blocks, `if`, `while`,
  functions and closures, `return`, classes, instances, fields, methods,
  initializers and `super`. `eval_fail`, `exec_fail` and `block_fail` say
  with which runtime error a program stops, and what it left and printed
  before. `interpret` is proved to follow both.
- `environment` holds the frames; reading a variable gives back what was
  last defined or assigned.
- `cli` runs a source text as the command line does: lists its tokens,
  prints its AST, or runs it. Syntax errors are reported and the
  declarations that were read still run. `program_outcome` ties the three
  stages together: what a run prints, which syntax errors it reports and
  how it ends, from the tokens on.
- `bytecode` holds chunks of bytecode, their disassembly and the machine that
  runs them.
