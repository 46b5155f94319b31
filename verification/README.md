# orbit

The front end and code generator of Spaceship, a statically typed systems
scripting language compiled to LLVM IR. The lexers, parsers and runtime-library
functions are proved against exact specifications; for the lowering to LLVM,
the proofs cover which constructs lower, the variables bound and the functions
a module gains, while the LLVM objects built are trusted to `inkwell`.

The library under `src/` is verified with Verus:

- `lexer`: the main tokenizer, specified as a function of the text
  (`tokens_from`); tokens carry their line and column, comments and blanks are
  skipped, and a line break after a token that can end a statement reads as `;`.
- `compiler`: the recursive-descent parser from tokens to `ast` statements,
  specified by a grammar over token sequences, with structured parse errors.
- `ast`: the statement and expression trees, and their lowering to LLVM.
- `frontend`: a second, smaller lexer and parser producing `frontend::ast` nodes.
- `codegen`: the code generator's state (`Compiler`) and the `inkwell` calls it
  makes (`codegen::llvm`, whose contracts are trusted).
- `engine`, `passes`: the JIT engine, the native target machine and the
  function pass manager.
- `stdlib`: the decisions of the runtime library: path joining, extension and
  normalisation over byte strings, argument checks for the environment
  functions, and file metadata as plain values.

- `runtime`: which command and arguments the process-spawning entry point runs.

`app/` holds the program and the parts that touch the operating system: the
file and environment functions, `stat`, and the process-spawning runtime entry
point that compiled programs call.
