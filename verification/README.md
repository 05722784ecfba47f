# oplang

A small compiled language — lexer, parser, semantic analysis, bytecode
generation and a bytecode virtual machine — written in Verus, with each part
stated in `requires`/`ensures` contracts and proved.

## Layout

- `src/text.rs`, `src/span.rs`: byte classes, decimal numerals, source spans.
- `src/lex/`, `src/parse/`: the lexer and the recursive descent parser of the
  language; parse errors become diagnostics and error nodes. The lexer is
  stated token by token (`lex_step`), and the parser by the grammar of
  `src/parse/grammar.rs`, which gives the tree read from any tokens at a
  position and the reports, in order, with their messages and spans.
- `src/lexer/`, `src/parser/`: a lexer and parser for arithmetic expressions,
  the parser stated as a grammar over the tokens it reads.
- `src/analysis/`: name resolution and type checking, each stated by spec
  functions over the tree: the variable of each name, the type of each
  variable and node, the conversions, and the reports in order, each with
  its message and span.
- `src/compiler/`: code generation, stated exactly by spec functions, and the
  whole pipeline from source to chunk: the chunk is the code of the program
  the grammar reads from the lexer's tokens of the source.
- `src/runtime/`: chunks, opcodes, the virtual machine's step (stated by a
  step function over its state) and the listing of a chunk: its
  instructions and its constants (a double's value is written by the
  driver).
- `src/execution.rs`: what running compiled code does.
- `src/diagnostics/`: diagnostics and their layout for the terminal.
- `app/main.rs`: the command line driver: file reading, printing, and the
  arithmetic on doubles that the machine hands to its caller.
