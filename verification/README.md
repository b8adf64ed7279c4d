# marin

The front and back ends of the Marin compiler as a verified library: the
syntax tree and its parser, the scopes, entities and types of the checked
program, the lowered program and the bytecode builder that emits it, and the
bytecode file format with its reader and writer.

- `src/binary/`: the bytecode format: opcodes, values, the constant pool,
  the function table, and the whole file, each written and read back.
- `src/com/`: the compiler: tokens, spans, the parser, reports, scopes, the
  file tree, the intermediate program and the emitter.
- `app/`: what touches the outside world: reading source files, printing
  reports through `codespan-reporting`, and the disassembler.
- `tests/`: tests run against the compiled library.
