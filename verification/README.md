# tricore_rs

A TriCore (TC1.6.2 subset) toolkit whose logic is proved with Verus: an
instruction decoder, an interpreter core, a disassembler, a control-flow
analysis of raw images, a small assembler, and the state machine and pane
contents of an interactive viewer.

## Layout

- `src/` — the verified library.
  - `bits`, `decoder`, `isa/tc16`: bit fields and the 16/32-bit decoder.
  - `memory`, `cpu`, `exec`: the bus, the processor state and the
    instruction semantics, with laws on traps, stores and the program counter.
  - `disasm`: the text of decoded instructions.
  - `model`, `analyze`, `report`: raw images, the reachability analysis, and
    the blocks, functions, labels and listings built from it.
  - `text`, `syntax`, `assembler`: number parsing, the assembly grammar and
    the encoder, with round-trip laws between encoding and decoding and
    laws on program size and label placement.
  - `viewer`, `screen`, `graph`: the viewer's transitions (message in, state
    and job out), the text of its panes, and the layered graph layout.
- `tests/` — tests of the library on concrete values.
- `app/` — the command line around the library: running binaries,
  disassembling and analysing, assembling, and a windowless viewer that
  performs the viewer's jobs (file access, analysis) and prints its panes.
