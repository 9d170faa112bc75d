# simtpu

A cycle-aware simulator of a configurable tensor processing unit, written in
Verus: the executable code is proved against its specifications.

## Layout

- `src/` — the verified library.
  - `word.rs` — fixed-width words with wrap-around arithmetic, the datapath's
    number model.
  - `types.rs` — the hardware configuration the simulator is built for
    (array 2×2, 1024-word vector memory, `i8` activations, `i32` partial sums).
  - `text.rs` — whitespace, lines, comments and integer literals as Rust's
    `str` methods read them.
  - `isa.rs`, `isa/codec.rs`, `isa/define.rs` — the instruction set: operand
    encoding, instruction encoding and decoding, reading assembly lines.
  - `assembler.rs` — assembly text to program binary.
  - `program.rs` — reading a program binary.
  - `hardware/` — processing element, systolic array, weight queues, skew and
    accumulator buffers, bias and activation units, vector memory.
  - `config.rs` — validation of a hardware configuration.
  - `simulator.rs` — running a program.
- `tests/` — tests of the library.
- `app/` — the command-line program: file I/O, YAML configuration, error
  messages.

## What is proved

Besides the contract of every function, the library proves: decoding the
machine code of an instruction gives it back; a program assembled and then
read back holds the instructions and data of its source, when its machine
code and each of its data sections are shorter than 2^32 bytes (the binary
format stores their lengths in 32 bits); weight queues are first-in
first-out; skew-buffer lane `i` lags by `i` loads and the accumulator buffer
de-skews to a uniform delay, idle cycles between loads moving nothing;
weights shift down the array while loading, leaving activations and partial
sums in place, and while computing each element holds the wrapped dot
product of its column's weights with the activations that reached it; a
vector-memory read returns what was written.
