# lightbeam_backend

A streaming code generator from WebAssembly to x86-64, verified with Verus.

The generator makes one pass over a function. It keeps track of where each value of the
WebAssembly stack is (in a register, on the machine's stack, or known as a constant) and emits
instructions as it goes.

- `src/session.rs` compiles the functions of a module and puts the code section together;
  `src/context.rs` is the generator for one function. Its operators stand in `arith`, `compare`,
  `shift`, `division`, `memory`, `float`, `blocks`, `branches` and `calls`.
- `src/registers.rs` hands out registers, `src/location.rs` holds the calling convention, and
  `src/labels.rs` says which labels code may define.
- `src/state.rs` describes every step of the generator as a function on its state. The contract of
  each operator says that it takes exactly this step, and its `requires` that the step is possible.
- `src/machine.rs` is a model of the instructions. `src/ownership.rs` and `src/simulation.rs` relate
  the state of the generator to the state of the machine, and `src/laws/` proves what the generated
  code computes.
- `app/` assembles the instructions with `dynasm`, reports relocations and folds floating-point
  constants.
- `tests/` runs generated code on an interpreter and looks at the instructions.
