# bums

Symbolic execution of x86-64 assembly for checking memory safety, verified
with Verus.

A program is loaded from the lines of an assembly file: instructions go to
the program, code labels to a label map, and data directives are laid out
in a byte-addressed region `memory` (little-endian, labels resolved where
possible and recorded as relocations where not). Running the program
explores its paths one instruction at a time; every memory read is checked
against the region it falls in by two satisfiability questions (under the
formulas asserted on the machine before the run), and conditional jumps are
pruned when the solver finds one side unsatisfiable. A proved variant of a
multiversioned function must also hand back the callee-saved registers.

## Layout

- `src/` — the verified library.
  - `text`, `strmap` — character sequences and a name-keyed map with a model.
  - `common`, `computer`, `simd`, `arm` — machine values and machine state.
  - `parser` — instruction lines.
  - `loader`, `data`, `numeric`, `layout`, `relocs` — reading a file: code
    and data lines, data directives and their layout, relocations.
  - `access` — the memory-safety check of one access: the formulas to ask,
    and the verdict from the answers.
  - `engine`, `explore`, `run` — the loaded program, one step of a path, and
    the worklist of paths with its branch decisions and final merge.
  - `harness` — regions and registers for the parameters of a function to
    prove, and its invariants.
  - `attr` — the attribute of a multiversioned function, read from its
    tokens.
  - `reading` — the text of an attribute and of a signature, tokenized by
    `proc_macro2` and parsed by `syn` one level at a time, put together
    into tokens, invariant shapes and parameters.
  - `multiversion`, `bad_project`, `good_project` — the variants, entry and
    fallback the attribute gives, choosing among proved assembly variants at
    run time, and the Rust fallbacks.
- `app/` — the command line, the Z3 side of a run, and the run-time
  wrappers that call assembly.
- `tests/` — tests of the library.

The satisfiability questions are answered outside the library (by Z3 in
`app/`); the library states what it asks and what it does with each answer.
