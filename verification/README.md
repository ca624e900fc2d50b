# come

The back end of the come compiler, verified with Verus: structuring control flow for
WebAssembly, assigning registers and emitting RISC-V assembly for single statements, and the
first passes of the RISC-V assembler with the instruction templates and parameter encodings it
uses.

- `src/` is the library. Every function there has a contract that Verus proves, but for one
  wrapper of `String::push`, whose contract is trusted.
  - `control_flow`, `fold`, `flow`, `flow_loops`: control flow trees, selectors into them, and
    folding loops and `if`/`else` branches into nested blocks.
  - `register_assign`, `register_groups`, `register_allocation`: grouping logical registers
    that can share one place and giving each group hardware registers or stack slots.
  - `emit`: assembly code for returns, built-in calls, unary and binary calculations, loads,
    stores, branches, jumps and phi constants.
  - `assembly`, `section`, `lines`, `number_text`: reading assembly text into lines and
    expanding `li`.
  - `transform`, `template`, `template_text`, `param`: how instruction parameters are laid out
    in binary form, rendered and read back.
  - `simple_instruction`: named templates and instructions whose parameters may wait for a
    symbol, placed at an offset in a section.
  - `clef`: the symbols of the object format and how they are shown.
- `tests/` runs the library on concrete values.
- `app/` is `road`, the build tool that drives the compiler, assembler and linker programs.
