# c0mpile

A compiler for the C0 language, written in Verus. The library in `src/` holds the
compiler's logic with contracts that Verus proves; `app/` holds the command-line
driver (argument handling, files, timing).

## Pipeline

- `lexer`: tokens of a source file.
- `semantics`, `symbol_table`, `function_context`: the type checker, which annotates
  expressions with their types and checks that functions return and that variables
  are defined before use.
- `codegen`, `ir`: translation of the checked program to an SSA intermediate
  representation of basic blocks, with phi nodes built on the fly.
- IR passes: `cfg_simp` and `control_flow_simp` (control-flow simplification), `sccp`
  and `lattice` (sparse conditional constant propagation), `copy_prop`, `adce`,
  `tail_call_elim`, `sroa` and `alias` (forwarding through allocations), `licm`
  (preheaders and the purity test of loop instructions).
- `llvm`: LLVM IR text of a program.
- x86-64 back end: `regalloc` (colors), `liveness`, `interference`, `spill` (stack
  slots of spilled temporaries), `x86ctx` and `x86codegen` (instruction selection,
  prologue, calls, runtime checks), `strength_reduction` (peephole rewrites),
  `x86asm` and `x86text` (assembly and its text).

## Checking

Without `-u`, memory accesses are checked against null, shifts against their range and
divisions against zero and overflow; a failed check jumps to a trap handler
(`.L_memerror`, `.L_sigfpe`, `.L_abort`).
