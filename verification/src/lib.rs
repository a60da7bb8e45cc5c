//! A compiler for the C0 language: front end, SSA intermediate representation,
//! optimizations and an x86-64 back end.

pub mod text;
pub mod arith32;
pub mod assoc;
pub mod ast;
pub mod function_context;
pub mod symbol_table;
pub mod semantics;
pub mod ir;
pub mod cfg;
pub mod lattice;
pub mod codegen;
pub mod x86asm;
pub mod regalloc;
pub mod x86ctx;
pub mod x86codegen;
pub mod lexer;
pub mod strength_reduction;
pub mod tail_call_elim;
pub mod adce;
pub mod copy_prop;
pub mod cfg_simp;
pub mod control_flow_simp;
pub mod x86text;
pub mod args;
pub mod ir_text;
pub mod liveness;
pub mod interference;
pub mod spill;
pub mod llvm;
pub mod ast_text;
pub mod sccp;
pub mod alias;
pub mod licm;
pub mod sroa;
