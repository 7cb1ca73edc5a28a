//! TriCore TC1.6.2 decoder, interpreter core, disassembler, control-flow
//! analysis, assembler and viewer logic, with their contracts checked by Verus.
pub mod analyze;
pub mod assembler;
pub mod bits;
pub mod cpu;
pub mod decoder;
pub mod disasm;
pub mod exec;
pub mod graph;
pub mod instructions;
pub mod isa;
pub mod memory;
pub mod model;
pub mod report;
pub mod screen;
pub mod syntax;
pub mod text;
pub mod viewer;

pub use cpu::{Cpu, CpuConfig, Trap};
pub use memory::{Bus, LinearMemory};
