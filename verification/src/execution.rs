//! The execution engine: the 256-bit integer type, the execution state
//! (stack, memory, storage, ROM), and the instruction table with its
//! fetch/decode/execute loop.

pub mod instructions;
pub mod program_context;
pub mod types;
