//! A bytecode virtual machine for the Ethereum Virtual Machine (EVM)
//! instruction set: 256-bit unsigned arithmetic, an instruction table,
//! a fetch/decode/execute loop with a halt and fault model, and a
//! disassembler.

pub mod execution;
