//! A minimal stack-based bytecode virtual machine.
//!
//! The library decodes a textual disassembly listing into a typed
//! instruction sequence and executes that sequence against an operand
//! stack and a local-variable slot array, producing a single return
//! value. Decoding and execution are both specified by mathematical
//! models (`decode::decode_spec`, `engine::run_program`) and the
//! executable functions are proved to agree with them exactly.

pub mod decode;
pub mod engine;
pub mod instr;
