//! A minimal stack-machine bytecode interpreter: 256-bit words with
//! wraparound arithmetic, an operand stack, a zero-filled byte-addressed
//! linear memory, validated jumps, and a fetch-decode-execute loop proved
//! against a specification-level step semantics.

pub mod bytes;
pub mod error;
pub mod evm;
pub mod memory;
pub mod opcode;
pub mod stack;
pub mod word;
