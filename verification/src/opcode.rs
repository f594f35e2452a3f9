//! The opcode decoder: a pure function from the program bytes and a
//! counter position to a decoded instruction and its consumed byte width.

use vstd::prelude::*;

verus! {

/// A decoded instruction. PUSH, DUP and SWAP carry their `n`; a byte with
/// no defined instruction is reified as `Unknown`, deferring the failure
/// decision to the interpreter.
#[allow(non_camel_case_types)]
#[derive(Clone, Copy, Debug, PartialEq, Eq, Structural)]
pub enum Opcode {
    STOP,
    ADD,
    MUL,
    SUB,
    MLOAD,
    MSTORE,
    JUMP,
    JUMPI,
    JUMPDEST,
    PUSHn(usize),
    DUPn(usize),
    SWAPn(usize),
    Unknown(usize),
}

/// The decoding table: the instruction at byte offset `pc` of the program
/// and the number of bytes it occupies there. Jump instructions report a
/// width of zero, since they set the counter themselves; an offset at or
/// past the end of the program decodes as STOP.
pub open spec fn spec_decode(codes: Seq<u8>, pc: int) -> (Opcode, usize) {
    if !(0 <= pc < codes.len()) {
        (Opcode::STOP, 1usize)
    } else {
        let op = codes[pc];
        if op == 0x00 {
            (Opcode::STOP, 1usize)
        } else if op == 0x01 {
            (Opcode::ADD, 1usize)
        } else if op == 0x02 {
            (Opcode::MUL, 1usize)
        } else if op == 0x03 {
            (Opcode::SUB, 1usize)
        } else if op == 0x51 {
            (Opcode::MLOAD, 1usize)
        } else if op == 0x52 {
            (Opcode::MSTORE, 1usize)
        } else if op == 0x56 {
            (Opcode::JUMP, 0usize)
        } else if op == 0x57 {
            (Opcode::JUMPI, 0usize)
        } else if op == 0x5B {
            (Opcode::JUMPDEST, 1usize)
        } else if 0x60 <= op && op <= 0x7F {
            (Opcode::PUSHn((op - 0x60 + 1) as usize), (op - 0x60 + 2) as usize)
        } else if 0x80 <= op && op <= 0x8F {
            (Opcode::DUPn((op - 0x80 + 1) as usize), 1usize)
        } else if 0x90 <= op && op <= 0x9F {
            (Opcode::SWAPn((op - 0x90 + 1) as usize), 1usize)
        } else {
            (Opcode::Unknown(op as usize), 1usize)
        }
    }
}

impl Opcode {
    /// Decode the instruction at byte offset `pc` of the program, together
    /// with its consumed width, exactly as the decoding table gives them.
    /// A pure function: it mutates nothing and raises no error.
    pub fn from_byte(codes: &[u8], pc: usize) -> (r: (Opcode, usize))
        ensures
            r == spec_decode(codes@, pc as int),
    {
        if pc >= codes.len() {
            return (Opcode::STOP, 1);
        }
        let op = codes[pc];
        if op == 0x00 {
            (Opcode::STOP, 1)
        } else if op == 0x01 {
            (Opcode::ADD, 1)
        } else if op == 0x02 {
            (Opcode::MUL, 1)
        } else if op == 0x03 {
            (Opcode::SUB, 1)
        } else if op == 0x51 {
            (Opcode::MLOAD, 1)
        } else if op == 0x52 {
            (Opcode::MSTORE, 1)
        } else if op == 0x56 {
            (Opcode::JUMP, 0)
        } else if op == 0x57 {
            (Opcode::JUMPI, 0)
        } else if op == 0x5B {
            (Opcode::JUMPDEST, 1)
        } else if 0x60 <= op && op <= 0x7F {
            let n = (op - 0x60 + 1) as usize;
            (Opcode::PUSHn(n), n + 1)
        } else if 0x80 <= op && op <= 0x8F {
            let n = (op - 0x80 + 1) as usize;
            (Opcode::DUPn(n), 1)
        } else if 0x90 <= op && op <= 0x9F {
            let n = (op - 0x90 + 1) as usize;
            (Opcode::SWAPn(n), 1)
        } else {
            (Opcode::Unknown(op as usize), 1)
        }
    }
}

} // verus!
