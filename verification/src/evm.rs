//! The interpreter: it owns the program bytes, the program counter, the
//! operand stack and the linear memory, and drives the fetch-decode-execute
//! cycle until the counter reaches the end of the program.

use vstd::prelude::*;

use crate::bytes::be_val;
use crate::error::VmError;
use crate::memory::{grown, stored, word_at, Memory};
use crate::opcode::{spec_decode, Opcode};
use crate::stack::Stack;
use crate::word::{
    add_val, mul_val, sub_val, word_add, word_from_be_bytes, word_mul, word_sub, Word,
};

verus! {

/// The whole state of one run: the program bytes, the program counter, the
/// values of the words on the operand stack (bottom first), and the
/// physical memory bytes.
#[verifier::ext_equal]
pub ghost struct MachineState {
    pub code: Seq<u8>,
    pub pc: nat,
    pub stack: Seq<nat>,
    pub mem: Seq<u8>,
}

/// The `n` operand bytes following the PUSH opcode at `pc`, read
/// big-endian, with bytes past the end of the program read as zero.
pub open spec fn push_operand(code: Seq<u8>, pc: int, n: int) -> Seq<u8> {
    Seq::new(
        n as nat,
        |i: int|
            if pc + 1 + i < code.len() {
                code[pc + 1 + i]
            } else {
                0
            },
    )
}

/// Whether `dest` is a valid jump target: inside the program and holding
/// the jump-destination byte 0x5B. Any other byte at the target — a byte
/// inside a PUSH operand included — is invalid: only the byte value at
/// `dest` decides.
pub open spec fn valid_jump_dest(code: Seq<u8>, dest: nat) -> bool {
    dest < code.len() && code[dest as int] == 0x5B
}

/// The counter after a normal advance by `w` consumed bytes, capped at the
/// program length: execution only ever continues below the length, so the
/// cap is never observable, and it keeps the counter a valid offset.
pub open spec fn advanced_pc(code: Seq<u8>, pc: nat, w: usize) -> nat {
    if pc + w >= code.len() {
        code.len()
    } else {
        (pc + w) as nat
    }
}

/// One step of the fetch-decode-execute cycle as a mathematical function:
/// decode at the counter, advance by the consumed width, apply the
/// instruction's effect against the stack and the memory. `Err` carries
/// the fault that aborts the run. Faults are detected in the order the
/// instruction consumes its operands: each pop may underflow before the
/// popped word is examined.
pub open spec fn step_spec(s: MachineState) -> Result<MachineState, VmError>
    recommends
        s.pc < s.code.len(),
{
    let (op, w) = spec_decode(s.code, s.pc as int);
    let pc1 = advanced_pc(s.code, s.pc, w);
    let len = s.stack.len() as int;
    match op {
        Opcode::STOP => Ok(MachineState { pc: s.code.len(), ..s }),
        Opcode::ADD => if len < 2 {
            Err(VmError::StackUnderflow)
        } else {
            Ok(
                MachineState {
                    pc: pc1,
                    stack: s.stack.subrange(0, len - 2).push(
                        add_val(s.stack[len - 2], s.stack[len - 1]),
                    ),
                    ..s
                },
            )
        },
        Opcode::MUL => if len < 2 {
            Err(VmError::StackUnderflow)
        } else {
            Ok(
                MachineState {
                    pc: pc1,
                    stack: s.stack.subrange(0, len - 2).push(
                        mul_val(s.stack[len - 2], s.stack[len - 1]),
                    ),
                    ..s
                },
            )
        },
        Opcode::SUB => if len < 2 {
            Err(VmError::StackUnderflow)
        } else {
            Ok(
                MachineState {
                    pc: pc1,
                    stack: s.stack.subrange(0, len - 2).push(
                        sub_val(s.stack[len - 2], s.stack[len - 1]),
                    ),
                    ..s
                },
            )
        },
        Opcode::MLOAD => if len < 1 {
            Err(VmError::StackUnderflow)
        } else {
            let off = s.stack[len - 1];
            if off + 32 > usize::MAX {
                Err(VmError::InvalidOffset)
            } else {
                Ok(
                    MachineState {
                        pc: pc1,
                        stack: s.stack.subrange(0, len - 1).push(word_at(s.mem, off as int)),
                        mem: grown(s.mem, off as int + 32),
                        ..s
                    },
                )
            }
        },
        Opcode::MSTORE => if len < 1 {
            Err(VmError::StackUnderflow)
        } else {
            let off = s.stack[len - 1];
            if off + 32 > usize::MAX {
                Err(VmError::InvalidOffset)
            } else if len < 2 {
                Err(VmError::StackUnderflow)
            } else {
                Ok(
                    MachineState {
                        pc: pc1,
                        stack: s.stack.subrange(0, len - 2),
                        mem: stored(s.mem, off as int, s.stack[len - 2]),
                        ..s
                    },
                )
            }
        },
        Opcode::JUMP => if len < 1 {
            Err(VmError::StackUnderflow)
        } else {
            let dest = s.stack[len - 1];
            if valid_jump_dest(s.code, dest) {
                Ok(MachineState { pc: dest, stack: s.stack.subrange(0, len - 1), ..s })
            } else {
                Err(VmError::InvalidJumpDestination)
            }
        },
        Opcode::JUMPI => if len < 2 {
            Err(VmError::StackUnderflow)
        } else {
            let cond = s.stack[len - 1];
            let dest = s.stack[len - 2];
            if cond != 0 {
                if valid_jump_dest(s.code, dest) {
                    Ok(MachineState { pc: dest, stack: s.stack.subrange(0, len - 2), ..s })
                } else {
                    Err(VmError::InvalidJumpDestination)
                }
            } else {
                Ok(MachineState { pc: s.pc + 1, stack: s.stack.subrange(0, len - 2), ..s })
            }
        },
        Opcode::JUMPDEST => Ok(MachineState { pc: pc1, ..s }),
        Opcode::PUSHn(n) => Ok(
            MachineState {
                pc: pc1,
                stack: s.stack.push(be_val(push_operand(s.code, s.pc as int, n as int))),
                ..s
            },
        ),
        Opcode::DUPn(n) => if !(1 <= n <= len) {
            Err(VmError::StackUnderflow)
        } else {
            Ok(MachineState { pc: pc1, stack: s.stack.push(s.stack[len - n]), ..s })
        },
        Opcode::SWAPn(n) => if n >= len {
            Err(VmError::StackUnderflow)
        } else {
            Ok(
                MachineState {
                    pc: pc1,
                    stack: s.stack.update(len - 1, s.stack[len - 1 - n]).update(
                        len - 1 - n,
                        s.stack[len - 1],
                    ),
                    ..s
                },
            )
        },
        Opcode::Unknown(b) => Err(VmError::UnknownOpcode(b as u8)),
    }
}

/// The state after `n` successful steps from `s1` is `s2`.
pub open spec fn reaches(s1: MachineState, s2: MachineState, n: nat) -> bool
    decreases n,
{
    if n == 0 {
        s1 == s2
    } else {
        &&& s1.pc < s1.code.len()
        &&& step_spec(s1) is Ok
        &&& reaches(step_spec(s1)->Ok_0, s2, (n - 1) as nat)
    }
}

/// A chain of successful steps, extended by one more step at its end.
pub proof fn lemma_reaches_extend(s1: MachineState, s2: MachineState, s3: MachineState, n: nat)
    requires
        reaches(s1, s2, n),
        s2.pc < s2.code.len(),
        step_spec(s2) == Result::<MachineState, VmError>::Ok(s3),
    ensures
        reaches(s1, s3, n + 1),
    decreases n,
{
    if n == 0 {
        assert(reaches(s3, s3, 0));
    } else {
        lemma_reaches_extend(step_spec(s1)->Ok_0, s2, s3, (n - 1) as nat);
    }
}

/// The closed set of binary arithmetic instructions.
#[derive(Clone, Copy, Debug, PartialEq, Eq, Structural)]
pub enum BinOpKind {
    Add,
    Mul,
    Sub,
}

/// The value a binary arithmetic instruction computes from the
/// second-from-top operand `a` and the top operand `b`.
pub open spec fn bin_val(kind: BinOpKind, a: nat, b: nat) -> nat {
    match kind {
        BinOpKind::Add => add_val(a, b),
        BinOpKind::Mul => mul_val(a, b),
        BinOpKind::Sub => sub_val(a, b),
    }
}

/// The interpreter. It exclusively owns the program, the counter, the
/// operand stack and the memory for the duration of one run; after the
/// run the caller may inspect the operand stack.
pub struct Evm {
    pub stack: Stack,
    pc: usize,
    code: Vec<u8>,
    memory: Memory,
}

impl View for Evm {
    type V = MachineState;

    closed spec fn view(&self) -> MachineState {
        MachineState {
            code: self.code@,
            pc: self.pc as nat,
            stack: self.stack.vals(),
            mem: self.memory@,
        }
    }
}

impl Evm {
    /// Well-formed: the counter never rests beyond the program's end.
    pub open spec fn wf(&self) -> bool {
        self@.pc <= self@.code.len()
    }

    /// A fresh interpreter over a program: counter at zero, empty stack,
    /// empty memory.
    pub fn new(code: Vec<u8>) -> (r: Evm)
        ensures
            r.wf(),
            r@.code == code@,
            r@.pc == 0,
            r@.stack == Seq::<nat>::empty(),
            r@.mem == Seq::<u8>::empty(),
    {
        let r = Evm { code, pc: 0, stack: Stack::new(), memory: Memory::new() };
        proof {
            assert(r@.stack =~= Seq::<nat>::empty());
        }
        r
    }

    /// Pop the top two words and push `second-from-top OP top` under
    /// wraparound; fewer than two words is a stack underflow that leaves
    /// the stack untouched.
    fn bin_op(&mut self, kind: BinOpKind) -> (r: Result<(), VmError>)
        ensures
            final(self)@.code == old(self)@.code,
            final(self)@.pc == old(self)@.pc,
            final(self)@.mem == old(self)@.mem,
            old(self)@.stack.len() < 2 ==> r == Result::<(), VmError>::Err(VmError::StackUnderflow)
                && final(self)@.stack == old(self)@.stack,
            old(self)@.stack.len() >= 2 ==> r == Result::<(), VmError>::Ok(()) && final(self)@.stack
                == old(self)@.stack.subrange(0, old(self)@.stack.len() - 2).push(
                bin_val(
                    kind,
                    old(self)@.stack[old(self)@.stack.len() - 2],
                    old(self)@.stack[old(self)@.stack.len() - 1],
                ),
            ),
    {
        if self.stack.len() < 2 {
            return Err(VmError::StackUnderflow);
        }
        let a = match self.stack.pop() {
            Ok(w) => w,
            Err(e) => return Err(e),
        };
        let b = match self.stack.pop() {
            Ok(w) => w,
            Err(e) => return Err(e),
        };
        let c = match kind {
            BinOpKind::Add => word_add(b, a),
            BinOpKind::Mul => word_mul(b, a),
            BinOpKind::Sub => word_sub(b, a),
        };
        self.stack.push(c);
        proof {
            let pre = old(self)@.stack;
            assert(self@.stack =~= pre.subrange(0, pre.len() - 2).push(
                bin_val(kind, pre[pre.len() - 2], pre[pre.len() - 1]),
            ));
        }
        Ok(())
    }

    /// One fetch-decode-execute step. On success the interpreter lands in
    /// exactly the state the step function specifies; on a fault the fault
    /// is the specified one and the stack and the memory are handed back
    /// unchanged.
    fn step(&mut self) -> (r: Result<(), VmError>)
        requires
            old(self).wf(),
            old(self)@.pc < old(self)@.code.len(),
        ensures
            final(self).wf(),
            final(self)@.code == old(self)@.code,
            match r {
                Ok(()) => step_spec(old(self)@) == Result::<MachineState, VmError>::Ok(
                    final(self)@,
                ),
                Err(e) => step_spec(old(self)@) == Result::<MachineState, VmError>::Err(e)
                    && final(self)@.stack == old(self)@.stack && final(self)@.mem == old(
                    self,
                )@.mem,
            },
    {
        let ghost s0 = self@;
        let pc0 = self.pc;
        let (op, width) = Opcode::from_byte(self.code.as_slice(), self.pc);
        let rem = self.code.len() - self.pc;
        if width >= rem {
            self.pc = self.code.len();
        } else {
            self.pc = self.pc + width;
        }
        proof {
            assert(self@.pc == advanced_pc(s0.code, s0.pc, spec_decode(s0.code, s0.pc as int).1));
        }
        match op {
            Opcode::STOP => {
                self.pc = self.code.len();
                proof {
                    assert(step_spec(s0) matches Ok(s2) && s2 =~= self@);
                }
                Ok(())
            },
            Opcode::ADD => {
                match self.bin_op(BinOpKind::Add) {
                    Ok(()) => {
                        proof {
                            assert(step_spec(s0) matches Ok(s2) && s2 =~= self@);
                        }
                        Ok(())
                    },
                    Err(e) => {
                        proof {
                            assert(step_spec(s0) == Result::<MachineState, VmError>::Err(e));
                        }
                        Err(e)
                    },
                }
            },
            Opcode::MUL => {
                match self.bin_op(BinOpKind::Mul) {
                    Ok(()) => {
                        proof {
                            assert(step_spec(s0) matches Ok(s2) && s2 =~= self@);
                        }
                        Ok(())
                    },
                    Err(e) => {
                        proof {
                            assert(step_spec(s0) == Result::<MachineState, VmError>::Err(e));
                        }
                        Err(e)
                    },
                }
            },
            Opcode::SUB => {
                match self.bin_op(BinOpKind::Sub) {
                    Ok(()) => {
                        proof {
                            assert(step_spec(s0) matches Ok(s2) && s2 =~= self@);
                        }
                        Ok(())
                    },
                    Err(e) => {
                        proof {
                            assert(step_spec(s0) == Result::<MachineState, VmError>::Err(e));
                        }
                        Err(e)
                    },
                }
            },
            Opcode::MLOAD => {
                if self.stack.len() < 1 {
                    proof {
                        assert(step_spec(s0) == Result::<MachineState, VmError>::Err(
                            VmError::StackUnderflow,
                        ));
                    }
                    return Err(VmError::StackUnderflow);
                }
                let w = match self.stack.peek(1) {
                    Ok(w) => w,
                    Err(e) => return Err(e),
                };
                let offset = match w.to_index() {
                    Some(o) => o,
                    None => {
                        proof {
                            assert(step_spec(s0) == Result::<MachineState, VmError>::Err(
                                VmError::InvalidOffset,
                            ));
                        }
                        return Err(VmError::InvalidOffset);
                    },
                };
                if offset > usize::MAX - 32 {
                    proof {
                        assert(step_spec(s0) == Result::<MachineState, VmError>::Err(
                            VmError::InvalidOffset,
                        ));
                    }
                    return Err(VmError::InvalidOffset);
                }
                let _offw = match self.stack.pop() {
                    Ok(x) => x,
                    Err(e) => return Err(e),
                };
                let data = self.memory.mload(offset);
                self.stack.push(data);
                proof {
                    assert(self@.stack =~= s0.stack.subrange(0, s0.stack.len() - 1).push(
                        word_at(s0.mem, s0.stack[s0.stack.len() - 1] as int),
                    ));
                    assert(step_spec(s0) matches Ok(s2) && s2 =~= self@);
                }
                Ok(())
            },
            Opcode::MSTORE => {
                if self.stack.len() < 1 {
                    proof {
                        assert(step_spec(s0) == Result::<MachineState, VmError>::Err(
                            VmError::StackUnderflow,
                        ));
                    }
                    return Err(VmError::StackUnderflow);
                }
                let w = match self.stack.peek(1) {
                    Ok(w) => w,
                    Err(e) => return Err(e),
                };
                let offset = match w.to_index() {
                    Some(o) => o,
                    None => {
                        proof {
                            assert(step_spec(s0) == Result::<MachineState, VmError>::Err(
                                VmError::InvalidOffset,
                            ));
                        }
                        return Err(VmError::InvalidOffset);
                    },
                };
                if offset > usize::MAX - 32 {
                    proof {
                        assert(step_spec(s0) == Result::<MachineState, VmError>::Err(
                            VmError::InvalidOffset,
                        ));
                    }
                    return Err(VmError::InvalidOffset);
                }
                if self.stack.len() < 2 {
                    proof {
                        assert(step_spec(s0) == Result::<MachineState, VmError>::Err(
                            VmError::StackUnderflow,
                        ));
                    }
                    return Err(VmError::StackUnderflow);
                }
                let _offw = match self.stack.pop() {
                    Ok(x) => x,
                    Err(e) => return Err(e),
                };
                let data = match self.stack.pop() {
                    Ok(x) => x,
                    Err(e) => return Err(e),
                };
                self.memory.mstore(offset, data);
                proof {
                    assert(self@.stack =~= s0.stack.subrange(0, s0.stack.len() - 2));
                    assert(step_spec(s0) matches Ok(s2) && s2 =~= self@);
                }
                Ok(())
            },
            Opcode::JUMP => {
                if self.stack.len() < 1 {
                    proof {
                        assert(step_spec(s0) == Result::<MachineState, VmError>::Err(
                            VmError::StackUnderflow,
                        ));
                    }
                    return Err(VmError::StackUnderflow);
                }
                let w = match self.stack.peek(1) {
                    Ok(w) => w,
                    Err(e) => return Err(e),
                };
                let clen = self.code.len();
                if let Some(d) = w.to_index() {
                    if d < clen {
                        let byte_at_d = self.code[d];
                        if byte_at_d == 0x5B {
                            let _destw = match self.stack.pop() {
                                Ok(x) => x,
                                Err(e) => return Err(e),
                            };
                            self.pc = d;
                            proof {
                                assert(self@.stack =~= s0.stack.subrange(0, s0.stack.len() - 1));
                                assert(step_spec(s0) matches Ok(s2) && s2 =~= self@);
                            }
                            return Ok(());
                        }
                    }
                }
                proof {
                    assert(!valid_jump_dest(s0.code, s0.stack[s0.stack.len() - 1]));
                    assert(step_spec(s0) == Result::<MachineState, VmError>::Err(
                        VmError::InvalidJumpDestination,
                    ));
                }
                Err(VmError::InvalidJumpDestination)
            },
            Opcode::JUMPI => {
                if self.stack.len() < 2 {
                    proof {
                        assert(step_spec(s0) == Result::<MachineState, VmError>::Err(
                            VmError::StackUnderflow,
                        ));
                    }
                    return Err(VmError::StackUnderflow);
                }
                let cond = match self.stack.peek(1) {
                    Ok(w) => w,
                    Err(e) => return Err(e),
                };
                let destw = match self.stack.peek(2) {
                    Ok(w) => w,
                    Err(e) => return Err(e),
                };
                if cond.is_zero() {
                    let _c = match self.stack.pop() {
                        Ok(x) => x,
                        Err(e) => return Err(e),
                    };
                    let _d = match self.stack.pop() {
                        Ok(x) => x,
                        Err(e) => return Err(e),
                    };
                    self.pc = self.pc + 1;
                    proof {
                        assert(self@.stack =~= s0.stack.subrange(0, s0.stack.len() - 2));
                        assert(step_spec(s0) matches Ok(s2) && s2 =~= self@);
                    }
                    return Ok(());
                }
                let clen = self.code.len();
                if let Some(d) = destw.to_index() {
                    if d < clen {
                        let byte_at_d = self.code[d];
                        if byte_at_d == 0x5B {
                            let _c = match self.stack.pop() {
                                Ok(x) => x,
                                Err(e) => return Err(e),
                            };
                            let _d2 = match self.stack.pop() {
                                Ok(x) => x,
                                Err(e) => return Err(e),
                            };
                            self.pc = d;
                            proof {
                                assert(self@.stack =~= s0.stack.subrange(0, s0.stack.len() - 2));
                                assert(step_spec(s0) matches Ok(s2) && s2 =~= self@);
                            }
                            return Ok(());
                        }
                    }
                }
                proof {
                    assert(!valid_jump_dest(s0.code, s0.stack[s0.stack.len() - 2]));
                    assert(step_spec(s0) == Result::<MachineState, VmError>::Err(
                        VmError::InvalidJumpDestination,
                    ));
                }
                Err(VmError::InvalidJumpDestination)
            },
            Opcode::JUMPDEST => {
                proof {
                    assert(step_spec(s0) matches Ok(s2) && s2 =~= self@);
                }
                Ok(())
            },
            Opcode::PUSHn(n) => {
                proof {
                    assert(1 <= n <= 32);
                }
                let ghost smid = self@;
                let mut operand: Vec<u8> = Vec::new();
                let mut i: usize = 0;
                while i < n
                    invariant
                        i <= n,
                        n <= 32,
                        self@ == smid,
                        smid.code == s0.code,
                        pc0 == s0.pc,
                        pc0 < self.code@.len(),
                        operand@.len() == i,
                        forall|k: int|
                            0 <= k < i ==> operand@[k] == push_operand(
                                s0.code,
                                s0.pc as int,
                                n as int,
                            )[k],
                    decreases n - i,
                {
                    let b: u8 = if i + 1 < self.code.len() - pc0 {
                        self.code[pc0 + i + 1]
                    } else {
                        0
                    };
                    operand.push(b);
                    i += 1;
                }
                let w = word_from_be_bytes(operand.as_slice());
                self.stack.push(w);
                proof {
                    assert(operand@ =~= push_operand(s0.code, s0.pc as int, n as int));
                    assert(self@.stack =~= s0.stack.push(
                        be_val(push_operand(s0.code, s0.pc as int, n as int)),
                    ));
                    assert(step_spec(s0) matches Ok(s2) && s2 =~= self@);
                }
                Ok(())
            },
            Opcode::DUPn(n) => {
                match self.stack.peek(n) {
                    Ok(w) => {
                        self.stack.push(w);
                        proof {
                            assert(self@.stack =~= s0.stack.push(
                                s0.stack[s0.stack.len() - n],
                            ));
                            assert(step_spec(s0) matches Ok(s2) && s2 =~= self@);
                        }
                        Ok(())
                    },
                    Err(e) => {
                        proof {
                            assert(step_spec(s0) == Result::<MachineState, VmError>::Err(e));
                        }
                        Err(e)
                    },
                }
            },
            Opcode::SWAPn(n) => {
                match self.stack.swap(n) {
                    Ok(()) => {
                        proof {
                            let len = s0.stack.len() as int;
                            assert(self@.stack =~= s0.stack.update(
                                len - 1,
                                s0.stack[len - 1 - n],
                            ).update(len - 1 - n, s0.stack[len - 1]));
                            assert(step_spec(s0) matches Ok(s2) && s2 =~= self@);
                        }
                        Ok(())
                    },
                    Err(e) => {
                        proof {
                            assert(step_spec(s0) == Result::<MachineState, VmError>::Err(e));
                        }
                        Err(e)
                    },
                }
            },
            Opcode::Unknown(b) => {
                proof {
                    assert(step_spec(s0) == Result::<MachineState, VmError>::Err(
                        VmError::UnknownOpcode(b as u8),
                    ));
                }
                Err(VmError::UnknownOpcode(b as u8))
            },
        }
    }

    /// Run to completion: repeat the step cycle until the counter reaches
    /// the end of the program. On success the final state is the one the
    /// chain of specified steps reaches, with the counter at the end; on a
    /// fault the run aborts at the first faulting step, whose stack and
    /// memory are handed back unchanged. A verified loop must carry a
    /// termination measure, so the cycle runs under a budget of 2^128 - 1
    /// steps — far beyond any feasible run — and a run that ends within it
    /// ends only at the program's end, as the contract's disjunction
    /// records.
    pub fn run(&mut self) -> (r: Result<(), VmError>)
        requires
            old(self).wf(),
        ensures
            final(self).wf(),
            final(self)@.code == old(self)@.code,
            match r {
                Ok(()) => exists|n: nat|
                    reaches(old(self)@, final(self)@, n) && (final(self)@.pc
                        >= final(self)@.code.len() || n == u128::MAX as nat),
                Err(e) => exists|n: nat, m: MachineState|
                    reaches(old(self)@, m, n) && m.pc < m.code.len() && step_spec(m)
                        == Result::<MachineState, VmError>::Err(e) && final(self)@.stack == m.stack
                        && final(self)@.mem == m.mem,
            },
    {
        let ghost init = self@;
        let ghost mut steps: nat = 0;
        let mut fuel: u128 = u128::MAX;
        while fuel > 0 && self.pc < self.code.len()
            invariant
                init == old(self)@,
                self.wf(),
                self@.code == init.code,
                reaches(init, self@, steps),
                steps + fuel == u128::MAX as nat,
            decreases fuel,
        {
            let ghost pre = self@;
            match self.step() {
                Ok(()) => {
                    proof {
                        lemma_reaches_extend(init, pre, self@, steps);
                        steps = steps + 1;
                    }
                },
                Err(e) => {
                    proof {
                        assert(reaches(init, pre, steps) && pre.pc < pre.code.len() && step_spec(
                            pre,
                        ) == Result::<MachineState, VmError>::Err(e) && self@.stack == pre.stack
                            && self@.mem == pre.mem);
                    }
                    return Err(e);
                },
            }
            fuel = fuel - 1;
        }
        Ok(())
    }
}

/// Law: a JUMP, or a JUMPI whose condition is not zero, to any target
/// whose byte is not the jump-destination marker 0x5B aborts the step with
/// InvalidJumpDestination — targets inside a PUSH instruction's operand
/// bytes included, since only the byte value at the target decides.
pub proof fn lemma_jump_to_non_jumpdest_aborts(s: MachineState)
    requires
        s.pc < s.code.len(),
        s.code[s.pc as int] == 0x56 || s.code[s.pc as int] == 0x57,
        s.code[s.pc as int] == 0x56 ==> s.stack.len() >= 1 && !valid_jump_dest(
            s.code,
            s.stack[s.stack.len() - 1],
        ),
        s.code[s.pc as int] == 0x57 ==> s.stack.len() >= 2 && s.stack[s.stack.len() - 1] != 0
            && !valid_jump_dest(s.code, s.stack[s.stack.len() - 2]),
    ensures
        step_spec(s) == Result::<MachineState, VmError>::Err(VmError::InvalidJumpDestination),
{
}

/// Law: a DUP followed immediately by a SWAP of the same depth `n` leaves
/// every pre-DUP word in its place — the swap exchanges two equal words —
/// so the whole result is the pre-DUP stack with the duplicated word on
/// top; and a DUP whose `n` exceeds the depth aborts with StackUnderflow.
pub proof fn lemma_dup_then_swap(s: MachineState, n: usize)
    requires
        s.pc < s.code.len(),
        spec_decode(s.code, s.pc as int) == (Opcode::DUPn(n), 1usize),
        s.pc + 1 < s.code.len(),
        spec_decode(s.code, s.pc as int + 1) == (Opcode::SWAPn(n), 1usize),
    ensures
        1 <= n <= s.stack.len() ==> (step_spec(s) matches Ok(m1) && step_spec(m1) matches Ok(m2)
            && m2.stack == s.stack.push(s.stack[s.stack.len() - n]) && m2.stack.subrange(
            0,
            s.stack.len() as int,
        ) == s.stack),
        n > s.stack.len() ==> step_spec(s) == Result::<MachineState, VmError>::Err(
            VmError::StackUnderflow,
        ),
{
    let len = s.stack.len() as int;
    if 1 <= n <= s.stack.len() {
        let m1 = step_spec(s)->Ok_0;
        assert(m1.stack == s.stack.push(s.stack[len - n]));
        assert(m1.pc == s.pc + 1);
        let len1 = m1.stack.len() as int;
        let m2 = step_spec(m1)->Ok_0;
        assert(m1.stack[len1 - 1] == s.stack[len - n]);
        assert(m1.stack[len1 - 1 - n] == s.stack[len - n]);
        assert(m2.stack =~= m1.stack);
        assert(m2.stack.subrange(0, len) =~= s.stack);
    }
}

/// Law: a SWAP whose `n` reaches or exceeds the stack's depth aborts with
/// StackUnderflow.
pub proof fn lemma_swap_beyond_depth_aborts(s: MachineState, n: usize)
    requires
        s.pc < s.code.len(),
        spec_decode(s.code, s.pc as int) == (Opcode::SWAPn(n), 1usize),
        n >= s.stack.len(),
    ensures
        step_spec(s) == Result::<MachineState, VmError>::Err(VmError::StackUnderflow),
{
}

} // verus!

