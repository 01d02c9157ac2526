//! A model of the stack machine, for the instructions that the fragments
//! use.
//!
//! Items of the stack are modelled as the numbers they stand for. Limits of
//! the real machine on the size of numbers, of the stack and of a script are
//! left out.

use vstd::prelude::*;
use crate::script::{OP_0, OP_1SUB, OP_ADD, OP_DEPTH, OP_DROP, OP_DUP, OP_EQUALVERIFY,
    OP_FROMALTSTACK, OP_GREATERTHAN, OP_LESSTHAN, OP_PICK, OP_SUB, OP_SWAP, OP_TOALTSTACK,
    OP_TRUE, OP_VERIFY, push_int_bytes};

verus! {

/// An instruction: the push of a number, or an opcode.
pub enum Instr {
    /// Pushes the number.
    Push(u32),
    /// The opcode with this code.
    Op(u8),
}

/// The two stacks of the machine, bottom first.
pub struct Machine {
    /// The main stack.
    pub stack: Seq<int>,
    /// The alternate stack.
    pub alt: Seq<int>,
}

/// How far a run got.
pub enum Outcome {
    /// Every instruction so far was carried out.
    Running(Machine),
    /// An instruction failed: the script is rejected.
    Failed,
    /// An instruction that the model does not cover came up.
    Unmodelled,
}

/// The bytes of an instruction.
pub open spec fn encode_instr(instr: Instr) -> Seq<u8> {
    match instr {
        Instr::Push(n) => push_int_bytes(n as int),
        Instr::Op(code) => seq![code],
    }
}

/// The bytes of a program: those of its instructions, one after the other.
pub open spec fn encode(program: Seq<Instr>) -> Seq<u8>
    decreases program.len(),
{
    if program.len() == 0 {
        Seq::empty()
    } else {
        encode(program.drop_last()) + encode_instr(program.last())
    }
}

/// The stack without its `count` topmost items.
pub open spec fn below(stack: Seq<int>, count: int) -> Seq<int> {
    stack.take(stack.len() - count)
}

/// The item `depth` places below the top of the stack.
pub open spec fn peek(stack: Seq<int>, depth: int) -> int {
    stack[stack.len() - 1 - depth]
}

/// The number that stands for a truth value on the stack.
pub open spec fn truth(b: bool) -> int {
    if b {
        1
    } else {
        0
    }
}

/// One instruction, carried out.
pub open spec fn step(instr: Instr, m: Machine) -> Outcome {
    let s = m.stack;
    match instr {
        Instr::Push(n) => Outcome::Running(Machine { stack: s.push(n as int), alt: m.alt }),
        Instr::Op(code) => if code == OP_DEPTH {
            Outcome::Running(Machine { stack: s.push(s.len() as int), alt: m.alt })
        } else if code == OP_FROMALTSTACK {
            if m.alt.len() < 1 {
                Outcome::Failed
            } else {
                Outcome::Running(Machine { stack: s.push(m.alt.last()), alt: m.alt.drop_last() })
            }
        } else if code == OP_TRUE {
            Outcome::Running(Machine { stack: s.push(1), alt: m.alt })
        } else if code == OP_0 {
            Outcome::Running(Machine { stack: s.push(0), alt: m.alt })
        } else if code == OP_VERIFY || code == OP_TOALTSTACK || code == OP_DROP || code == OP_DUP
            || code == OP_1SUB || code == OP_PICK {
            if s.len() < 1 {
                Outcome::Failed
            } else if code == OP_VERIFY {
                if s.last() != 0 {
                    Outcome::Running(Machine { stack: below(s, 1), alt: m.alt })
                } else {
                    Outcome::Failed
                }
            } else if code == OP_TOALTSTACK {
                Outcome::Running(Machine { stack: below(s, 1), alt: m.alt.push(s.last()) })
            } else if code == OP_DROP {
                Outcome::Running(Machine { stack: below(s, 1), alt: m.alt })
            } else if code == OP_DUP {
                Outcome::Running(Machine { stack: s.push(s.last()), alt: m.alt })
            } else if code == OP_1SUB {
                Outcome::Running(Machine { stack: below(s, 1).push(s.last() - 1), alt: m.alt })
            } else {
                if 0 <= s.last() < s.len() - 1 {
                    Outcome::Running(
                        Machine { stack: below(s, 1).push(peek(below(s, 1), s.last())), alt: m.alt },
                    )
                } else {
                    Outcome::Failed
                }
            }
        } else if code == OP_SWAP || code == OP_EQUALVERIFY || code == OP_ADD || code == OP_SUB
            || code == OP_LESSTHAN || code == OP_GREATERTHAN {
            if s.len() < 2 {
                Outcome::Failed
            } else {
                let top = peek(s, 0);
                let second = peek(s, 1);
                let rest = below(s, 2);
                if code == OP_SWAP {
                    Outcome::Running(Machine { stack: rest.push(top).push(second), alt: m.alt })
                } else if code == OP_EQUALVERIFY {
                    if top == second {
                        Outcome::Running(Machine { stack: rest, alt: m.alt })
                    } else {
                        Outcome::Failed
                    }
                } else if code == OP_ADD {
                    Outcome::Running(Machine { stack: rest.push(second + top), alt: m.alt })
                } else if code == OP_SUB {
                    Outcome::Running(Machine { stack: rest.push(second - top), alt: m.alt })
                } else if code == OP_LESSTHAN {
                    Outcome::Running(Machine { stack: rest.push(truth(second < top)), alt: m.alt })
                } else {
                    Outcome::Running(Machine { stack: rest.push(truth(second > top)), alt: m.alt })
                }
            }
        } else {
            Outcome::Unmodelled
        },
    }
}

/// What comes of an outcome when one more instruction follows.
pub open spec fn then_step(outcome: Outcome, instr: Instr) -> Outcome {
    match outcome {
        Outcome::Running(m) => step(instr, m),
        other => other,
    }
}

/// A program, run from a state of the machine.
pub open spec fn exec(program: Seq<Instr>, m: Machine) -> Outcome
    decreases program.len(),
{
    if program.len() == 0 {
        Outcome::Running(m)
    } else {
        then_step(exec(program.drop_last(), m), program.last())
    }
}

/// What comes of an outcome when a program follows.
pub open spec fn then_exec(outcome: Outcome, program: Seq<Instr>) -> Outcome {
    match outcome {
        Outcome::Running(m) => exec(program, m),
        other => other,
    }
}

/// Running a program with one more instruction is running the program and
/// then the instruction.
pub proof fn lemma_exec_push(program: Seq<Instr>, instr: Instr, m: Machine)
    ensures
        exec(program.push(instr), m) == then_step(exec(program, m), instr),
        encode(program.push(instr)) == encode(program) + encode_instr(instr),
{
    assert(program.push(instr).drop_last() =~= program);
}

/// Running two programs one after the other is running the first and then,
/// from where it got, the second; and their bytes follow one another.
pub proof fn lemma_exec_concat(first: Seq<Instr>, second: Seq<Instr>, m: Machine)
    ensures
        exec(first + second, m) == then_exec(exec(first, m), second),
        encode(first + second) == encode(first) + encode(second),
    decreases second.len(),
{
    if second.len() == 0 {
        assert(first + second =~= first);
        assert(encode(first) + encode(second) =~= encode(first));
    } else {
        lemma_exec_concat(first, second.drop_last(), m);
        assert((first + second).drop_last() =~= first + second.drop_last());
        assert((first + second).last() == second.last());
        assert(encode(first + second) =~= encode(first) + encode(second));
    }
}

} // verus!
