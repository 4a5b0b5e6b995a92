//! The compact tree-walker driven by switch dispatch: evaluating a node
//! decodes its tag and branches on it, and calls itself for the children.

use vstd::prelude::*;
use vstd::pervasive::unreached;
use crate::compact_treewalk;
use crate::compact_treewalk::{
    Frame,
    Opcode,
    VAR_X,
    lemma_depth,
    lemma_evaluation,
    program,
    result_of,
    runs,
};
use crate::halting::{StepMachine, halts, outcome, run_for, lemma_outcome};
use crate::native::{DEFAULT_INPUT, MAX_INPUT, factorial_spec, lemma_factorial_values};
use crate::writer::OpcodeTag;

verus! {

/// Evaluates the node at the program counter and returns its value.
pub fn step(frame: &mut Frame) -> (value: u32)
    requires
        old(frame)@.can_evaluate(),
    ensures
        (final(frame)@, value) == old(frame)@.evaluation(),
    decreases old(frame)@.depth(),
{
    let ghost less = (frame@.depth() - 1) as nat;
    proof {
        lemma_depth(frame@);
    }
    let opcode = Opcode::from_tag(frame.read_u8());
    match opcode {
        Some(Opcode::Int) => frame.read_u32(),
        Some(Opcode::Var) => {
            let i = frame.read_u8();
            frame.var(i)
        },
        Some(Opcode::Let) => {
            let i = frame.read_u8();
            proof {
                lemma_evaluation(frame@, less);
            }
            let val = step(frame);
            frame.set_var(i, val);
            val
        },
        Some(Opcode::LessEq) => {
            proof {
                lemma_evaluation(frame@, less);
            }
            let a = step(frame);
            proof {
                lemma_evaluation(frame@, less);
            }
            let b = step(frame);
            if a <= b {
                1
            } else {
                0
            }
        },
        Some(Opcode::Add) => {
            proof {
                lemma_evaluation(frame@, less);
            }
            let a = step(frame);
            proof {
                lemma_evaluation(frame@, less);
            }
            let b = step(frame);
            a + b
        },
        Some(Opcode::Multiply) => {
            proof {
                lemma_evaluation(frame@, less);
            }
            let a = step(frame);
            proof {
                lemma_evaluation(frame@, less);
            }
            let b = step(frame);
            a * b
        },
        Some(Opcode::JumpIfNot) => {
            let offset = frame.read_u16();
            proof {
                lemma_evaluation(frame@, less);
            }
            let condition = step(frame);
            if condition == 0 {
                frame.pc = offset;
            }
            0
        },
        Some(Opcode::Jump) => {
            let offset = frame.read_u16();
            frame.pc = offset;
            0
        },
        Some(Opcode::Halt) => 0,
        None => unreached(),
    }
}

/// Runs the frame's program from the frame's state until it halts. The frame
/// is left in the halted state, its program counter on the `Halt`.
pub fn eval(frame: &mut Frame)
    requires
        halts(old(frame)@),
    ensures
        final(frame)@ == outcome(old(frame)@),
{
    let ghost goal = outcome(frame@);
    let ghost mut fuel: nat = choose|f: nat| (#[trigger] run_for(frame@, f)) is Some;
    proof {
        lemma_outcome(frame@, fuel);
    }
    while frame.peek_u8() != Opcode::Halt.tag()
        invariant
            run_for(frame@, fuel) == Some(goal),
            frame@.halted() || frame@.next() is Some,
        decreases fuel,
    {
        step(frame);
        proof {
            fuel = (fuel - 1) as nat;
        }
    }
}

/// Assembles the factorial program. On every argument up to `MAX_INPUT` the
/// program halts and returns the argument's factorial.
pub fn code() -> (bytes: Vec<u8>)
    ensures
        bytes@ == program(),
        forall|n: u32|
            n <= MAX_INPUT ==> #[trigger] runs(bytes@, n) && result_of(bytes@, n)
                == factorial_spec(n as nat),
        result_of(bytes@, DEFAULT_INPUT) == 3628800,
{
    let bytes = compact_treewalk::code();
    proof {
        assert forall|n: u32| n <= MAX_INPUT implies #[trigger] runs(bytes@, n) && result_of(
            bytes@,
            n,
        ) == factorial_spec(n as nat) by {
            compact_treewalk::lemma_program_computes_factorial(n);
        }
        assert(runs(bytes@, DEFAULT_INPUT));
        lemma_factorial_values();
    }
    bytes
}

/// Runs `code` on the argument `n` in a fresh frame and returns the running
/// product that the program leaves.
pub fn run_with(code: &[u8], n: u32) -> (result: u32)
    requires
        runs(code@, n),
    ensures
        result == result_of(code@, n),
        code@ == program() && n <= MAX_INPUT ==> result == factorial_spec(n as nat),
{
    proof {
        if code@ == program() && n <= MAX_INPUT {
            compact_treewalk::lemma_program_computes_factorial(n);
        }
    }
    let mut frame = Frame::new(code, n);
    eval(&mut frame);
    frame.variables[VAR_X as usize]
}

/// Runs `code` on the argument `DEFAULT_INPUT`.
pub fn run(code: &[u8]) -> (result: u32)
    requires
        runs(code@, DEFAULT_INPUT),
    ensures
        result == result_of(code@, DEFAULT_INPUT),
        code@ == program() ==> result == 3628800,
{
    proof {
        lemma_factorial_values();
    }
    run_with(code, DEFAULT_INPUT)
}

} // verus!
