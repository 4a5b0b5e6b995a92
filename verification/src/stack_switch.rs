//! The stack machine driven by switch dispatch: one loop that decodes the
//! tag at the program counter and branches on it.

use vstd::prelude::*;
use vstd::pervasive::unreached;
use crate::halting::{StepMachine, halts, outcome, run_for, lemma_outcome};
use crate::native::{DEFAULT_INPUT, MAX_INPUT, factorial_spec, lemma_factorial_values};
use crate::stack;
use crate::stack::{Frame, Machine, Opcode, lemma_outcome_wf, program, result_of, runs};

verus! {

/// Runs the frame's program from the frame's state until it halts. The frame
/// is left in the halted state, its program counter on the `Halt`.
#[inline(never)]
pub fn eval(frame: &mut Frame)
    requires
        halts(old(frame)@),
    ensures
        final(frame)@ == outcome(old(frame)@),
{
    let ghost goal = outcome(frame@);
    let ghost mut fuel: nat = choose|f: nat| (#[trigger] run_for(frame@, f)) is Some;
    proof {
        lemma_outcome(frame@, fuel);
    }
    loop
        invariant
            run_for(frame@, fuel) == Some(goal),
        ensures
            frame@ == goal,
        decreases fuel,
    {
        let ghost before = frame@;
        assert(before.halted() || before.next() is Some);
        let opcode = Opcode::from_tag(frame.peek_u8());
        match opcode {
            Some(Opcode::Int) => {
                frame.pc += 1;
                let i = frame.read_u32();
                frame.push(i);
            },
            Some(Opcode::Let) => {
                frame.pc += 1;
                let i = frame.read_u8();
                let val = frame.pop();
                frame.set_var(i, val);
            },
            Some(Opcode::Var) => {
                frame.pc += 1;
                let i = frame.read_u8();
                let val = frame.var(i);
                frame.push(val);
            },
            Some(Opcode::LessEq) => {
                frame.pc += 1;
                let b = frame.pop();
                let a = frame.pop();
                frame.push(if a <= b { 1 } else { 0 });
            },
            Some(Opcode::Add) => {
                frame.pc += 1;
                let b = frame.pop();
                let a = frame.pop();
                frame.push(a + b);
            },
            Some(Opcode::Multiply) => {
                frame.pc += 1;
                let b = frame.pop();
                let a = frame.pop();
                frame.push(a * b);
            },
            Some(Opcode::JumpIfNot) => {
                frame.pc += 1;
                let offset = frame.read_u16();
                let condition = frame.pop();
                if condition == 0 {
                    frame.pc = offset;
                }
            },
            Some(Opcode::Jump) => {
                frame.pc += 1;
                let offset = frame.read_u16();
                frame.pc = offset;
            },
            Some(Opcode::Halt) => break,
            None => unreached(),
        }
        proof {
            assert(frame@ == before.next()->0);
            fuel = (fuel - 1) as nat;
        }
    }
}

/// Assembles the factorial program. On every argument up to `MAX_INPUT` the
/// program halts and returns the argument's factorial.
pub fn code() -> (bytes: Vec<u8>)
    ensures
        bytes@ == program(),
        forall|n: u32|
            n <= MAX_INPUT ==> #[trigger] runs(bytes@, n) && result_of(bytes@, n)
                == factorial_spec(n as nat),
        result_of(bytes@, DEFAULT_INPUT) == 3628800,
{
    let bytes = stack::code();
    proof {
        assert forall|n: u32| n <= MAX_INPUT implies #[trigger] runs(bytes@, n) && result_of(
            bytes@,
            n,
        ) == factorial_spec(n as nat) by {
            stack::lemma_program_computes_factorial(n);
        }
        assert(runs(bytes@, DEFAULT_INPUT));
        lemma_factorial_values();
    }
    bytes
}

/// Runs `code` on the argument `n` in a fresh frame and returns the value
/// that the program leaves on top of the stack.
pub fn run_with(code: &[u8], n: u32) -> (result: u32)
    requires
        runs(code@, n),
    ensures
        result == result_of(code@, n),
        code@ == program() && n <= MAX_INPUT ==> result == factorial_spec(n as nat),
{
    proof {
        if code@ == program() && n <= MAX_INPUT {
            stack::lemma_program_computes_factorial(n);
        }
    }
    let mut frame = Frame::new(code, n);
    eval(&mut frame);
    proof {
        lemma_outcome_wf(Machine::initial(code@, n));
    }
    frame.pop()
}

/// Runs `code` on the argument `DEFAULT_INPUT`.
pub fn run(code: &[u8]) -> (result: u32)
    requires
        runs(code@, DEFAULT_INPUT),
    ensures
        result == result_of(code@, DEFAULT_INPUT),
        code@ == program() ==> result == 3628800,
{
    proof {
        lemma_factorial_values();
    }
    run_with(code, DEFAULT_INPUT)
}

} // verus!
