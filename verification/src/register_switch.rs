//! The register machine driven by switch dispatch: one loop that decodes the
//! tag at the program counter and branches on it.

use vstd::prelude::*;
use vstd::pervasive::unreached;
use crate::halting::{StepMachine, halts, outcome, run_for, lemma_outcome};
use crate::native::{DEFAULT_INPUT, MAX_INPUT, factorial_spec, lemma_factorial_values};
use crate::register;
use crate::register::{Frame, Opcode, VAR_X, program, result_of, runs};

verus! {

/// Runs the frame's program from the frame's state until it halts. The frame
/// is left in the halted state, its program counter on the `Halt`.
#[inline(never)]
pub fn eval(frame: &mut Frame)
    requires
        halts(old(frame)@),
    ensures
        final(frame)@ == outcome(old(frame)@),
{
    let ghost goal = outcome(frame@);
    let ghost mut fuel: nat = choose|f: nat| (#[trigger] run_for(frame@, f)) is Some;
    proof {
        lemma_outcome(frame@, fuel);
    }
    loop
        invariant
            run_for(frame@, fuel) == Some(goal),
        ensures
            frame@ == goal,
        decreases fuel,
    {
        let ghost before = frame@;
        assert(before.halted() || before.next() is Some);
        let opcode = Opcode::from_tag(frame.peek_u8());
        match opcode {
            Some(Opcode::Int) => {
                frame.pc += 1;
                let target = frame.read_u8();
                let i = frame.read_u32();
                frame.set_var(target, i);
            },
            Some(Opcode::LessEq) => {
                frame.pc += 1;
                let ra = frame.read_u8();
                let rb = frame.read_u8();
                let a = frame.var(ra);
                let b = frame.var(rb);
                let target = frame.read_u8();
                frame.set_var(target, if a <= b { 1 } else { 0 });
            },
            Some(Opcode::Add) => {
                frame.pc += 1;
                let ra = frame.read_u8();
                let rb = frame.read_u8();
                let a = frame.var(ra);
                let b = frame.var(rb);
                let target = frame.read_u8();
                frame.set_var(target, a + b);
            },
            Some(Opcode::Multiply) => {
                frame.pc += 1;
                let ra = frame.read_u8();
                let rb = frame.read_u8();
                let a = frame.var(ra);
                let b = frame.var(rb);
                let target = frame.read_u8();
                frame.set_var(target, a * b);
            },
            Some(Opcode::JumpIfNot) => {
                frame.pc += 1;
                let offset = frame.read_u16();
                let source = frame.read_u8();
                let condition = frame.var(source);
                if condition == 0 {
                    frame.pc = offset;
                }
            },
            Some(Opcode::Jump) => {
                frame.pc += 1;
                let offset = frame.read_u16();
                frame.pc = offset;
            },
            Some(Opcode::Halt) => break,
            None => unreached(),
        }
        proof {
            assert(frame@ == before.next()->0);
            fuel = (fuel - 1) as nat;
        }
    }
}

/// Assembles the factorial program. On every argument up to `MAX_INPUT` the
/// program halts and returns the argument's factorial.
pub fn code() -> (bytes: Vec<u8>)
    ensures
        bytes@ == program(),
        forall|n: u32|
            n <= MAX_INPUT ==> #[trigger] runs(bytes@, n) && result_of(bytes@, n)
                == factorial_spec(n as nat),
        result_of(bytes@, DEFAULT_INPUT) == 3628800,
{
    let bytes = register::code();
    proof {
        assert forall|n: u32| n <= MAX_INPUT implies #[trigger] runs(bytes@, n) && result_of(
            bytes@,
            n,
        ) == factorial_spec(n as nat) by {
            register::lemma_program_computes_factorial(n);
        }
        assert(runs(bytes@, DEFAULT_INPUT));
        lemma_factorial_values();
    }
    bytes
}

/// Runs `code` on the argument `n` in a fresh frame and returns the running
/// product that the program leaves.
pub fn run_with(code: &[u8], n: u32) -> (result: u32)
    requires
        runs(code@, n),
    ensures
        result == result_of(code@, n),
        code@ == program() && n <= MAX_INPUT ==> result == factorial_spec(n as nat),
{
    proof {
        if code@ == program() && n <= MAX_INPUT {
            register::lemma_program_computes_factorial(n);
        }
    }
    let mut frame = Frame::new(code, n);
    eval(&mut frame);
    frame.variables[VAR_X as usize]
}

/// Runs `code` on the argument `DEFAULT_INPUT`.
pub fn run(code: &[u8]) -> (result: u32)
    requires
        runs(code@, DEFAULT_INPUT),
    ensures
        result == result_of(code@, DEFAULT_INPUT),
        code@ == program() ==> result == 3628800,
{
    proof {
        lemma_factorial_values();
    }
    run_with(code, DEFAULT_INPUT)
}

} // verus!
