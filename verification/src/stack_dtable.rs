//! The stack machine driven by table dispatch: the tag at the program
//! counter indexes a table of handlers, and the handler that is found there
//! decodes its own operand and carries the instruction out.

use vstd::prelude::*;
use crate::halting::{StepMachine, halts, outcome, run_for, lemma_outcome};
use crate::native::{DEFAULT_INPUT, MAX_INPUT, factorial_spec, lemma_factorial_values};
use crate::stack;
use crate::stack::{
    Frame,
    Machine,
    Opcode,
    decode,
    lemma_outcome_wf,
    program,
    result_of,
    runs,
};
use crate::writer::OpcodeTag;

verus! {

/// The number of entries in the dispatch table: one for each opcode but
/// `Halt`, which the engine recognises before it dispatches.
pub const HANDLERS: usize = 8;

/// The state in which the tag that was just read in state `s` still lies
/// ahead.
pub open spec fn before_tag(s: Machine) -> Machine {
    s.at(s.pc - 1)
}

/// The machine in state `s` has just read the tag of an instruction with this
/// opcode, and that instruction can be carried out.
pub open spec fn pending(s: Machine, opcode: Opcode) -> bool {
    &&& decode(s.code, s.pc - 1) matches Some(instr)
    &&& instr.opcode() == opcode
    &&& before_tag(s).next() is Some
}

/// An entry of the dispatch table. It is called when the tag of its opcode
/// has just been read, and it carries out the rest of the instruction.
pub trait Handler {
    /// The opcode that this entry serves.
    spec fn opcode(&self) -> Opcode;

    /// Reads the operand, if there is one, and carries the instruction out.
    fn exec(&self, frame: &mut Frame)
        requires
            pending(old(frame)@, self.opcode()),
        ensures
            Some(final(frame)@) == before_tag(old(frame)@).next(),
    ;
}

/// Pushes the immediate.
pub fn exec_int(frame: &mut Frame)
    requires
        pending(old(frame)@, Opcode::Int),
    ensures
        Some(final(frame)@) == before_tag(old(frame)@).next(),
{
    let i = frame.read_u32();
    frame.push(i);
}

/// Pops a value and stores it in the slot.
pub fn exec_let(frame: &mut Frame)
    requires
        pending(old(frame)@, Opcode::Let),
    ensures
        Some(final(frame)@) == before_tag(old(frame)@).next(),
{
    let i = frame.read_u8();
    let val = frame.pop();
    frame.stack[i as usize] = val;
}

/// Pushes the value in the slot.
pub fn exec_var(frame: &mut Frame)
    requires
        pending(old(frame)@, Opcode::Var),
    ensures
        Some(final(frame)@) == before_tag(old(frame)@).next(),
{
    let i = frame.read_u8();
    frame.push(frame.stack[i as usize]);
}

/// Pops `b`, pops `a`, pushes `1` if `a <= b`, else `0`.
pub fn exec_less_eq(frame: &mut Frame)
    requires
        pending(old(frame)@, Opcode::LessEq),
    ensures
        Some(final(frame)@) == before_tag(old(frame)@).next(),
{
    let b = frame.pop();
    let a = frame.pop();
    frame.push(if a <= b { 1 } else { 0 });
}

/// Pops `b`, pops `a`, pushes `a + b`.
pub fn exec_add(frame: &mut Frame)
    requires
        pending(old(frame)@, Opcode::Add),
    ensures
        Some(final(frame)@) == before_tag(old(frame)@).next(),
{
    let b = frame.pop();
    let a = frame.pop();
    frame.push(a + b);
}

/// Pops `b`, pops `a`, pushes `a * b`.
pub fn exec_multiply(frame: &mut Frame)
    requires
        pending(old(frame)@, Opcode::Multiply),
    ensures
        Some(final(frame)@) == before_tag(old(frame)@).next(),
{
    let b = frame.pop();
    let a = frame.pop();
    frame.push(a * b);
}

/// Pops the condition and continues at the target if it is zero.
pub fn exec_jump_if_not(frame: &mut Frame)
    requires
        pending(old(frame)@, Opcode::JumpIfNot),
    ensures
        Some(final(frame)@) == before_tag(old(frame)@).next(),
{
    let offset = frame.read_u16();
    let condition = frame.pop();
    if condition == 0 {
        frame.pc = offset;
    }
}

/// Continues at the target.
pub fn exec_jump(frame: &mut Frame)
    requires
        pending(old(frame)@, Opcode::Jump),
    ensures
        Some(final(frame)@) == before_tag(old(frame)@).next(),
{
    let offset = frame.read_u16();
    frame.pc = offset;
}

/// The table entry for `Int`.
pub struct IntHandler;

/// The table entry for `Let`.
pub struct LetHandler;

/// The table entry for `Var`.
pub struct VarHandler;

/// The table entry for `LessEq`.
pub struct LessEqHandler;

/// The table entry for `Add`.
pub struct AddHandler;

/// The table entry for `Multiply`.
pub struct MultiplyHandler;

/// The table entry for `JumpIfNot`.
pub struct JumpIfNotHandler;

/// The table entry for `Jump`.
pub struct JumpHandler;

impl Handler for IntHandler {
    open spec fn opcode(&self) -> Opcode {
        Opcode::Int
    }

    fn exec(&self, frame: &mut Frame) {
        exec_int(frame)
    }
}

impl Handler for LetHandler {
    open spec fn opcode(&self) -> Opcode {
        Opcode::Let
    }

    fn exec(&self, frame: &mut Frame) {
        exec_let(frame)
    }
}

impl Handler for VarHandler {
    open spec fn opcode(&self) -> Opcode {
        Opcode::Var
    }

    fn exec(&self, frame: &mut Frame) {
        exec_var(frame)
    }
}

impl Handler for LessEqHandler {
    open spec fn opcode(&self) -> Opcode {
        Opcode::LessEq
    }

    fn exec(&self, frame: &mut Frame) {
        exec_less_eq(frame)
    }
}

impl Handler for AddHandler {
    open spec fn opcode(&self) -> Opcode {
        Opcode::Add
    }

    fn exec(&self, frame: &mut Frame) {
        exec_add(frame)
    }
}

impl Handler for MultiplyHandler {
    open spec fn opcode(&self) -> Opcode {
        Opcode::Multiply
    }

    fn exec(&self, frame: &mut Frame) {
        exec_multiply(frame)
    }
}

impl Handler for JumpIfNotHandler {
    open spec fn opcode(&self) -> Opcode {
        Opcode::JumpIfNot
    }

    fn exec(&self, frame: &mut Frame) {
        exec_jump_if_not(frame)
    }
}

impl Handler for JumpHandler {
    open spec fn opcode(&self) -> Opcode {
        Opcode::Jump
    }

    fn exec(&self, frame: &mut Frame) {
        exec_jump(frame)
    }
}

/// The dispatch table: entry `t` serves the opcode whose tag is `t`.
pub fn dispatch_table() -> (table: [&'static dyn Handler; 8])
    ensures
        forall|t: u8|
            t < HANDLERS ==> Opcode::from_tag_spec(t) == Some(
                (#[trigger] array_index(table, t as int)).opcode(),
            ),
{
    let table: [&'static dyn Handler; 8] = [
        &IntHandler,
        &LetHandler,
        &VarHandler,
        &LessEqHandler,
        &AddHandler,
        &MultiplyHandler,
        &JumpIfNotHandler,
        &JumpHandler,
    ];
    table
}

/// Carries out the instruction at the program counter: reads its tag and
/// calls the handler that the table holds for it.
pub fn step(frame: &mut Frame)
    requires
        !old(frame)@.halted(),
        old(frame)@.next() is Some,
    ensures
        Some(final(frame)@) == old(frame)@.next(),
{
    let opcode = frame.read_u8();
    let table = dispatch_table();
    table[opcode as usize].exec(frame);
}

/// Runs the frame's program from the frame's state until it halts. The frame
/// is left in the halted state, its program counter on the `Halt`.
pub fn eval(frame: &mut Frame)
    requires
        halts(old(frame)@),
    ensures
        final(frame)@ == outcome(old(frame)@),
{
    let ghost goal = outcome(frame@);
    let ghost mut fuel: nat = choose|f: nat| (#[trigger] run_for(frame@, f)) is Some;
    proof {
        lemma_outcome(frame@, fuel);
    }
    while frame.peek_u8() != Opcode::Halt.tag()
        invariant
            run_for(frame@, fuel) == Some(goal),
            frame@.halted() || frame@.next() is Some,
        decreases fuel,
    {
        step(frame);
        proof {
            fuel = (fuel - 1) as nat;
        }
    }
}

/// Assembles the factorial program. On every argument up to `MAX_INPUT` the
/// program halts and returns the argument's factorial.
pub fn code() -> (bytes: Vec<u8>)
    ensures
        bytes@ == program(),
        forall|n: u32|
            n <= MAX_INPUT ==> #[trigger] runs(bytes@, n) && result_of(bytes@, n)
                == factorial_spec(n as nat),
        result_of(bytes@, DEFAULT_INPUT) == 3628800,
{
    let bytes = stack::code();
    proof {
        assert forall|n: u32| n <= MAX_INPUT implies #[trigger] runs(bytes@, n) && result_of(
            bytes@,
            n,
        ) == factorial_spec(n as nat) by {
            stack::lemma_program_computes_factorial(n);
        }
        assert(runs(bytes@, DEFAULT_INPUT));
        lemma_factorial_values();
    }
    bytes
}

/// Runs `code` on the argument `n` in a fresh frame and returns the value
/// that the program leaves on top of the stack.
pub fn run_with(code: &[u8], n: u32) -> (result: u32)
    requires
        runs(code@, n),
    ensures
        result == result_of(code@, n),
        code@ == program() && n <= MAX_INPUT ==> result == factorial_spec(n as nat),
{
    proof {
        if code@ == program() && n <= MAX_INPUT {
            stack::lemma_program_computes_factorial(n);
        }
    }
    let mut frame = Frame::new(code, n);
    eval(&mut frame);
    proof {
        lemma_outcome_wf(Machine::initial(code@, n));
    }
    frame.pop()
}

/// Runs `code` on the argument `DEFAULT_INPUT`.
pub fn run(code: &[u8]) -> (result: u32)
    requires
        runs(code@, DEFAULT_INPUT),
    ensures
        result == result_of(code@, DEFAULT_INPUT),
        code@ == program() ==> result == 3628800,
{
    proof {
        lemma_factorial_values();
    }
    run_with(code, DEFAULT_INPUT)
}

} // verus!
