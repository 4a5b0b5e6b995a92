//! The compact tree-walker driven by table dispatch: the tag of a node
//! indexes a table of handlers, and the handler that is found there reads the
//! node's operand and evaluates its children through the table again.

use vstd::prelude::*;
use crate::compact_treewalk;
use crate::compact_treewalk::{
    Frame,
    Machine,
    Opcode,
    VAR_X,
    decode,
    lemma_depth,
    lemma_evaluation,
    program,
    result_of,
    runs,
};
use crate::halting::{StepMachine, halts, outcome, run_for, lemma_outcome};
use crate::native::{DEFAULT_INPUT, MAX_INPUT, factorial_spec, lemma_factorial_values};
use crate::writer::OpcodeTag;

verus! {

/// The number of entries in the dispatch table: one for each opcode.
pub const HANDLERS: usize = 9;

/// The state in which the tag that was just read in state `s` still lies
/// ahead.
pub open spec fn before_tag(s: Machine) -> Machine {
    s.at(s.pc - 1)
}

/// The machine in state `s` has just read the tag of a node with this opcode,
/// and that node can be evaluated.
pub open spec fn pending(s: Machine, opcode: Opcode) -> bool {
    &&& decode(s.code, s.pc - 1) matches Some(head)
    &&& head.opcode() == opcode
    &&& before_tag(s).can_evaluate()
}

/// An entry of the dispatch table. It is called when the tag of its opcode
/// has just been read, and it evaluates the rest of the node.
pub trait Handler {
    /// The opcode that this entry serves.
    spec fn opcode(&self) -> Opcode;

    /// Reads the operand, evaluates the children, and returns the node's
    /// value.
    fn exec(&self, frame: &mut Frame) -> (value: u32)
        requires
            pending(old(frame)@, self.opcode()),
        ensures
            (final(frame)@, value) == before_tag(old(frame)@).evaluation(),
        decreases before_tag(old(frame)@).depth(), 0nat,
    ;
}

/// The constant.
pub fn exec_int(frame: &mut Frame) -> (value: u32)
    requires
        pending(old(frame)@, Opcode::Int),
    ensures
        (final(frame)@, value) == before_tag(old(frame)@).evaluation(),
{
    proof {
        lemma_depth(before_tag(frame@));
    }
    frame.read_u32()
}

/// The value in the slot.
pub fn exec_var(frame: &mut Frame) -> (value: u32)
    requires
        pending(old(frame)@, Opcode::Var),
    ensures
        (final(frame)@, value) == before_tag(old(frame)@).evaluation(),
{
    proof {
        lemma_depth(before_tag(frame@));
    }
    let i = frame.read_u8();
    frame.var(i)
}

/// Stores the child's value in the slot, and yields it.
pub fn exec_let(frame: &mut Frame) -> (value: u32)
    requires
        pending(old(frame)@, Opcode::Let),
    ensures
        (final(frame)@, value) == before_tag(old(frame)@).evaluation(),
    decreases before_tag(old(frame)@).depth(), 0nat,
{
    let ghost less = (before_tag(frame@).depth() - 1) as nat;
    proof {
        lemma_depth(before_tag(frame@));
    }
    let i = frame.read_u8();
    proof {
        lemma_evaluation(frame@, less);
    }
    let val = step(frame);
    frame.set_var(i, val);
    val
}

/// `1` if the first child's value is at most the second's, else `0`.
pub fn exec_less_eq(frame: &mut Frame) -> (value: u32)
    requires
        pending(old(frame)@, Opcode::LessEq),
    ensures
        (final(frame)@, value) == before_tag(old(frame)@).evaluation(),
    decreases before_tag(old(frame)@).depth(), 0nat,
{
    let ghost less = (before_tag(frame@).depth() - 1) as nat;
    proof {
        lemma_depth(before_tag(frame@));
    }
    proof {
        lemma_evaluation(frame@, less);
    }
    let a = step(frame);
    proof {
        lemma_evaluation(frame@, less);
    }
    let b = step(frame);
    if a <= b {
        1
    } else {
        0
    }
}

/// The sum of the two children's values.
pub fn exec_add(frame: &mut Frame) -> (value: u32)
    requires
        pending(old(frame)@, Opcode::Add),
    ensures
        (final(frame)@, value) == before_tag(old(frame)@).evaluation(),
    decreases before_tag(old(frame)@).depth(), 0nat,
{
    let ghost less = (before_tag(frame@).depth() - 1) as nat;
    proof {
        lemma_depth(before_tag(frame@));
    }
    proof {
        lemma_evaluation(frame@, less);
    }
    let a = step(frame);
    proof {
        lemma_evaluation(frame@, less);
    }
    let b = step(frame);
    a + b
}

/// The product of the two children's values.
pub fn exec_multiply(frame: &mut Frame) -> (value: u32)
    requires
        pending(old(frame)@, Opcode::Multiply),
    ensures
        (final(frame)@, value) == before_tag(old(frame)@).evaluation(),
    decreases before_tag(old(frame)@).depth(), 0nat,
{
    let ghost less = (before_tag(frame@).depth() - 1) as nat;
    proof {
        lemma_depth(before_tag(frame@));
    }
    proof {
        lemma_evaluation(frame@, less);
    }
    let a = step(frame);
    proof {
        lemma_evaluation(frame@, less);
    }
    let b = step(frame);
    a * b
}

/// Evaluates the child and continues at the target if its value is zero.
pub fn exec_jump_if_not(frame: &mut Frame) -> (value: u32)
    requires
        pending(old(frame)@, Opcode::JumpIfNot),
    ensures
        (final(frame)@, value) == before_tag(old(frame)@).evaluation(),
    decreases before_tag(old(frame)@).depth(), 0nat,
{
    let ghost less = (before_tag(frame@).depth() - 1) as nat;
    proof {
        lemma_depth(before_tag(frame@));
    }
    let offset = frame.read_u16();
    proof {
        lemma_evaluation(frame@, less);
    }
    let condition = step(frame);
    if condition == 0 {
        frame.pc = offset;
    }
    0
}

/// Continues at the target.
pub fn exec_jump(frame: &mut Frame) -> (value: u32)
    requires
        pending(old(frame)@, Opcode::Jump),
    ensures
        (final(frame)@, value) == before_tag(old(frame)@).evaluation(),
{
    proof {
        lemma_depth(before_tag(frame@));
    }
    let offset = frame.read_u16();
    frame.pc = offset;
    0
}

/// Yields zero: a `Halt` that stands as a child ends nothing.
pub fn exec_halt(frame: &mut Frame) -> (value: u32)
    requires
        pending(old(frame)@, Opcode::Halt),
    ensures
        (final(frame)@, value) == before_tag(old(frame)@).evaluation(),
{
    proof {
        lemma_depth(before_tag(frame@));
    }
    0
}

/// The table entry for `Int`.
pub struct IntHandler;

/// The table entry for `Var`.
pub struct VarHandler;

/// The table entry for `Let`.
pub struct LetHandler;

/// The table entry for `LessEq`.
pub struct LessEqHandler;

/// The table entry for `Add`.
pub struct AddHandler;

/// The table entry for `Multiply`.
pub struct MultiplyHandler;

/// The table entry for `JumpIfNot`.
pub struct JumpIfNotHandler;

/// The table entry for `Jump`.
pub struct JumpHandler;

/// The table entry for `Halt`.
pub struct HaltHandler;

impl Handler for IntHandler {
    open spec fn opcode(&self) -> Opcode {
        Opcode::Int
    }

    fn exec(&self, frame: &mut Frame) -> (value: u32) {
        exec_int(frame)
    }
}

impl Handler for VarHandler {
    open spec fn opcode(&self) -> Opcode {
        Opcode::Var
    }

    fn exec(&self, frame: &mut Frame) -> (value: u32) {
        exec_var(frame)
    }
}

impl Handler for LetHandler {
    open spec fn opcode(&self) -> Opcode {
        Opcode::Let
    }

    fn exec(&self, frame: &mut Frame) -> (value: u32)
        decreases before_tag(old(frame)@).depth(), 0nat,
    {
        exec_let(frame)
    }
}

impl Handler for LessEqHandler {
    open spec fn opcode(&self) -> Opcode {
        Opcode::LessEq
    }

    fn exec(&self, frame: &mut Frame) -> (value: u32)
        decreases before_tag(old(frame)@).depth(), 0nat,
    {
        exec_less_eq(frame)
    }
}

impl Handler for AddHandler {
    open spec fn opcode(&self) -> Opcode {
        Opcode::Add
    }

    fn exec(&self, frame: &mut Frame) -> (value: u32)
        decreases before_tag(old(frame)@).depth(), 0nat,
    {
        exec_add(frame)
    }
}

impl Handler for MultiplyHandler {
    open spec fn opcode(&self) -> Opcode {
        Opcode::Multiply
    }

    fn exec(&self, frame: &mut Frame) -> (value: u32)
        decreases before_tag(old(frame)@).depth(), 0nat,
    {
        exec_multiply(frame)
    }
}

impl Handler for JumpIfNotHandler {
    open spec fn opcode(&self) -> Opcode {
        Opcode::JumpIfNot
    }

    fn exec(&self, frame: &mut Frame) -> (value: u32)
        decreases before_tag(old(frame)@).depth(), 0nat,
    {
        exec_jump_if_not(frame)
    }
}

impl Handler for JumpHandler {
    open spec fn opcode(&self) -> Opcode {
        Opcode::Jump
    }

    fn exec(&self, frame: &mut Frame) -> (value: u32) {
        exec_jump(frame)
    }
}

impl Handler for HaltHandler {
    open spec fn opcode(&self) -> Opcode {
        Opcode::Halt
    }

    fn exec(&self, frame: &mut Frame) -> (value: u32) {
        exec_halt(frame)
    }
}

/// The dispatch table: entry `t` serves the opcode whose tag is `t`.
pub fn dispatch_table() -> (table: [&'static dyn Handler; 9])
    ensures
        forall|t: u8|
            t < HANDLERS ==> Opcode::from_tag_spec(t) == Some(
                (#[trigger] array_index(table, t as int)).opcode(),
            ),
{
    let table: [&'static dyn Handler; 9] = [
        &IntHandler,
        &VarHandler,
        &LetHandler,
        &LessEqHandler,
        &AddHandler,
        &MultiplyHandler,
        &JumpIfNotHandler,
        &JumpHandler,
        &HaltHandler,
    ];
    table
}

/// Evaluates the node at the program counter and returns its value: reads
/// the tag and calls the handler that the table holds for it.
pub fn step(frame: &mut Frame) -> (value: u32)
    requires
        old(frame)@.can_evaluate(),
    ensures
        (final(frame)@, value) == old(frame)@.evaluation(),
    decreases old(frame)@.depth(), 1nat,
{
    proof {
        lemma_depth(frame@);
    }
    let opcode = frame.read_u8();
    let table = dispatch_table();
    table[opcode as usize].exec(frame)
}

/// Runs the frame's program from the frame's state until it halts. The frame
/// is left in the halted state, its program counter on the `Halt`.
pub fn eval(frame: &mut Frame)
    requires
        halts(old(frame)@),
    ensures
        final(frame)@ == outcome(old(frame)@),
{
    let ghost goal = outcome(frame@);
    let ghost mut fuel: nat = choose|f: nat| (#[trigger] run_for(frame@, f)) is Some;
    proof {
        lemma_outcome(frame@, fuel);
    }
    while frame.peek_u8() != Opcode::Halt.tag()
        invariant
            run_for(frame@, fuel) == Some(goal),
            frame@.halted() || frame@.next() is Some,
        decreases fuel,
    {
        step(frame);
        proof {
            fuel = (fuel - 1) as nat;
        }
    }
}

/// Assembles the factorial program. On every argument up to `MAX_INPUT` the
/// program halts and returns the argument's factorial.
pub fn code() -> (bytes: Vec<u8>)
    ensures
        bytes@ == program(),
        forall|n: u32|
            n <= MAX_INPUT ==> #[trigger] runs(bytes@, n) && result_of(bytes@, n)
                == factorial_spec(n as nat),
        result_of(bytes@, DEFAULT_INPUT) == 3628800,
{
    let bytes = compact_treewalk::code();
    proof {
        assert forall|n: u32| n <= MAX_INPUT implies #[trigger] runs(bytes@, n) && result_of(
            bytes@,
            n,
        ) == factorial_spec(n as nat) by {
            compact_treewalk::lemma_program_computes_factorial(n);
        }
        assert(runs(bytes@, DEFAULT_INPUT));
        lemma_factorial_values();
    }
    bytes
}

/// Runs `code` on the argument `n` in a fresh frame and returns the running
/// product that the program leaves.
pub fn run_with(code: &[u8], n: u32) -> (result: u32)
    requires
        runs(code@, n),
    ensures
        result == result_of(code@, n),
        code@ == program() && n <= MAX_INPUT ==> result == factorial_spec(n as nat),
{
    proof {
        if code@ == program() && n <= MAX_INPUT {
            compact_treewalk::lemma_program_computes_factorial(n);
        }
    }
    let mut frame = Frame::new(code, n);
    eval(&mut frame);
    frame.variables[VAR_X as usize]
}

/// Runs `code` on the argument `DEFAULT_INPUT`.
pub fn run(code: &[u8]) -> (result: u32)
    requires
        runs(code@, DEFAULT_INPUT),
    ensures
        result == result_of(code@, DEFAULT_INPUT),
        code@ == program() ==> result == 3628800,
{
    proof {
        lemma_factorial_values();
    }
    run_with(code, DEFAULT_INPUT)
}

} // verus!
