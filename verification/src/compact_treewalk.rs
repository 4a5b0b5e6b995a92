//! The compact tree-walker: the program is an expression tree laid out in
//! bytecode, every node in prefix form.
//!
//! A node is one tag byte, then the node's immediate operand if it has one (a
//! 32-bit constant for `Int`, a slot index for `Var` and `Let`, a 16-bit
//! absolute target for the two jumps), then its child nodes one after the
//! other. Evaluating a node reads it from the program counter onwards and
//! yields a value; the jumps move the program counter and yield zero.
//!
//! This module holds what the two dispatch engines of the compact tree-walker
//! share: the node set and its encoding, the machine state and its
//! evaluation function, the frame that the engines drive, and the factorial
//! program.

use vstd::prelude::*;
use crate::encoding::{
    lemma_u16_round_trip,
    lemma_u32_round_trip,
    u16_at,
    u16_from_le,
    u16_le,
    u32_at,
    u32_from_le,
    u32_le,
};
use crate::halting::{
    StepMachine,
    halts,
    outcome,
    lemma_outcome_after_step,
    lemma_outcome_keeps,
    lemma_outcome_of_halted,
};
use crate::native::{MAX_INPUT, factorial_spec, lemma_factorial_fits};
use crate::writer::{OpcodeTag, Writer};

verus! {

/// The number of value slots in a frame.
pub const SLOTS: usize = 256;

/// The slot that holds the argument `n`.
pub const VAR_N: u8 = 0;

/// The slot that holds the loop counter `i`.
pub const VAR_I: u8 = 1;

/// The slot that holds the running product `x`, and in the end the result.
pub const VAR_X: u8 = 2;

/// The operation codes of the compact tree-walker, in the order of their
/// tags.
#[derive(Debug, Clone, Copy, PartialEq, Eq)]
pub enum Opcode {
    Int,
    Var,
    Let,
    LessEq,
    Add,
    Multiply,
    JumpIfNot,
    Jump,
    Halt,
}

impl Opcode {
    /// The opcode that a tag byte stands for, if it stands for any.
    pub open spec fn from_tag_spec(tag: u8) -> Option<Opcode> {
        if tag == 0 {
            Some(Opcode::Int)
        } else if tag == 1 {
            Some(Opcode::Var)
        } else if tag == 2 {
            Some(Opcode::Let)
        } else if tag == 3 {
            Some(Opcode::LessEq)
        } else if tag == 4 {
            Some(Opcode::Add)
        } else if tag == 5 {
            Some(Opcode::Multiply)
        } else if tag == 6 {
            Some(Opcode::JumpIfNot)
        } else if tag == 7 {
            Some(Opcode::Jump)
        } else if tag == 8 {
            Some(Opcode::Halt)
        } else {
            None
        }
    }

    /// Maps a tag byte to its opcode; a byte that is no tag gives `None`.
    pub fn from_tag(tag: u8) -> (opcode: Option<Opcode>)
        ensures
            opcode == Opcode::from_tag_spec(tag),
    {
        match tag {
            0 => Some(Opcode::Int),
            1 => Some(Opcode::Var),
            2 => Some(Opcode::Let),
            3 => Some(Opcode::LessEq),
            4 => Some(Opcode::Add),
            5 => Some(Opcode::Multiply),
            6 => Some(Opcode::JumpIfNot),
            7 => Some(Opcode::Jump),
            8 => Some(Opcode::Halt),
            _ => None,
        }
    }
}

impl OpcodeTag for Opcode {
    open spec fn tag_spec(&self) -> u8 {
        match self {
            Opcode::Int => 0,
            Opcode::Var => 1,
            Opcode::Let => 2,
            Opcode::LessEq => 3,
            Opcode::Add => 4,
            Opcode::Multiply => 5,
            Opcode::JumpIfNot => 6,
            Opcode::Jump => 7,
            Opcode::Halt => 8,
        }
    }

    fn tag(&self) -> (t: u8) {
        match self {
            Opcode::Int => 0,
            Opcode::Var => 1,
            Opcode::Let => 2,
            Opcode::LessEq => 3,
            Opcode::Add => 4,
            Opcode::Multiply => 5,
            Opcode::JumpIfNot => 6,
            Opcode::Jump => 7,
            Opcode::Halt => 8,
        }
    }
}

/// Tag and opcode determine each other.
pub proof fn lemma_tag_round_trip(opcode: Opcode)
    ensures
        Opcode::from_tag_spec(opcode.tag_spec()) == Some(opcode),
{
}

/// The head of a node: its tag with the immediate operand. The children
/// follow the head in the buffer.
pub ghost enum Head {
    /// The constant `value`. No child.
    Int { value: u32 },
    /// The value in `slot`. No child.
    Var { slot: u8 },
    /// Stores the value of the one child in `slot`, and yields it.
    Let { slot: u8 },
    /// `1` if the first child's value is at most the second's, else `0`.
    LessEq,
    /// The sum of the two children's values.
    Add,
    /// The product of the two children's values.
    Multiply,
    /// Evaluates the one child; continues at `target` if its value is zero.
    JumpIfNot { target: u16 },
    /// Continues at `target`. No child.
    Jump { target: u16 },
    /// Ends the run where it stands between nodes; as a child it yields zero.
    Halt,
}

impl Head {
    /// The opcode of this head.
    pub open spec fn opcode(self) -> Opcode {
        match self {
            Head::Int { .. } => Opcode::Int,
            Head::Var { .. } => Opcode::Var,
            Head::Let { .. } => Opcode::Let,
            Head::LessEq => Opcode::LessEq,
            Head::Add => Opcode::Add,
            Head::Multiply => Opcode::Multiply,
            Head::JumpIfNot { .. } => Opcode::JumpIfNot,
            Head::Jump { .. } => Opcode::Jump,
            Head::Halt => Opcode::Halt,
        }
    }

    /// The offset that this head may continue at, if it is a jump.
    pub open spec fn target(self) -> Option<u16> {
        match self {
            Head::JumpIfNot { target } => Some(target),
            Head::Jump { target } => Some(target),
            _ => None,
        }
    }

    /// The number of bytes this head takes, tag included.
    pub open spec fn size(self) -> int {
        size_of(self.opcode())
    }

    /// The bytes that stand for this head: the tag, then the operand.
    pub open spec fn encoding(self) -> Seq<u8> {
        let tag = seq![self.opcode().tag_spec()];
        match self {
            Head::Int { value } => tag + u32_le(value),
            Head::Var { slot } => tag + seq![slot],
            Head::Let { slot } => tag + seq![slot],
            Head::JumpIfNot { target } => tag + u16_le(target),
            Head::Jump { target } => tag + u16_le(target),
            _ => tag,
        }
    }
}

/// The number of bytes that a head with this opcode takes.
pub open spec fn size_of(opcode: Opcode) -> int {
    match opcode {
        Opcode::Int => 5,
        Opcode::Var => 2,
        Opcode::Let => 2,
        Opcode::LessEq => 1,
        Opcode::Add => 1,
        Opcode::Multiply => 1,
        Opcode::JumpIfNot => 3,
        Opcode::Jump => 3,
        Opcode::Halt => 1,
    }
}

/// The head encoded at offset `pc` of `code`: the tag first, then the
/// immediate operand. `None` where `pc` is outside the buffer, the byte
/// there is no tag, or the operand would lie beyond the end.
pub open spec fn decode(code: Seq<u8>, pc: int) -> Option<Head> {
    if 0 <= pc < code.len() {
        match Opcode::from_tag_spec(code[pc]) {
            Some(opcode) => if pc + size_of(opcode) <= code.len() {
                Some(
                    match opcode {
                        Opcode::Int => Head::Int { value: u32_at(code, pc + 1) },
                        Opcode::Var => Head::Var { slot: code[pc + 1] },
                        Opcode::Let => Head::Let { slot: code[pc + 1] },
                        Opcode::LessEq => Head::LessEq,
                        Opcode::Add => Head::Add,
                        Opcode::Multiply => Head::Multiply,
                        Opcode::JumpIfNot => Head::JumpIfNot { target: u16_at(code, pc + 1) },
                        Opcode::Jump => Head::Jump { target: u16_at(code, pc + 1) },
                        Opcode::Halt => Head::Halt,
                    },
                )
            } else {
                None
            },
            None => None,
        }
    } else {
        None
    }
}

/// Decoding gives back the head that was encoded, whatever stands before and
/// after it in the buffer.
pub proof fn lemma_decode_encoding(before: Seq<u8>, head: Head, after: Seq<u8>)
    ensures
        head.encoding().len() == head.size(),
        decode(before + head.encoding() + after, before.len() as int) == Some(head),
{
    let code = before + head.encoding() + after;
    let at = before.len() as int;
    assert(code[at] == head.opcode().tag_spec());
    match head {
        Head::Int { value } => {
            assert(code.subrange(at + 1, at + 5) =~= u32_le(value));
            lemma_u32_round_trip(code, at + 1, value);
        },
        Head::Var { slot } => {
            assert(code[at + 1] == slot);
        },
        Head::Let { slot } => {
            assert(code[at + 1] == slot);
        },
        Head::JumpIfNot { target } => {
            assert(code.subrange(at + 1, at + 3) =~= u16_le(target));
            lemma_u16_round_trip(code, at + 1, target);
        },
        Head::Jump { target } => {
            assert(code.subrange(at + 1, at + 3) =~= u16_le(target));
            lemma_u16_round_trip(code, at + 1, target);
        },
        _ => {},
    }
}

/// Decoding `code` front to back from offset `from`, one node after the
/// other, arrives exactly at offset `at`.
pub open spec fn reaches(code: Seq<u8>, from: int, at: int) -> bool
    decreases at - from,
{
    if from >= at {
        from == at
    } else {
        match decode(code, from) {
            Some(head) => from + head.size() <= at && reaches(code, from + head.size(), at),
            None => false,
        }
    }
}

/// `at` is the offset of a tag byte in `code`, not of an operand byte: it is
/// where a node begins, or the end of the buffer.
pub open spec fn opcode_boundary(code: Seq<u8>, at: int) -> bool {
    reaches(code, 0, at)
}

/// Where the scan of `code` has arrived at offset `at`, it can go on: what
/// stands there decodes, with every operand inside the buffer, and if it is a
/// jump, its target is the offset of a tag byte.
pub open spec fn sound_at(code: Seq<u8>, at: int) -> bool {
    at < code.len() ==> match decode(code, at) {
        Some(head) => match head.target() {
            Some(target) => opcode_boundary(code, target as int),
            None => true,
        },
        None => false,
    }
}

/// The buffer holds a program: decoded front to back it is one node
/// after the other with no byte left over, every jump in it has the offset
/// of a tag byte as its target, and its last byte is a `Halt`.
pub open spec fn well_formed(code: Seq<u8>) -> bool {
    &&& forall|at: int| #[trigger] opcode_boundary(code, at) ==> sound_at(code, at)
    &&& opcode_boundary(code, code.len() - 1)
    &&& decode(code, code.len() - 1) == Some(Head::Halt)
}

/// The state of one run: the program, the program counter and the slots.
pub ghost struct Machine {
    /// The bytecode, which a run never changes.
    pub code: Seq<u8>,
    /// The offset of the next node.
    pub pc: int,
    /// The value slots.
    pub slots: Seq<u32>,
}

/// The state after a node has been evaluated, and the node's value.
pub type Evaluation = Option<(Machine, u32)>;

impl Machine {
    /// The state in which a run of `code` on the argument `n` starts: at
    /// offset zero, with `n` in its slot and zero in all others.
    pub open spec fn initial(code: Seq<u8>, n: u32) -> Machine {
        Machine {
            code,
            pc: 0,
            slots: Seq::new(SLOTS as nat, |i: int| 0u32).update(VAR_N as int, n),
        }
    }

    /// The value that a run hands back: the running product.
    pub open spec fn result(self) -> u32 {
        self.slots[VAR_X as int]
    }

    /// The same state with the program counter at `pc`.
    pub open spec fn at(self, pc: int) -> Machine {
        Machine { pc, ..self }
    }

    /// The same state with `value` in slot `slot`.
    pub open spec fn with_slot(self, slot: u8, value: u32) -> Machine {
        Machine { slots: self.slots.update(slot as int, value), ..self }
    }

    /// Evaluates the node at the program counter: the head is read, then the
    /// children are evaluated in order, each from where the one before it
    /// ended. `fuel` bounds the depth of nesting. `None` where `fuel` does not
    /// suffice, a head cannot be decoded or ends beyond the last 16-bit offset,
    /// or a sum or product leaves 32 bits.
    pub open spec fn evaluate(self, fuel: nat) -> Evaluation
        decreases fuel,
    {
        if fuel == 0 {
            None
        } else {
            let less = (fuel - 1) as nat;
            match decode(self.code, self.pc) {
                Some(head) => {
                    let body = self.at(self.pc + head.size());
                    if body.pc > u16::MAX {
                        None
                    } else {
                        match head {
                            Head::Int { value } => Some((body, value)),
                            Head::Var { slot } => Some((body, self.slots[slot as int])),
                            Head::Let { slot } => match body.evaluate(less) {
                                Some((end, x)) => Some((end.with_slot(slot, x), x)),
                                None => None,
                            },
                            Head::LessEq => match body.evaluate(less) {
                                Some((middle, a)) => match middle.evaluate(less) {
                                    Some((end, b)) => Some((end, if a <= b { 1u32 } else { 0u32 })),
                                    None => None,
                                },
                                None => None,
                            },
                            Head::Add => match body.evaluate(less) {
                                Some((middle, a)) => match middle.evaluate(less) {
                                    Some((end, b)) => if a + b <= u32::MAX {
                                        Some((end, (a + b) as u32))
                                    } else {
                                        None
                                    },
                                    None => None,
                                },
                                None => None,
                            },
                            Head::Multiply => match body.evaluate(less) {
                                Some((middle, a)) => match middle.evaluate(less) {
                                    Some((end, b)) => if a * b <= u32::MAX {
                                        Some((end, (a * b) as u32))
                                    } else {
                                        None
                                    },
                                    None => None,
                                },
                                None => None,
                            },
                            Head::JumpIfNot { target } => match body.evaluate(less) {
                                Some((end, condition)) => if condition == 0 {
                                    Some((end.at(target as int), 0u32))
                                } else {
                                    Some((end, 0u32))
                                },
                                None => None,
                            },
                            Head::Jump { target } => Some((body.at(target as int), 0u32)),
                            Head::Halt => Some((body, 0u32)),
                        }
                    }
                },
                None => None,
            }
        }
    }

    /// Some depth suffices to evaluate the node at the program counter.
    pub open spec fn can_evaluate(self) -> bool {
        exists|fuel: nat| (#[trigger] self.evaluate(fuel)) is Some
    }

    /// The least depth that suffices to evaluate the node at the program
    /// counter.
    pub open spec fn depth(self) -> nat
        recommends
            self.can_evaluate(),
    {
        choose|fuel: nat| self.least_depth(fuel)
    }

    /// `fuel` suffices to evaluate the node at the program counter, and one
    /// less does not.
    pub open spec fn least_depth(self, fuel: nat) -> bool {
        self.evaluate(fuel) is Some && self.evaluate((fuel - 1) as nat) is None
    }

    /// The state after the node at the program counter has been evaluated,
    /// and the node's value.
    pub open spec fn evaluation(self) -> (Machine, u32)
        recommends
            self.can_evaluate(),
    {
        self.evaluate(self.depth()).unwrap()
    }
}

/// An evaluation that succeeds within some depth gives the same state and
/// value within any greater depth.
pub proof fn lemma_evaluate_more_fuel(s: Machine, fuel: nat, more: nat)
    requires
        s.evaluate(fuel) is Some,
        fuel <= more,
    ensures
        s.evaluate(more) == s.evaluate(fuel),
    decreases fuel,
{
    let less = (fuel - 1) as nat;
    let more_less = (more - 1) as nat;
    let head = decode(s.code, s.pc)->0;
    let body = s.at(s.pc + head.size());
    match head {
        Head::Int { .. } => {},
        Head::Var { .. } => {},
        Head::Let { .. } => {
            lemma_evaluate_more_fuel(body, less, more_less);
        },
        Head::LessEq => {
            lemma_evaluate_more_fuel(body, less, more_less);
            lemma_evaluate_more_fuel(body.evaluate(less).unwrap().0, less, more_less);
        },
        Head::Add => {
            lemma_evaluate_more_fuel(body, less, more_less);
            lemma_evaluate_more_fuel(body.evaluate(less).unwrap().0, less, more_less);
        },
        Head::Multiply => {
            lemma_evaluate_more_fuel(body, less, more_less);
            lemma_evaluate_more_fuel(body.evaluate(less).unwrap().0, less, more_less);
        },
        Head::JumpIfNot { .. } => {
            lemma_evaluate_more_fuel(body, less, more_less);
        },
        Head::Jump { .. } => {},
        Head::Halt => {},
    }
}

proof fn lemma_least_depth(s: Machine, fuel: nat)
    requires
        s.evaluate(fuel) is Some,
    ensures
        exists|least: nat| s.least_depth(least),
    decreases fuel,
{
    if s.evaluate((fuel - 1) as nat) is Some {
        lemma_least_depth(s, (fuel - 1) as nat);
    } else {
        assert(s.least_depth(fuel));
    }
}

/// The evaluation of a node does not depend on the depth that was allowed
/// for it: whatever depth suffices gives the evaluation, and none less than
/// `depth` suffices.
pub proof fn lemma_evaluation(s: Machine, fuel: nat)
    requires
        s.evaluate(fuel) is Some,
    ensures
        s.can_evaluate(),
        1 <= s.depth() <= fuel,
        s.evaluate(s.depth()) == Some(s.evaluation()),
        s.evaluate(fuel) == Some(s.evaluation()),
{
    lemma_least_depth(s, fuel);
    assert(s.least_depth(s.depth()));
    if fuel < s.depth() {
        lemma_evaluate_more_fuel(s, fuel, (s.depth() - 1) as nat);
    } else {
        lemma_evaluate_more_fuel(s, s.depth(), fuel);
    }
}

/// Where a node can be evaluated, its least depth suffices to evaluate it.
pub proof fn lemma_depth(s: Machine)
    requires
        s.can_evaluate(),
    ensures
        s.depth() >= 1,
        s.evaluate(s.depth()) == Some(s.evaluation()),
{
    lemma_evaluation(s, choose|fuel: nat| (#[trigger] s.evaluate(fuel)) is Some);
}

impl StepMachine for Machine {
    /// The node at the program counter is `Halt`.
    open spec fn halted(self) -> bool {
        decode(self.code, self.pc) == Some(Head::Halt)
    }

    /// Evaluates the node at the program counter, to whatever depth it takes,
    /// and drops its value.
    open spec fn next(self) -> Option<Machine> {
        if self.can_evaluate() {
            Some(self.evaluation().0)
        } else {
            None
        }
    }
}

/// Evaluating a node never changes the program.
pub proof fn lemma_evaluate_keeps_program(s: Machine, fuel: nat)
    requires
        s.evaluate(fuel) is Some,
    ensures
        s.evaluate(fuel).unwrap().0.code == s.code,
    decreases fuel,
{
    let less = (fuel - 1) as nat;
    let head = decode(s.code, s.pc)->0;
    let body = s.at(s.pc + head.size());
    match head {
        Head::Let { .. } | Head::JumpIfNot { .. } => {
            lemma_evaluate_keeps_program(body, less);
        },
        Head::LessEq | Head::Add | Head::Multiply => {
            lemma_evaluate_keeps_program(body, less);
            lemma_evaluate_keeps_program(body.evaluate(less).unwrap().0, less);
        },
        _ => {},
    }
}

/// A run never changes the program it runs.
pub proof fn lemma_outcome_keeps_program(s: Machine)
    requires
        halts(s),
    ensures
        outcome(s).code == s.code,
{
    assert forall|t: Machine|
        t.code == s.code && !t.halted() && #[trigger] t.next() is Some implies t.next()->0.code
        == s.code by {
        lemma_depth(t);
        lemma_evaluate_keeps_program(t, t.depth());
    }
    lemma_outcome_keeps(s, |t: Machine| t.code == s.code);
}

/// A run of `code` on the argument `n` reaches `Halt` without getting stuck.
pub open spec fn runs(code: Seq<u8>, n: u32) -> bool {
    halts(Machine::initial(code, n))
}

/// What a run of `code` on the argument `n` hands back: the running product
/// in the state that the run halts in.
pub open spec fn result_of(code: Seq<u8>, n: u32) -> u32
    recommends
        runs(code, n),
{
    outcome(Machine::initial(code, n)).result()
}

/// The machine state of one run in executable form: the slots, the borrowed
/// bytecode and the program counter.
pub struct Frame<'c> {
    /// The value slots.
    pub variables: [u32; 256],
    /// The program, read-only for the whole run.
    pub bytecode: &'c [u8],
    /// The offset of the next byte to read.
    pub pc: u16,
}

impl<'c> View for Frame<'c> {
    type V = Machine;

    open spec fn view(&self) -> Machine {
        Machine { code: self.bytecode@, pc: self.pc as int, slots: self.variables@ }
    }
}

impl<'c> Frame<'c> {
    /// A fresh frame for a run of `code` on the argument `n`.
    pub fn new(code: &'c [u8], n: u32) -> (frame: Frame<'c>)
        ensures
            frame@ == Machine::initial(code@, n),
    {
        let mut frame = Frame { variables: [0; 256], bytecode: code, pc: 0 };
        frame.variables[VAR_N as usize] = n;
        assert(frame.variables@ =~= Seq::new(SLOTS as nat, |i: int| 0u32).update(
            VAR_N as int,
            n,
        ));
        frame
    }

    /// Reads the byte at the program counter and moves past it.
    pub fn read_u8(&mut self) -> (x: u8)
        requires
            old(self)@.pc < old(self)@.code.len(),
            old(self)@.pc + 1 <= u16::MAX,
        ensures
            x == old(self)@.code[old(self)@.pc],
            final(self)@ == old(self)@.at(old(self)@.pc + 1),
    {
        let x = self.bytecode[self.pc as usize];
        self.pc += 1;
        x
    }

    /// The byte at the program counter, which stays where it is.
    pub fn peek_u8(&self) -> (x: u8)
        requires
            self@.pc < self@.code.len(),
        ensures
            x == self@.code[self@.pc],
    {
        self.bytecode[self.pc as usize]
    }

    /// Reads the 16-bit value at the program counter and moves past it.
    pub fn read_u16(&mut self) -> (x: u16)
        requires
            old(self)@.pc + 2 <= old(self)@.code.len(),
            old(self)@.pc + 2 <= u16::MAX,
        ensures
            x == u16_at(old(self)@.code, old(self)@.pc),
            final(self)@ == old(self)@.at(old(self)@.pc + 2),
    {
        let lo = self.bytecode[self.pc as usize];
        let hi = self.bytecode[self.pc as usize + 1];
        self.pc += 2;
        u16_from_le(lo, hi)
    }

    /// Reads the 32-bit value at the program counter and moves past it.
    pub fn read_u32(&mut self) -> (x: u32)
        requires
            old(self)@.pc + 4 <= old(self)@.code.len(),
            old(self)@.pc + 4 <= u16::MAX,
        ensures
            x == u32_at(old(self)@.code, old(self)@.pc),
            final(self)@ == old(self)@.at(old(self)@.pc + 4),
    {
        let b0 = self.bytecode[self.pc as usize];
        let b1 = self.bytecode[self.pc as usize + 1];
        let b2 = self.bytecode[self.pc as usize + 2];
        let b3 = self.bytecode[self.pc as usize + 3];
        self.pc += 4;
        u32_from_le(b0, b1, b2, b3)
    }

    /// The value in slot `i`.
    pub fn var(&self, i: u8) -> (val: u32)
        ensures
            val == self@.slots[i as int],
    {
        self.variables[i as usize]
    }

    /// Stores `val` in slot `i`.
    pub fn set_var(&mut self, i: u8, val: u32)
        ensures
            final(self)@ == old(self)@.with_slot(i, val),
    {
        self.variables[i as usize] = val;
    }
}

/// The offset at which the factorial program's loop begins.
pub const LOOP_START: u16 = 14;

/// The offset at which the factorial program's loop is left.
pub const LOOP_END: u16 = 42;

/// The factorial program, byte for byte:
///
/// ```text
///  0  Let i        7  Let x       14  JumpIfNot 42   22  Let x
///  2    Int 1      9    Int 1     17    LessEq       24    Multiply
///                                 18      Var i      25      Var x
///                                 20      Var n      27      Var i
///
/// 29  Let i       39  Jump 14     42  Halt
/// 31    Add
/// 32      Var i
/// 34      Int 1
/// ```
#[verifier::opaque]
pub open spec fn program() -> Seq<u8> {
    seq![
        2u8, 1, 0, 1, 0, 0, 0,
        2, 2, 0, 1, 0, 0, 0,
        6, 42, 0, 3, 1, 1, 1, 0,
        2, 2, 5, 1, 2, 1, 1,
        2, 1, 4, 1, 1, 0, 1, 0, 0, 0,
        7, 14, 0,
        8,
    ]
}

/// Assembles the factorial program: `x = 1; i = 1; while i <= n { x = x * i;
/// i = i + 1 }`. The jump out of the loop is emitted before the loop's end is
/// known, and patched when it is.
#[verifier::rlimit(50)]
pub fn code() -> (bytes: Vec<u8>)
    ensures
        bytes@ == program(),
{
    let mut w = Writer::default();

    w.write_opcode(Opcode::Let);
    w.write_u8(VAR_I);
    {
        w.write_opcode(Opcode::Int);
        w.write_u32(1);
    }

    w.write_opcode(Opcode::Let);
    w.write_u8(VAR_X);
    {
        w.write_opcode(Opcode::Int);
        w.write_u32(1);
    }

    let loop_start = w.pc();
    w.write_opcode(Opcode::JumpIfNot);
    let loop_jump_hole = w.reserve_jump_target();
    {
        w.write_opcode(Opcode::LessEq);
        {
            w.write_opcode(Opcode::Var);
            w.write_u8(VAR_I);
        }
        {
            w.write_opcode(Opcode::Var);
            w.write_u8(VAR_N);
        }
    }

    w.write_opcode(Opcode::Let);
    w.write_u8(VAR_X);
    {
        w.write_opcode(Opcode::Multiply);
        {
            w.write_opcode(Opcode::Var);
            w.write_u8(VAR_X);
        }
        {
            w.write_opcode(Opcode::Var);
            w.write_u8(VAR_I);
        }
    }

    w.write_opcode(Opcode::Let);
    w.write_u8(VAR_I);
    {
        w.write_opcode(Opcode::Add);
        {
            w.write_opcode(Opcode::Var);
            w.write_u8(VAR_I);
        }
        {
            w.write_opcode(Opcode::Int);
            w.write_u32(1);
        }
    }

    w.write_opcode(Opcode::Jump);
    w.write_u16(loop_start);

    let loop_end = w.pc();
    w.patch_u16(loop_jump_hole, loop_end);
    w.write_opcode(Opcode::Halt);

    reveal(program);
    assert(w@ =~= program());
    w.finish()
}

/// What stands at each node offset of the factorial program. Both jump
/// targets are offsets of nodes that stand between others, not inside one:
/// the backward jump lands on the conditional jump that opens the loop, the
/// patched forward jump on `Halt`.
pub proof fn lemma_program_layout()
    ensures
        program().len() == 43,
        decode(program(), 0) == Some(Head::Let { slot: VAR_I }),
        decode(program(), 2) == Some(Head::Int { value: 1 }),
        decode(program(), 7) == Some(Head::Let { slot: VAR_X }),
        decode(program(), 9) == Some(Head::Int { value: 1 }),
        decode(program(), 14) == Some(Head::JumpIfNot { target: LOOP_END }),
        decode(program(), 17) == Some(Head::LessEq),
        decode(program(), 18) == Some(Head::Var { slot: VAR_I }),
        decode(program(), 20) == Some(Head::Var { slot: VAR_N }),
        decode(program(), 22) == Some(Head::Let { slot: VAR_X }),
        decode(program(), 24) == Some(Head::Multiply),
        decode(program(), 25) == Some(Head::Var { slot: VAR_X }),
        decode(program(), 27) == Some(Head::Var { slot: VAR_I }),
        decode(program(), 29) == Some(Head::Let { slot: VAR_I }),
        decode(program(), 31) == Some(Head::Add),
        decode(program(), 32) == Some(Head::Var { slot: VAR_I }),
        decode(program(), 34) == Some(Head::Int { value: 1 }),
        decode(program(), 39) == Some(Head::Jump { target: LOOP_START }),
        decode(program(), 42) == Some(Head::Halt),
{
    reveal(program);
}

/// The factorial program is well formed. The hole that was reserved for the
/// way out of the loop holds the loop's end, and both jumps land on a tag
/// byte: following a target never leads into the middle of an operand.
pub proof fn lemma_program_well_formed()
    ensures
        u16_at(program(), 15) == LOOP_END,
        u16_at(program(), 40) == LOOP_START,
        opcode_boundary(program(), LOOP_START as int),
        opcode_boundary(program(), LOOP_END as int),
        well_formed(program()),
{
    lemma_program_layout();
    reveal_with_fuel(reaches, 21);
    assert forall|at: int| #[trigger] opcode_boundary(program(), at) implies sound_at(
        program(),
        at,
    ) by {
        assert(at == 0
            || at == 2
            || at == 7
            || at == 9
            || at == 14
            || at == 17
            || at == 18
            || at == 20
            || at == 22
            || at == 24
            || at == 25
            || at == 27
            || at == 29
            || at == 31
            || at == 32
            || at == 34
            || at == 39
            || at == 42
            || at == 43);
    }
}

/// The machine stands at the head of the loop in a run on `n`, about to
/// compare the counter `i`, with `(i - 1)!` as the running product.
pub open spec fn at_loop_head(s: Machine, n: u32, i: nat) -> bool {
    &&& s.code == program()
    &&& s.pc == LOOP_START
    &&& s.slots.len() == SLOTS
    &&& s.slots[VAR_N as int] == n
    &&& s.slots[VAR_I as int] == i
    &&& s.slots[VAR_X as int] == factorial_spec((i - 1) as nat)
    &&& 1 <= i <= n + 1
    &&& n <= MAX_INPUT
}

/// The two assignments that open the program.
proof fn lemma_initial_assignments(s: Machine)
    requires
        s.code == program(),
    ensures
        s.pc == 0 ==> s.evaluate(2) == Some((s.with_slot(VAR_I, 1).at(7), 1u32)),
        s.pc == 7 ==> s.evaluate(2) == Some((s.with_slot(VAR_X, 1).at(14), 1u32)),
{
    lemma_program_layout();
    reveal_with_fuel(Machine::evaluate, 2);
}

/// The conditional jump at the head of the loop: on to the loop's body while
/// `i <= n`, else out to the loop's end.
proof fn lemma_loop_test(s: Machine)
    requires
        s.code == program(),
        s.pc == LOOP_START,
    ensures
        s.slots[VAR_I as int] <= s.slots[VAR_N as int] ==> s.evaluate(3) == Some((s.at(22), 0u32)),
        s.slots[VAR_I as int] > s.slots[VAR_N as int] ==> s.evaluate(3) == Some(
            (s.at(LOOP_END as int), 0u32),
        ),
{
    lemma_program_layout();
    reveal_with_fuel(Machine::evaluate, 3);
}

/// `x = x * i`
proof fn lemma_loop_multiply(s: Machine)
    requires
        s.code == program(),
        s.pc == 22,
        s.slots[VAR_X as int] * s.slots[VAR_I as int] <= u32::MAX,
    ensures
        s.evaluate(3) == Some(
            (
                s.with_slot(VAR_X, (s.slots[VAR_X as int] * s.slots[VAR_I as int]) as u32).at(29),
                (s.slots[VAR_X as int] * s.slots[VAR_I as int]) as u32,
            ),
        ),
{
    lemma_program_layout();
    reveal_with_fuel(Machine::evaluate, 3);
}

/// `i = i + 1`
proof fn lemma_loop_increment(s: Machine)
    requires
        s.code == program(),
        s.pc == 29,
        s.slots[VAR_I as int] + 1 <= u32::MAX,
    ensures
        s.evaluate(3) == Some(
            (
                s.with_slot(VAR_I, (s.slots[VAR_I as int] + 1) as u32).at(39),
                (s.slots[VAR_I as int] + 1) as u32,
            ),
        ),
{
    lemma_program_layout();
    reveal_with_fuel(Machine::evaluate, 3);
}

/// The jump back to the head of the loop.
proof fn lemma_loop_back(s: Machine)
    requires
        s.code == program(),
        s.pc == 39,
    ensures
        s.evaluate(1) == Some((s.at(LOOP_START as int), 0u32)),
{
    lemma_program_layout();
}

/// From the head of the loop the program runs to `Halt` with `n!` as the
/// running product.
pub proof fn lemma_loop_computes_factorial(s: Machine, n: u32, i: nat)
    requires
        at_loop_head(s, n, i),
    ensures
        halts(s),
        outcome(s).result() == factorial_spec(n as nat),
    decreases n + 1 - i,
{
    let x = s.slots[VAR_X as int];
    lemma_loop_test(s);
    if i <= n {
        lemma_factorial_fits(i);
        lemma_factorial_fits((i - 1) as nat);
        assert(factorial_spec(i) == i * factorial_spec((i - 1) as nat));
        assert(x * i == factorial_spec(i)) by (nonlinear_arith)
            requires
                x == factorial_spec((i - 1) as nat),
                factorial_spec(i) == i * factorial_spec((i - 1) as nat),
        ;
        let s1 = s.at(22);
        lemma_evaluation(s, 3);
        let s2 = s1.with_slot(VAR_X, (x * i) as u32).at(29);
        lemma_loop_multiply(s1);
        lemma_evaluation(s1, 3);
        let s3 = s2.with_slot(VAR_I, (i + 1) as u32).at(39);
        lemma_loop_increment(s2);
        lemma_evaluation(s2, 3);
        let s4 = s3.at(14);
        lemma_loop_back(s3);
        lemma_evaluation(s3, 1);
        assert(at_loop_head(s4, n, i + 1));
        lemma_loop_computes_factorial(s4, n, i + 1);
        lemma_program_layout();
        lemma_outcome_after_step(s3);
        lemma_outcome_after_step(s2);
        lemma_outcome_after_step(s1);
        lemma_outcome_after_step(s);
    } else {
        let s1 = s.at(42);
        lemma_evaluation(s, 3);
        lemma_program_layout();
        lemma_outcome_of_halted(s1);
        lemma_outcome_after_step(s);
    }
}

/// Run on any argument whose factorial fits in 32 bits, the factorial program
/// halts, and the result it leaves is that factorial.
pub proof fn lemma_program_computes_factorial(n: u32)
    requires
        n <= MAX_INPUT,
    ensures
        runs(program(), n),
        result_of(program(), n) == factorial_spec(n as nat),
{
    let s = Machine::initial(program(), n);
    let s1 = s.with_slot(VAR_I, 1).at(7);
    lemma_initial_assignments(s);
    lemma_evaluation(s, 2);
    let s2 = s1.with_slot(VAR_X, 1).at(14);
    lemma_initial_assignments(s1);
    lemma_evaluation(s1, 2);
    assert(factorial_spec(0) == 1);
    assert(at_loop_head(s2, n, 1));
    lemma_loop_computes_factorial(s2, n, 1);
    lemma_program_layout();
    lemma_outcome_after_step(s1);
    lemma_outcome_after_step(s);
}

} // verus!
