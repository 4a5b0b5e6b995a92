//! The stack machine: instructions take their operands from an operand stack
//! and push their result onto it.
//!
//! An instruction is one tag byte followed by its operands, if it has any: a
//! 32-bit immediate for `Int`, a slot index for `Let` and `Var`, a 16-bit
//! absolute target for the two jumps. The operand stack grows upwards from
//! slot zero of a fixed bank of slots; `Let` and `Var` address that same bank
//! by index, so the values at the bottom of the stack serve as the program's
//! variables.
//!
//! This module holds what the two dispatch engines of the stack machine
//! share: the instruction set and its encoding, the machine state and its
//! transition function, the frame that the engines drive, and the factorial
//! program.

use vstd::prelude::*;
use crate::encoding::{
    lemma_u16_round_trip,
    lemma_u32_round_trip,
    u16_at,
    u16_from_le,
    u16_le,
    u32_at,
    u32_from_le,
    u32_le,
};
use crate::halting::{
    StepMachine,
    halts,
    outcome,
    lemma_outcome_after_step,
    lemma_outcome_keeps,
    lemma_outcome_of_halted,
};
use crate::native::{MAX_INPUT, factorial_spec, lemma_factorial_fits};
use crate::writer::{OpcodeTag, Writer};

verus! {

/// The number of value slots in a frame, and so the greatest stack depth.
pub const SLOTS: usize = 256;

/// The slot that holds the argument `n`: the bottom of the stack.
pub const VAR_N: u8 = 0;

/// The slot that holds the loop counter `i`.
pub const VAR_I: u8 = 1;

/// The slot that holds the running product `x`.
pub const VAR_X: u8 = 2;

/// The operation codes of the stack machine, in the order of their tags.
#[derive(Debug, Clone, Copy, PartialEq, Eq)]
pub enum Opcode {
    Int,
    Let,
    Var,
    LessEq,
    Add,
    Multiply,
    JumpIfNot,
    Jump,
    Halt,
}

impl Opcode {
    /// The opcode that a tag byte stands for, if it stands for any.
    pub open spec fn from_tag_spec(tag: u8) -> Option<Opcode> {
        if tag == 0 {
            Some(Opcode::Int)
        } else if tag == 1 {
            Some(Opcode::Let)
        } else if tag == 2 {
            Some(Opcode::Var)
        } else if tag == 3 {
            Some(Opcode::LessEq)
        } else if tag == 4 {
            Some(Opcode::Add)
        } else if tag == 5 {
            Some(Opcode::Multiply)
        } else if tag == 6 {
            Some(Opcode::JumpIfNot)
        } else if tag == 7 {
            Some(Opcode::Jump)
        } else if tag == 8 {
            Some(Opcode::Halt)
        } else {
            None
        }
    }

    /// Maps a tag byte to its opcode; a byte that is no tag gives `None`.
    pub fn from_tag(tag: u8) -> (opcode: Option<Opcode>)
        ensures
            opcode == Opcode::from_tag_spec(tag),
    {
        match tag {
            0 => Some(Opcode::Int),
            1 => Some(Opcode::Let),
            2 => Some(Opcode::Var),
            3 => Some(Opcode::LessEq),
            4 => Some(Opcode::Add),
            5 => Some(Opcode::Multiply),
            6 => Some(Opcode::JumpIfNot),
            7 => Some(Opcode::Jump),
            8 => Some(Opcode::Halt),
            _ => None,
        }
    }
}

impl OpcodeTag for Opcode {
    open spec fn tag_spec(&self) -> u8 {
        match self {
            Opcode::Int => 0,
            Opcode::Let => 1,
            Opcode::Var => 2,
            Opcode::LessEq => 3,
            Opcode::Add => 4,
            Opcode::Multiply => 5,
            Opcode::JumpIfNot => 6,
            Opcode::Jump => 7,
            Opcode::Halt => 8,
        }
    }

    fn tag(&self) -> (t: u8) {
        match self {
            Opcode::Int => 0,
            Opcode::Let => 1,
            Opcode::Var => 2,
            Opcode::LessEq => 3,
            Opcode::Add => 4,
            Opcode::Multiply => 5,
            Opcode::JumpIfNot => 6,
            Opcode::Jump => 7,
            Opcode::Halt => 8,
        }
    }
}

/// Tag and opcode determine each other.
pub proof fn lemma_tag_round_trip(opcode: Opcode)
    ensures
        Opcode::from_tag_spec(opcode.tag_spec()) == Some(opcode),
{
}

/// One decoded instruction with its operands.
pub ghost enum Instr {
    /// Push `value`.
    Int { value: u32 },
    /// Pop a value and store it in `slot`.
    Let { slot: u8 },
    /// Push the value in `slot`.
    Var { slot: u8 },
    /// Pop `b`, pop `a`, push `1` if `a <= b`, else `0`.
    LessEq,
    /// Pop `b`, pop `a`, push `a + b`.
    Add,
    /// Pop `b`, pop `a`, push `a * b`.
    Multiply,
    /// Pop the condition; continue at `target` if it is zero, else fall
    /// through.
    JumpIfNot { target: u16 },
    /// Continue at `target`.
    Jump { target: u16 },
    /// Stop.
    Halt,
}

impl Instr {
    /// The opcode of this instruction.
    pub open spec fn opcode(self) -> Opcode {
        match self {
            Instr::Int { .. } => Opcode::Int,
            Instr::Let { .. } => Opcode::Let,
            Instr::Var { .. } => Opcode::Var,
            Instr::LessEq => Opcode::LessEq,
            Instr::Add => Opcode::Add,
            Instr::Multiply => Opcode::Multiply,
            Instr::JumpIfNot { .. } => Opcode::JumpIfNot,
            Instr::Jump { .. } => Opcode::Jump,
            Instr::Halt => Opcode::Halt,
        }
    }

    /// The offset that this instruction may continue at, if it is a jump.
    pub open spec fn target(self) -> Option<u16> {
        match self {
            Instr::JumpIfNot { target } => Some(target),
            Instr::Jump { target } => Some(target),
            _ => None,
        }
    }

    /// The number of bytes this instruction takes, tag included.
    pub open spec fn size(self) -> int {
        size_of(self.opcode())
    }

    /// The bytes that stand for this instruction: the tag, then the operand.
    pub open spec fn encoding(self) -> Seq<u8> {
        let tag = seq![self.opcode().tag_spec()];
        match self {
            Instr::Int { value } => tag + u32_le(value),
            Instr::Let { slot } => tag + seq![slot],
            Instr::Var { slot } => tag + seq![slot],
            Instr::JumpIfNot { target } => tag + u16_le(target),
            Instr::Jump { target } => tag + u16_le(target),
            _ => tag,
        }
    }
}

/// The number of bytes that an instruction with this opcode takes.
pub open spec fn size_of(opcode: Opcode) -> int {
    match opcode {
        Opcode::Int => 5,
        Opcode::Let => 2,
        Opcode::Var => 2,
        Opcode::LessEq => 1,
        Opcode::Add => 1,
        Opcode::Multiply => 1,
        Opcode::JumpIfNot => 3,
        Opcode::Jump => 3,
        Opcode::Halt => 1,
    }
}

/// The instruction encoded at offset `pc` of `code`: the tag first, then the
/// operand. `None` where `pc` is outside the buffer, the byte there is no
/// tag, or the operand would lie beyond the end.
pub open spec fn decode(code: Seq<u8>, pc: int) -> Option<Instr> {
    if 0 <= pc < code.len() {
        match Opcode::from_tag_spec(code[pc]) {
            Some(opcode) => if pc + size_of(opcode) <= code.len() {
                Some(
                    match opcode {
                        Opcode::Int => Instr::Int { value: u32_at(code, pc + 1) },
                        Opcode::Let => Instr::Let { slot: code[pc + 1] },
                        Opcode::Var => Instr::Var { slot: code[pc + 1] },
                        Opcode::LessEq => Instr::LessEq,
                        Opcode::Add => Instr::Add,
                        Opcode::Multiply => Instr::Multiply,
                        Opcode::JumpIfNot => Instr::JumpIfNot { target: u16_at(code, pc + 1) },
                        Opcode::Jump => Instr::Jump { target: u16_at(code, pc + 1) },
                        Opcode::Halt => Instr::Halt,
                    },
                )
            } else {
                None
            },
            None => None,
        }
    } else {
        None
    }
}

/// Decoding gives back the instruction that was encoded, whatever stands
/// before and after it in the buffer.
pub proof fn lemma_decode_encoding(before: Seq<u8>, instr: Instr, after: Seq<u8>)
    ensures
        instr.encoding().len() == instr.size(),
        decode(before + instr.encoding() + after, before.len() as int) == Some(instr),
{
    let code = before + instr.encoding() + after;
    let at = before.len() as int;
    assert(code[at] == instr.opcode().tag_spec());
    match instr {
        Instr::Int { value } => {
            assert(code.subrange(at + 1, at + 5) =~= u32_le(value));
            lemma_u32_round_trip(code, at + 1, value);
        },
        Instr::Let { slot } => {
            assert(code[at + 1] == slot);
        },
        Instr::Var { slot } => {
            assert(code[at + 1] == slot);
        },
        Instr::JumpIfNot { target } => {
            assert(code.subrange(at + 1, at + 3) =~= u16_le(target));
            lemma_u16_round_trip(code, at + 1, target);
        },
        Instr::Jump { target } => {
            assert(code.subrange(at + 1, at + 3) =~= u16_le(target));
            lemma_u16_round_trip(code, at + 1, target);
        },
        _ => {},
    }
}

/// Decoding `code` front to back from offset `from`, one instruction after the
/// other, arrives exactly at offset `at`.
pub open spec fn reaches(code: Seq<u8>, from: int, at: int) -> bool
    decreases at - from,
{
    if from >= at {
        from == at
    } else {
        match decode(code, from) {
            Some(instr) => from + instr.size() <= at && reaches(code, from + instr.size(), at),
            None => false,
        }
    }
}

/// `at` is the offset of a tag byte in `code`, not of an operand byte: it is
/// where an instruction begins, or the end of the buffer.
pub open spec fn opcode_boundary(code: Seq<u8>, at: int) -> bool {
    reaches(code, 0, at)
}

/// Where the scan of `code` has arrived at offset `at`, it can go on: what
/// stands there decodes, with every operand inside the buffer, and if it is a
/// jump, its target is the offset of a tag byte.
pub open spec fn sound_at(code: Seq<u8>, at: int) -> bool {
    at < code.len() ==> match decode(code, at) {
        Some(instr) => match instr.target() {
            Some(target) => opcode_boundary(code, target as int),
            None => true,
        },
        None => false,
    }
}

/// The buffer holds a program: decoded front to back it is one instruction
/// after the other with no byte left over, every jump in it has the offset
/// of a tag byte as its target, and its last byte is a `Halt`.
pub open spec fn well_formed(code: Seq<u8>) -> bool {
    &&& forall|at: int| #[trigger] opcode_boundary(code, at) ==> sound_at(code, at)
    &&& opcode_boundary(code, code.len() - 1)
    &&& decode(code, code.len() - 1) == Some(Instr::Halt)
}

/// The state of one run: the program, the program counter, the slots and the
/// stack pointer.
pub ghost struct Machine {
    /// The bytecode, which a run never changes.
    pub code: Seq<u8>,
    /// The offset of the next instruction.
    pub pc: int,
    /// The value slots. The operand stack is `slots[0]` to `slots[sp - 1]`.
    pub slots: Seq<u32>,
    /// The number of values on the operand stack.
    pub sp: int,
}

impl Machine {
    /// The program counter is an offset, there are `SLOTS` slots, and the
    /// stack lies within them.
    pub open spec fn wf(self) -> bool {
        &&& 0 <= self.pc <= u16::MAX
        &&& self.slots.len() == SLOTS
        &&& 0 <= self.sp <= SLOTS
    }

    /// The state in which a run of `code` on the argument `n` starts: at
    /// offset zero, with `n` alone on the stack and zero in all other slots.
    pub open spec fn initial(code: Seq<u8>, n: u32) -> Machine {
        Machine {
            code,
            pc: 0,
            slots: Seq::new(SLOTS as nat, |i: int| 0u32).update(VAR_N as int, n),
            sp: 1,
        }
    }

    /// The value on top of the stack.
    pub open spec fn top(self) -> u32
        recommends
            self.sp >= 1,
    {
        self.slots[self.sp - 1]
    }

    /// The value just below the top of the stack.
    pub open spec fn second(self) -> u32
        recommends
            self.sp >= 2,
    {
        self.slots[self.sp - 2]
    }

    /// The same state with the program counter at `pc`.
    pub open spec fn at(self, pc: int) -> Machine {
        Machine { pc, ..self }
    }

    /// The same state with `value` in slot `slot`.
    pub open spec fn with_slot(self, slot: u8, value: u32) -> Machine {
        Machine { slots: self.slots.update(slot as int, value), ..self }
    }

    /// The same state with `value` pushed onto the stack.
    pub open spec fn pushed(self, value: u32) -> Machine
        recommends
            self.sp < SLOTS,
    {
        Machine { slots: self.slots.update(self.sp, value), sp: self.sp + 1, ..self }
    }

    /// The same state with the top `count` values taken off the stack. The
    /// slots keep what they held.
    pub open spec fn popped(self, count: int) -> Machine
        recommends
            self.sp >= count,
    {
        Machine { sp: self.sp - count, ..self }
    }

    /// The state after `instr`, which stands at the program counter, has been
    /// carried out. `None` where the stack holds too few values or has no
    /// room for one more, where a sum or product leaves 32 bits, where the
    /// end of the instruction lies beyond the last 16-bit offset, or where the
    /// stack pointer is outside the slots to begin with.
    pub open spec fn apply(self, instr: Instr) -> Option<Machine> {
        let next = self.pc + instr.size();
        if next > u16::MAX || self.sp < 0 || self.sp > SLOTS {
            None
        } else {
            match instr {
                Instr::Int { value } => if self.sp < SLOTS {
                    Some(self.pushed(value).at(next))
                } else {
                    None
                },
                Instr::Let { slot } => if self.sp >= 1 {
                    Some(self.popped(1).with_slot(slot, self.top()).at(next))
                } else {
                    None
                },
                Instr::Var { slot } => if self.sp < SLOTS {
                    Some(self.pushed(self.slots[slot as int]).at(next))
                } else {
                    None
                },
                Instr::LessEq => if self.sp >= 2 {
                    let flag = if self.second() <= self.top() {
                        1u32
                    } else {
                        0u32
                    };
                    Some(self.popped(2).pushed(flag).at(next))
                } else {
                    None
                },
                Instr::Add => if self.sp >= 2 && self.second() + self.top() <= u32::MAX {
                    Some(self.popped(2).pushed((self.second() + self.top()) as u32).at(next))
                } else {
                    None
                },
                Instr::Multiply => if self.sp >= 2 && self.second() * self.top() <= u32::MAX {
                    Some(self.popped(2).pushed((self.second() * self.top()) as u32).at(next))
                } else {
                    None
                },
                Instr::JumpIfNot { target } => if self.sp >= 1 {
                    if self.top() == 0 {
                        Some(self.popped(1).at(target as int))
                    } else {
                        Some(self.popped(1).at(next))
                    }
                } else {
                    None
                },
                Instr::Jump { target } => Some(self.at(target as int)),
                Instr::Halt => None,
            }
        }
    }
}

impl StepMachine for Machine {
    /// The instruction at the program counter is `Halt`.
    open spec fn halted(self) -> bool {
        decode(self.code, self.pc) == Some(Instr::Halt)
    }

    /// Decodes the instruction at the program counter and carries it out.
    open spec fn next(self) -> Option<Machine> {
        match decode(self.code, self.pc) {
            Some(instr) => self.apply(instr),
            None => None,
        }
    }
}

/// A run from a well-formed state ends in a well-formed state: the stack
/// stays within the slots and the program counter within the 16-bit offsets.
pub proof fn lemma_outcome_wf(s: Machine)
    requires
        s.wf(),
        halts(s),
    ensures
        outcome(s).wf(),
{
    lemma_outcome_keeps(s, |t: Machine| t.wf());
}

/// A run never changes the program it runs.
pub proof fn lemma_outcome_keeps_program(s: Machine)
    requires
        halts(s),
    ensures
        outcome(s).code == s.code,
{
    lemma_outcome_keeps(s, |t: Machine| t.code == s.code);
}

/// A run of `code` on the argument `n` reaches `Halt` without getting stuck,
/// and with a value on the stack to hand back.
pub open spec fn runs(code: Seq<u8>, n: u32) -> bool {
    &&& halts(Machine::initial(code, n))
    &&& outcome(Machine::initial(code, n)).sp >= 1
}

/// What a run of `code` on the argument `n` hands back: the top of the stack
/// in the state that the run halts in.
pub open spec fn result_of(code: Seq<u8>, n: u32) -> u32
    recommends
        runs(code, n),
{
    outcome(Machine::initial(code, n)).top()
}

/// The machine state of one run in executable form: the slots with the stack
/// pointer, the borrowed bytecode and the program counter.
pub struct Frame<'c> {
    /// The value slots, of which the first `sp` are the operand stack.
    pub stack: [u32; 256],
    /// The number of values on the operand stack.
    pub sp: usize,
    /// The program, read-only for the whole run.
    pub bytecode: &'c [u8],
    /// The offset of the next byte to read.
    pub pc: u16,
}

impl<'c> View for Frame<'c> {
    type V = Machine;

    open spec fn view(&self) -> Machine {
        Machine {
            code: self.bytecode@,
            pc: self.pc as int,
            slots: self.stack@,
            sp: self.sp as int,
        }
    }
}

impl<'c> Frame<'c> {
    /// A fresh frame for a run of `code` on the argument `n`.
    pub fn new(code: &'c [u8], n: u32) -> (frame: Frame<'c>)
        ensures
            frame@ == Machine::initial(code@, n),
    {
        let mut frame = Frame { stack: [0; 256], sp: 0, bytecode: code, pc: 0 };
        frame.push(n);
        assert(frame.stack@ =~= Seq::new(SLOTS as nat, |i: int| 0u32).update(VAR_N as int, n));
        frame
    }

    /// Reads the byte at the program counter and moves past it.
    pub fn read_u8(&mut self) -> (x: u8)
        requires
            old(self)@.pc < old(self)@.code.len(),
            old(self)@.pc + 1 <= u16::MAX,
        ensures
            x == old(self)@.code[old(self)@.pc],
            final(self)@ == old(self)@.at(old(self)@.pc + 1),
    {
        let x = self.bytecode[self.pc as usize];
        self.pc += 1;
        x
    }

    /// The byte at the program counter, which stays where it is.
    pub fn peek_u8(&self) -> (x: u8)
        requires
            self@.pc < self@.code.len(),
        ensures
            x == self@.code[self@.pc],
    {
        self.bytecode[self.pc as usize]
    }

    /// Reads the 16-bit value at the program counter and moves past it.
    pub fn read_u16(&mut self) -> (x: u16)
        requires
            old(self)@.pc + 2 <= old(self)@.code.len(),
            old(self)@.pc + 2 <= u16::MAX,
        ensures
            x == u16_at(old(self)@.code, old(self)@.pc),
            final(self)@ == old(self)@.at(old(self)@.pc + 2),
    {
        let lo = self.bytecode[self.pc as usize];
        let hi = self.bytecode[self.pc as usize + 1];
        self.pc += 2;
        u16_from_le(lo, hi)
    }

    /// Reads the 32-bit value at the program counter and moves past it.
    pub fn read_u32(&mut self) -> (x: u32)
        requires
            old(self)@.pc + 4 <= old(self)@.code.len(),
            old(self)@.pc + 4 <= u16::MAX,
        ensures
            x == u32_at(old(self)@.code, old(self)@.pc),
            final(self)@ == old(self)@.at(old(self)@.pc + 4),
    {
        let b0 = self.bytecode[self.pc as usize];
        let b1 = self.bytecode[self.pc as usize + 1];
        let b2 = self.bytecode[self.pc as usize + 2];
        let b3 = self.bytecode[self.pc as usize + 3];
        self.pc += 4;
        u32_from_le(b0, b1, b2, b3)
    }

    /// The value in slot `i`.
    pub fn var(&self, i: u8) -> (val: u32)
        ensures
            val == self@.slots[i as int],
    {
        self.stack[i as usize]
    }

    /// Stores `val` in slot `i`.
    pub fn set_var(&mut self, i: u8, val: u32)
        ensures
            final(self)@ == old(self)@.with_slot(i, val),
    {
        self.stack[i as usize] = val;
    }

    /// Pushes `x` onto the operand stack.
    pub fn push(&mut self, x: u32)
        requires
            old(self)@.sp < SLOTS,
        ensures
            final(self)@ == old(self)@.pushed(x),
    {
        self.stack[self.sp] = x;
        self.sp += 1;
    }

    /// Takes the top value off the operand stack.
    pub fn pop(&mut self) -> (x: u32)
        requires
            1 <= old(self)@.sp <= SLOTS,
        ensures
            x == old(self)@.top(),
            final(self)@ == old(self)@.popped(1),
    {
        let x = self.stack[self.sp - 1];
        self.sp -= 1;
        x
    }
}

/// The offset at which the factorial program's loop begins.
pub const LOOP_START: u16 = 10;

/// The offset at which the factorial program's loop is left.
pub const LOOP_END: u16 = 38;

/// The factorial program, byte for byte. The argument `n` is on the stack
/// when the program starts; the two loads that open the program put `i` and
/// `x` on top of it, and so into the slots that `Let` and `Var` know them by.
///
/// ```text
///  0  Int       1
///  5  Int       1
/// 10  Var       i
/// 12  Var       n
/// 14  LessEq
/// 15  JumpIfNot 38
/// 18  Var       x
/// 20  Var       i
/// 22  Multiply
/// 23  Let       x
/// 25  Var       i
/// 27  Int       1
/// 32  Add
/// 33  Let       i
/// 35  Jump      10
/// 38  Var       x
/// 40  Halt
/// ```
#[verifier::opaque]
pub open spec fn program() -> Seq<u8> {
    seq![
        0u8, 1, 0, 0, 0,
        0, 1, 0, 0, 0,
        2, 1,
        2, 0,
        3,
        6, 38, 0,
        2, 2,
        2, 1,
        5,
        1, 2,
        2, 1,
        0, 1, 0, 0, 0,
        4,
        1, 1,
        7, 10, 0,
        2, 2,
        8,
    ]
}

/// Assembles the factorial program: `x = 1; i = 1; while i <= n { x = x * i;
/// i = i + 1 }`, with `x` left on top of the stack. The jump out of the loop
/// is emitted before the loop's end is known, and patched when it is.
#[verifier::rlimit(50)]
pub fn code() -> (bytes: Vec<u8>)
    ensures
        bytes@ == program(),
{
    let mut w = Writer::default();

    // i = 1
    w.write_opcode(Opcode::Int);
    w.write_u32(1);

    // x = 1
    w.write_opcode(Opcode::Int);
    w.write_u32(1);

    let loop_start = w.pc();

    // i <= n
    w.write_opcode(Opcode::Var);
    w.write_u8(VAR_I);

    w.write_opcode(Opcode::Var);
    w.write_u8(VAR_N);

    w.write_opcode(Opcode::LessEq);

    w.write_opcode(Opcode::JumpIfNot);
    let loop_jump_hole = w.reserve_jump_target();

    // x = x * i
    w.write_opcode(Opcode::Var);
    w.write_u8(VAR_X);

    w.write_opcode(Opcode::Var);
    w.write_u8(VAR_I);

    w.write_opcode(Opcode::Multiply);

    w.write_opcode(Opcode::Let);
    w.write_u8(VAR_X);

    // i = i + 1
    w.write_opcode(Opcode::Var);
    w.write_u8(VAR_I);

    w.write_opcode(Opcode::Int);
    w.write_u32(1);

    w.write_opcode(Opcode::Add);

    w.write_opcode(Opcode::Let);
    w.write_u8(VAR_I);

    w.write_opcode(Opcode::Jump);
    w.write_u16(loop_start);

    let loop_end = w.pc();
    w.write_opcode(Opcode::Var);
    w.write_u8(VAR_X);

    w.patch_u16(loop_jump_hole, loop_end);
    w.write_opcode(Opcode::Halt);

    reveal(program);
    assert(w@ =~= program());
    w.finish()
}

/// What stands at each instruction offset of the factorial program. Both
/// jump targets are offsets of instructions: the backward jump lands on the
/// first load of the comparison that opens the loop, the patched forward
/// jump on the load that puts the result on top of the stack.
pub proof fn lemma_program_layout()
    ensures
        program().len() == 41,
        decode(program(), 0) == Some(Instr::Int { value: 1 }),
        decode(program(), 5) == Some(Instr::Int { value: 1 }),
        decode(program(), 10) == Some(Instr::Var { slot: VAR_I }),
        decode(program(), 12) == Some(Instr::Var { slot: VAR_N }),
        decode(program(), 14) == Some(Instr::LessEq),
        decode(program(), 15) == Some(Instr::JumpIfNot { target: LOOP_END }),
        decode(program(), 18) == Some(Instr::Var { slot: VAR_X }),
        decode(program(), 20) == Some(Instr::Var { slot: VAR_I }),
        decode(program(), 22) == Some(Instr::Multiply),
        decode(program(), 23) == Some(Instr::Let { slot: VAR_X }),
        decode(program(), 25) == Some(Instr::Var { slot: VAR_I }),
        decode(program(), 27) == Some(Instr::Int { value: 1 }),
        decode(program(), 32) == Some(Instr::Add),
        decode(program(), 33) == Some(Instr::Let { slot: VAR_I }),
        decode(program(), 35) == Some(Instr::Jump { target: LOOP_START }),
        decode(program(), 38) == Some(Instr::Var { slot: VAR_X }),
        decode(program(), 40) == Some(Instr::Halt),
{
    reveal(program);
}

/// The factorial program is well formed. The hole that was reserved for the
/// way out of the loop holds the loop's end, and both jumps land on a tag
/// byte: following a target never leads into the middle of an operand.
pub proof fn lemma_program_well_formed()
    ensures
        u16_at(program(), 16) == LOOP_END,
        u16_at(program(), 36) == LOOP_START,
        opcode_boundary(program(), LOOP_START as int),
        opcode_boundary(program(), LOOP_END as int),
        well_formed(program()),
{
    lemma_program_layout();
    reveal_with_fuel(reaches, 20);
    assert forall|at: int| #[trigger] opcode_boundary(program(), at) implies sound_at(
        program(),
        at,
    ) by {
        assert(at == 0
            || at == 5
            || at == 10
            || at == 12
            || at == 14
            || at == 15
            || at == 18
            || at == 20
            || at == 22
            || at == 23
            || at == 25
            || at == 27
            || at == 32
            || at == 33
            || at == 35
            || at == 38
            || at == 40
            || at == 41);
    }
}

/// The machine stands at the head of the loop in a run on `n`, about to
/// compare the counter `i`, with `(i - 1)!` as the running product and
/// nothing on the stack above the three variables.
pub open spec fn at_loop_head(s: Machine, n: u32, i: nat) -> bool {
    &&& s.code == program()
    &&& s.pc == LOOP_START
    &&& s.slots.len() == SLOTS
    &&& s.sp == 3
    &&& s.slots[VAR_N as int] == n
    &&& s.slots[VAR_I as int] == i
    &&& s.slots[VAR_X as int] == factorial_spec((i - 1) as nat)
    &&& 1 <= i <= n + 1
    &&& n <= MAX_INPUT
}

/// From the head of the loop the program runs to `Halt` with `n!` on top of
/// the stack.
pub proof fn lemma_loop_computes_factorial(s: Machine, n: u32, i: nat)
    requires
        at_loop_head(s, n, i),
    ensures
        halts(s),
        outcome(s).sp >= 1,
        outcome(s).top() == factorial_spec(n as nat),
    decreases n + 1 - i,
{
    lemma_program_layout();
    let x = s.slots[VAR_X as int];
    let s1 = s.next()->0;
    assert(s1 == s.pushed(i as u32).at(12));
    let s2 = s1.next()->0;
    assert(s2 == s1.pushed(n).at(14));
    let s3 = s2.next()->0;
    let s4 = s3.next()->0;
    if i <= n {
        lemma_factorial_fits(i);
        lemma_factorial_fits((i - 1) as nat);
        assert(factorial_spec(i) == i * factorial_spec((i - 1) as nat));
        assert(x * i == factorial_spec(i)) by (nonlinear_arith)
            requires
                x == factorial_spec((i - 1) as nat),
                factorial_spec(i) == i * factorial_spec((i - 1) as nat),
        ;
        assert(s3 == s2.popped(2).pushed(1).at(15));
        assert(s4 == s3.popped(1).at(18));
        let s5 = s4.next()->0;
        assert(s5 == s4.pushed(x).at(20));
        let s6 = s5.next()->0;
        assert(s6 == s5.pushed(i as u32).at(22));
        let s7 = s6.next()->0;
        assert(s7 == s6.popped(2).pushed((x * i) as u32).at(23));
        let s8 = s7.next()->0;
        assert(s8 == s7.popped(1).with_slot(VAR_X, (x * i) as u32).at(25));
        let s9 = s8.next()->0;
        assert(s9 == s8.pushed(i as u32).at(27));
        let s10 = s9.next()->0;
        assert(s10 == s9.pushed(1).at(32));
        let s11 = s10.next()->0;
        assert(s11 == s10.popped(2).pushed((i + 1) as u32).at(33));
        let s12 = s11.next()->0;
        assert(s12 == s11.popped(1).with_slot(VAR_I, (i + 1) as u32).at(35));
        let s13 = s12.next()->0;
        assert(s13 == s12.at(10));
        assert(at_loop_head(s13, n, i + 1));
        lemma_loop_computes_factorial(s13, n, i + 1);
        lemma_outcome_after_step(s12);
        lemma_outcome_after_step(s11);
        lemma_outcome_after_step(s10);
        lemma_outcome_after_step(s9);
        lemma_outcome_after_step(s8);
        lemma_outcome_after_step(s7);
        lemma_outcome_after_step(s6);
        lemma_outcome_after_step(s5);
        lemma_outcome_after_step(s4);
    } else {
        assert(s3 == s2.popped(2).pushed(0).at(15));
        assert(s4 == s3.popped(1).at(38));
        let s5 = s4.next()->0;
        assert(s5 == s4.pushed(x).at(40));
        lemma_outcome_of_halted(s5);
        lemma_outcome_after_step(s4);
    }
    lemma_outcome_after_step(s3);
    lemma_outcome_after_step(s2);
    lemma_outcome_after_step(s1);
    lemma_outcome_after_step(s);
}

/// Run on any argument whose factorial fits in 32 bits, the factorial program
/// halts, and the result it leaves is that factorial.
pub proof fn lemma_program_computes_factorial(n: u32)
    requires
        n <= MAX_INPUT,
    ensures
        runs(program(), n),
        result_of(program(), n) == factorial_spec(n as nat),
{
    lemma_program_layout();
    let s = Machine::initial(program(), n);
    let s1 = s.next()->0;
    assert(s1 == s.pushed(1).at(5));
    let s2 = s1.next()->0;
    assert(s2 == s1.pushed(1).at(10));
    assert(factorial_spec(0) == 1);
    assert(at_loop_head(s2, n, 1));
    lemma_loop_computes_factorial(s2, n, 1);
    lemma_outcome_after_step(s1);
    lemma_outcome_after_step(s);
}

} // verus!
