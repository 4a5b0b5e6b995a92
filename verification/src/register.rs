//! The register machine: every instruction names the slots it reads and the
//! slot it writes.
//!
//! An instruction is one tag byte followed by its operands. Arithmetic and
//! comparison take two source slots and a destination slot, in that order; a
//! load takes the destination slot and a 32-bit immediate; a conditional jump
//! takes a 16-bit absolute target and the slot that holds its condition.
//!
//! This module holds what the two dispatch engines of the register machine
//! share: the instruction set and its encoding, the machine state and its
//! transition function, the frame that the engines drive, and the factorial
//! program.

use vstd::prelude::*;
use crate::encoding::{
    lemma_u16_round_trip,
    lemma_u32_round_trip,
    u16_at,
    u16_from_le,
    u16_le,
    u32_at,
    u32_from_le,
    u32_le,
};
use crate::halting::{
    StepMachine,
    halts,
    outcome,
    lemma_outcome_after_step,
    lemma_outcome_keeps,
    lemma_outcome_of_halted,
};
use crate::native::{MAX_INPUT, factorial_spec, lemma_factorial_fits};
use crate::writer::{OpcodeTag, Writer};

verus! {

/// The number of value slots in a frame.
pub const SLOTS: usize = 256;

/// The slot that holds the argument `n`.
pub const VAR_N: u8 = 0;

/// The slot that holds the loop counter `i`.
pub const VAR_I: u8 = 1;

/// The slot that holds the running product `x`, and in the end the result.
pub const VAR_X: u8 = 2;

/// A scratch slot for comparison results and constants.
pub const TEMP: u8 = 3;

/// The operation codes of the register machine, in the order of their tags.
#[derive(Debug, Clone, Copy, PartialEq, Eq)]
pub enum Opcode {
    Int,
    LessEq,
    Add,
    Multiply,
    JumpIfNot,
    Jump,
    Halt,
}

impl Opcode {
    /// The opcode that a tag byte stands for, if it stands for any.
    pub open spec fn from_tag_spec(tag: u8) -> Option<Opcode> {
        if tag == 0 {
            Some(Opcode::Int)
        } else if tag == 1 {
            Some(Opcode::LessEq)
        } else if tag == 2 {
            Some(Opcode::Add)
        } else if tag == 3 {
            Some(Opcode::Multiply)
        } else if tag == 4 {
            Some(Opcode::JumpIfNot)
        } else if tag == 5 {
            Some(Opcode::Jump)
        } else if tag == 6 {
            Some(Opcode::Halt)
        } else {
            None
        }
    }

    /// Maps a tag byte to its opcode; a byte that is no tag gives `None`.
    pub fn from_tag(tag: u8) -> (opcode: Option<Opcode>)
        ensures
            opcode == Opcode::from_tag_spec(tag),
    {
        match tag {
            0 => Some(Opcode::Int),
            1 => Some(Opcode::LessEq),
            2 => Some(Opcode::Add),
            3 => Some(Opcode::Multiply),
            4 => Some(Opcode::JumpIfNot),
            5 => Some(Opcode::Jump),
            6 => Some(Opcode::Halt),
            _ => None,
        }
    }
}

impl OpcodeTag for Opcode {
    open spec fn tag_spec(&self) -> u8 {
        match self {
            Opcode::Int => 0,
            Opcode::LessEq => 1,
            Opcode::Add => 2,
            Opcode::Multiply => 3,
            Opcode::JumpIfNot => 4,
            Opcode::Jump => 5,
            Opcode::Halt => 6,
        }
    }

    fn tag(&self) -> (t: u8) {
        match self {
            Opcode::Int => 0,
            Opcode::LessEq => 1,
            Opcode::Add => 2,
            Opcode::Multiply => 3,
            Opcode::JumpIfNot => 4,
            Opcode::Jump => 5,
            Opcode::Halt => 6,
        }
    }
}

/// Tag and opcode determine each other.
pub proof fn lemma_tag_round_trip(opcode: Opcode)
    ensures
        Opcode::from_tag_spec(opcode.tag_spec()) == Some(opcode),
{
}

/// One decoded instruction with its operands.
pub ghost enum Instr {
    /// `slots[dst] = value`
    Int { dst: u8, value: u32 },
    /// `slots[dst] = 1` if `slots[a] <= slots[b]`, else `0`
    LessEq { a: u8, b: u8, dst: u8 },
    /// `slots[dst] = slots[a] + slots[b]`
    Add { a: u8, b: u8, dst: u8 },
    /// `slots[dst] = slots[a] * slots[b]`
    Multiply { a: u8, b: u8, dst: u8 },
    /// Continue at `target` if `slots[cond]` is zero, else fall through.
    JumpIfNot { target: u16, cond: u8 },
    /// Continue at `target`.
    Jump { target: u16 },
    /// Stop.
    Halt,
}

impl Instr {
    /// The opcode of this instruction.
    pub open spec fn opcode(self) -> Opcode {
        match self {
            Instr::Int { .. } => Opcode::Int,
            Instr::LessEq { .. } => Opcode::LessEq,
            Instr::Add { .. } => Opcode::Add,
            Instr::Multiply { .. } => Opcode::Multiply,
            Instr::JumpIfNot { .. } => Opcode::JumpIfNot,
            Instr::Jump { .. } => Opcode::Jump,
            Instr::Halt => Opcode::Halt,
        }
    }

    /// The offset that this instruction may continue at, if it is a jump.
    pub open spec fn target(self) -> Option<u16> {
        match self {
            Instr::JumpIfNot { target, .. } => Some(target),
            Instr::Jump { target } => Some(target),
            _ => None,
        }
    }

    /// The number of bytes this instruction takes, tag included.
    pub open spec fn size(self) -> int {
        size_of(self.opcode())
    }

    /// The bytes that stand for this instruction: the tag, then the operands
    /// left to right.
    pub open spec fn encoding(self) -> Seq<u8> {
        let tag = seq![self.opcode().tag_spec()];
        match self {
            Instr::Int { dst, value } => tag + seq![dst] + u32_le(value),
            Instr::LessEq { a, b, dst } => tag + seq![a, b, dst],
            Instr::Add { a, b, dst } => tag + seq![a, b, dst],
            Instr::Multiply { a, b, dst } => tag + seq![a, b, dst],
            Instr::JumpIfNot { target, cond } => tag + u16_le(target) + seq![cond],
            Instr::Jump { target } => tag + u16_le(target),
            Instr::Halt => tag,
        }
    }
}

/// The number of bytes that an instruction with this opcode takes.
pub open spec fn size_of(opcode: Opcode) -> int {
    match opcode {
        Opcode::Int => 6,
        Opcode::LessEq => 4,
        Opcode::Add => 4,
        Opcode::Multiply => 4,
        Opcode::JumpIfNot => 4,
        Opcode::Jump => 3,
        Opcode::Halt => 1,
    }
}

/// The instruction encoded at offset `pc` of `code`: the tag first, then the
/// operands left to right. `None` where `pc` is outside the buffer, the byte
/// there is no tag, or an operand would lie beyond the end.
pub open spec fn decode(code: Seq<u8>, pc: int) -> Option<Instr> {
    if 0 <= pc < code.len() {
        match Opcode::from_tag_spec(code[pc]) {
            Some(opcode) => if pc + size_of(opcode) <= code.len() {
                Some(
                    match opcode {
                        Opcode::Int => Instr::Int {
                            dst: code[pc + 1],
                            value: u32_at(code, pc + 2),
                        },
                        Opcode::LessEq => Instr::LessEq {
                            a: code[pc + 1],
                            b: code[pc + 2],
                            dst: code[pc + 3],
                        },
                        Opcode::Add => Instr::Add {
                            a: code[pc + 1],
                            b: code[pc + 2],
                            dst: code[pc + 3],
                        },
                        Opcode::Multiply => Instr::Multiply {
                            a: code[pc + 1],
                            b: code[pc + 2],
                            dst: code[pc + 3],
                        },
                        Opcode::JumpIfNot => Instr::JumpIfNot {
                            target: u16_at(code, pc + 1),
                            cond: code[pc + 3],
                        },
                        Opcode::Jump => Instr::Jump { target: u16_at(code, pc + 1) },
                        Opcode::Halt => Instr::Halt,
                    },
                )
            } else {
                None
            },
            None => None,
        }
    } else {
        None
    }
}

/// Decoding gives back the instruction that was encoded, whatever stands
/// before and after it in the buffer.
pub proof fn lemma_decode_encoding(before: Seq<u8>, instr: Instr, after: Seq<u8>)
    ensures
        instr.encoding().len() == instr.size(),
        decode(before + instr.encoding() + after, before.len() as int) == Some(instr),
{
    let code = before + instr.encoding() + after;
    let at = before.len() as int;
    assert(code[at] == instr.opcode().tag_spec());
    match instr {
        Instr::Int { dst, value } => {
            assert(code[at + 1] == dst);
            assert(code.subrange(at + 2, at + 6) =~= u32_le(value));
            lemma_u32_round_trip(code, at + 2, value);
        },
        Instr::LessEq { a, b, dst } => {
            assert(code[at + 1] == a && code[at + 2] == b && code[at + 3] == dst);
        },
        Instr::Add { a, b, dst } => {
            assert(code[at + 1] == a && code[at + 2] == b && code[at + 3] == dst);
        },
        Instr::Multiply { a, b, dst } => {
            assert(code[at + 1] == a && code[at + 2] == b && code[at + 3] == dst);
        },
        Instr::JumpIfNot { target, cond } => {
            assert(code.subrange(at + 1, at + 3) =~= u16_le(target));
            lemma_u16_round_trip(code, at + 1, target);
            assert(code[at + 3] == cond);
        },
        Instr::Jump { target } => {
            assert(code.subrange(at + 1, at + 3) =~= u16_le(target));
            lemma_u16_round_trip(code, at + 1, target);
        },
        Instr::Halt => {},
    }
}

/// Decoding `code` front to back from offset `from`, one instruction after the
/// other, arrives exactly at offset `at`.
pub open spec fn reaches(code: Seq<u8>, from: int, at: int) -> bool
    decreases at - from,
{
    if from >= at {
        from == at
    } else {
        match decode(code, from) {
            Some(instr) => from + instr.size() <= at && reaches(code, from + instr.size(), at),
            None => false,
        }
    }
}

/// `at` is the offset of a tag byte in `code`, not of an operand byte: it is
/// where an instruction begins, or the end of the buffer.
pub open spec fn opcode_boundary(code: Seq<u8>, at: int) -> bool {
    reaches(code, 0, at)
}

/// Where the scan of `code` has arrived at offset `at`, it can go on: what
/// stands there decodes, with every operand inside the buffer, and if it is a
/// jump, its target is the offset of a tag byte.
pub open spec fn sound_at(code: Seq<u8>, at: int) -> bool {
    at < code.len() ==> match decode(code, at) {
        Some(instr) => match instr.target() {
            Some(target) => opcode_boundary(code, target as int),
            None => true,
        },
        None => false,
    }
}

/// The buffer holds a program: decoded front to back it is one instruction
/// after the other with no byte left over, every jump in it has the offset
/// of a tag byte as its target, and its last byte is a `Halt`.
pub open spec fn well_formed(code: Seq<u8>) -> bool {
    &&& forall|at: int| #[trigger] opcode_boundary(code, at) ==> sound_at(code, at)
    &&& opcode_boundary(code, code.len() - 1)
    &&& decode(code, code.len() - 1) == Some(Instr::Halt)
}

/// The state of one run: the program, the program counter and the slots.
pub ghost struct Machine {
    /// The bytecode, which a run never changes.
    pub code: Seq<u8>,
    /// The offset of the next instruction.
    pub pc: int,
    /// The value slots.
    pub slots: Seq<u32>,
}

impl Machine {
    /// The state in which a run of `code` on the argument `n` starts: at
    /// offset zero, with `n` in its slot and zero in all others.
    pub open spec fn initial(code: Seq<u8>, n: u32) -> Machine {
        Machine {
            code,
            pc: 0,
            slots: Seq::new(SLOTS as nat, |i: int| 0u32).update(VAR_N as int, n),
        }
    }

    /// The value that a run hands back: the running product.
    pub open spec fn result(self) -> u32 {
        self.slots[VAR_X as int]
    }

    /// The same state with the program counter at `pc`.
    pub open spec fn at(self, pc: int) -> Machine {
        Machine { pc, ..self }
    }

    /// The same state with `value` in slot `dst`.
    pub open spec fn with_slot(self, dst: u8, value: u32) -> Machine {
        Machine { slots: self.slots.update(dst as int, value), ..self }
    }

    /// The state after `instr`, which stands at the program counter, has been
    /// carried out. `None` where a sum or product leaves 32 bits, or where the
    /// end of the instruction lies beyond the last 16-bit offset.
    pub open spec fn apply(self, instr: Instr) -> Option<Machine> {
        let next = self.pc + instr.size();
        if next > u16::MAX {
            None
        } else {
            match instr {
                Instr::Int { dst, value } => Some(self.with_slot(dst, value).at(next)),
                Instr::LessEq { a, b, dst } => {
                    let flag = if self.slots[a as int] <= self.slots[b as int] {
                        1u32
                    } else {
                        0u32
                    };
                    Some(self.with_slot(dst, flag).at(next))
                },
                Instr::Add { a, b, dst } => {
                    let sum = self.slots[a as int] + self.slots[b as int];
                    if sum <= u32::MAX {
                        Some(self.with_slot(dst, sum as u32).at(next))
                    } else {
                        None
                    }
                },
                Instr::Multiply { a, b, dst } => {
                    let product = self.slots[a as int] * self.slots[b as int];
                    if product <= u32::MAX {
                        Some(self.with_slot(dst, product as u32).at(next))
                    } else {
                        None
                    }
                },
                Instr::JumpIfNot { target, cond } => if self.slots[cond as int] == 0 {
                    Some(self.at(target as int))
                } else {
                    Some(self.at(next))
                },
                Instr::Jump { target } => Some(self.at(target as int)),
                Instr::Halt => None,
            }
        }
    }
}

impl StepMachine for Machine {
    /// The instruction at the program counter is `Halt`.
    open spec fn halted(self) -> bool {
        decode(self.code, self.pc) == Some(Instr::Halt)
    }

    /// Decodes the instruction at the program counter and carries it out.
    open spec fn next(self) -> Option<Machine> {
        match decode(self.code, self.pc) {
            Some(instr) => self.apply(instr),
            None => None,
        }
    }
}

/// A run never changes the program it runs.
pub proof fn lemma_outcome_keeps_program(s: Machine)
    requires
        halts(s),
    ensures
        outcome(s).code == s.code,
{
    lemma_outcome_keeps(s, |t: Machine| t.code == s.code);
}

/// A run of `code` on the argument `n` reaches `Halt` without getting stuck.
pub open spec fn runs(code: Seq<u8>, n: u32) -> bool {
    halts(Machine::initial(code, n))
}

/// What a run of `code` on the argument `n` hands back: the running product
/// in the state that the run halts in.
pub open spec fn result_of(code: Seq<u8>, n: u32) -> u32
    recommends
        runs(code, n),
{
    outcome(Machine::initial(code, n)).result()
}

/// The machine state of one run in executable form: the slots, the borrowed
/// bytecode and the program counter.
pub struct Frame<'c> {
    /// The value slots.
    pub variables: [u32; 256],
    /// The program, read-only for the whole run.
    pub bytecode: &'c [u8],
    /// The offset of the next byte to read.
    pub pc: u16,
}

impl<'c> View for Frame<'c> {
    type V = Machine;

    open spec fn view(&self) -> Machine {
        Machine { code: self.bytecode@, pc: self.pc as int, slots: self.variables@ }
    }
}

impl<'c> Frame<'c> {
    /// A fresh frame for a run of `code` on the argument `n`.
    pub fn new(code: &'c [u8], n: u32) -> (frame: Frame<'c>)
        ensures
            frame@ == Machine::initial(code@, n),
    {
        let mut frame = Frame { variables: [0; 256], bytecode: code, pc: 0 };
        frame.variables[VAR_N as usize] = n;
        assert(frame.variables@ =~= Seq::new(SLOTS as nat, |i: int| 0u32).update(
            VAR_N as int,
            n,
        ));
        frame
    }

    /// Reads the byte at the program counter and moves past it.
    pub fn read_u8(&mut self) -> (x: u8)
        requires
            old(self)@.pc < old(self)@.code.len(),
            old(self)@.pc + 1 <= u16::MAX,
        ensures
            x == old(self)@.code[old(self)@.pc],
            final(self)@ == old(self)@.at(old(self)@.pc + 1),
    {
        let x = self.bytecode[self.pc as usize];
        self.pc += 1;
        x
    }

    /// The byte at the program counter, which stays where it is.
    pub fn peek_u8(&self) -> (x: u8)
        requires
            self@.pc < self@.code.len(),
        ensures
            x == self@.code[self@.pc],
    {
        self.bytecode[self.pc as usize]
    }

    /// Reads the 16-bit value at the program counter and moves past it.
    pub fn read_u16(&mut self) -> (x: u16)
        requires
            old(self)@.pc + 2 <= old(self)@.code.len(),
            old(self)@.pc + 2 <= u16::MAX,
        ensures
            x == u16_at(old(self)@.code, old(self)@.pc),
            final(self)@ == old(self)@.at(old(self)@.pc + 2),
    {
        let lo = self.bytecode[self.pc as usize];
        let hi = self.bytecode[self.pc as usize + 1];
        self.pc += 2;
        u16_from_le(lo, hi)
    }

    /// Reads the 32-bit value at the program counter and moves past it.
    pub fn read_u32(&mut self) -> (x: u32)
        requires
            old(self)@.pc + 4 <= old(self)@.code.len(),
            old(self)@.pc + 4 <= u16::MAX,
        ensures
            x == u32_at(old(self)@.code, old(self)@.pc),
            final(self)@ == old(self)@.at(old(self)@.pc + 4),
    {
        let b0 = self.bytecode[self.pc as usize];
        let b1 = self.bytecode[self.pc as usize + 1];
        let b2 = self.bytecode[self.pc as usize + 2];
        let b3 = self.bytecode[self.pc as usize + 3];
        self.pc += 4;
        u32_from_le(b0, b1, b2, b3)
    }

    /// The value in slot `i`.
    pub fn var(&self, i: u8) -> (val: u32)
        ensures
            val == self@.slots[i as int],
    {
        self.variables[i as usize]
    }

    /// Stores `val` in slot `i`.
    pub fn set_var(&mut self, i: u8, val: u32)
        ensures
            final(self)@ == old(self)@.with_slot(i, val),
    {
        self.variables[i as usize] = val;
    }
}

/// The offset at which the factorial program's loop begins.
pub const LOOP_START: u16 = 12;

/// The offset at which the factorial program's loop is left.
pub const LOOP_END: u16 = 37;

/// The factorial program, byte for byte:
///
/// ```text
///  0  Int       i, 1
///  6  Int       x, 1
/// 12  LessEq    i, n, temp
/// 16  JumpIfNot 37, temp
/// 20  Multiply  x, i, x
/// 24  Int       temp, 1
/// 30  Add       i, temp, i
/// 34  Jump      12
/// 37  Halt
/// ```
#[verifier::opaque]
pub open spec fn program() -> Seq<u8> {
    seq![
        0u8, 1, 1, 0, 0, 0,
        0, 2, 1, 0, 0, 0,
        1, 1, 0, 3,
        4, 37, 0, 3,
        3, 2, 1, 2,
        0, 3, 1, 0, 0, 0,
        2, 1, 3, 1,
        5, 12, 0,
        6,
    ]
}

/// Assembles the factorial program: `x = 1; i = 1; while i <= n { x = x * i;
/// i = i + 1 }`. The jump out of the loop is emitted before the loop's end is
/// known, and patched when it is.
#[verifier::rlimit(50)]
pub fn code() -> (bytes: Vec<u8>)
    ensures
        bytes@ == program(),
{
    let mut w = Writer::default();

    w.write_opcode(Opcode::Int);
    w.write_u8(VAR_I);
    w.write_u32(1);

    w.write_opcode(Opcode::Int);
    w.write_u8(VAR_X);
    w.write_u32(1);

    let loop_start = w.pc();
    w.write_opcode(Opcode::LessEq);
    w.write_u8(VAR_I);
    w.write_u8(VAR_N);
    w.write_u8(TEMP);

    w.write_opcode(Opcode::JumpIfNot);
    let loop_jump_hole = w.reserve_jump_target();
    w.write_u8(TEMP);

    w.write_opcode(Opcode::Multiply);
    w.write_u8(VAR_X);
    w.write_u8(VAR_I);
    w.write_u8(VAR_X);

    w.write_opcode(Opcode::Int);
    w.write_u8(TEMP);
    w.write_u32(1);

    w.write_opcode(Opcode::Add);
    w.write_u8(VAR_I);
    w.write_u8(TEMP);
    w.write_u8(VAR_I);

    w.write_opcode(Opcode::Jump);
    w.write_u16(loop_start);

    let loop_end = w.pc();
    w.patch_u16(loop_jump_hole, loop_end);
    w.write_opcode(Opcode::Halt);

    reveal(program);
    assert(w@ =~= program());
    w.finish()
}

/// What stands at each instruction offset of the factorial program. Both
/// jump targets are offsets of instructions: the backward jump lands on the
/// comparison that opens the loop, the patched forward jump on `Halt`.
pub proof fn lemma_program_layout()
    ensures
        program().len() == 38,
        decode(program(), 0) == Some(Instr::Int { dst: VAR_I, value: 1 }),
        decode(program(), 6) == Some(Instr::Int { dst: VAR_X, value: 1 }),
        decode(program(), 12) == Some(Instr::LessEq { a: VAR_I, b: VAR_N, dst: TEMP }),
        decode(program(), 16) == Some(Instr::JumpIfNot { target: LOOP_END, cond: TEMP }),
        decode(program(), 20) == Some(Instr::Multiply { a: VAR_X, b: VAR_I, dst: VAR_X }),
        decode(program(), 24) == Some(Instr::Int { dst: TEMP, value: 1 }),
        decode(program(), 30) == Some(Instr::Add { a: VAR_I, b: TEMP, dst: VAR_I }),
        decode(program(), 34) == Some(Instr::Jump { target: LOOP_START }),
        decode(program(), 37) == Some(Instr::Halt),
{
    reveal(program);
}

/// The factorial program is well formed. The hole that was reserved for the
/// way out of the loop holds the loop's end, and both jumps land on a tag
/// byte: following a target never leads into the middle of an operand.
pub proof fn lemma_program_well_formed()
    ensures
        u16_at(program(), 17) == LOOP_END,
        u16_at(program(), 35) == LOOP_START,
        opcode_boundary(program(), LOOP_START as int),
        opcode_boundary(program(), LOOP_END as int),
        well_formed(program()),
{
    lemma_program_layout();
    reveal_with_fuel(reaches, 12);
    assert forall|at: int| #[trigger] opcode_boundary(program(), at) implies sound_at(
        program(),
        at,
    ) by {
        assert(at == 0
            || at == 6
            || at == 12
            || at == 16
            || at == 20
            || at == 24
            || at == 30
            || at == 34
            || at == 37
            || at == 38);
    }
}

/// The machine stands at the head of the loop in a run on `n`, about to
/// compare the counter `i`, with `(i - 1)!` as the running product.
pub open spec fn at_loop_head(s: Machine, n: u32, i: nat) -> bool {
    &&& s.code == program()
    &&& s.pc == LOOP_START
    &&& s.slots.len() == SLOTS
    &&& s.slots[VAR_N as int] == n
    &&& s.slots[VAR_I as int] == i
    &&& s.slots[VAR_X as int] == factorial_spec((i - 1) as nat)
    &&& 1 <= i <= n + 1
    &&& n <= MAX_INPUT
}

/// From the head of the loop the program runs to `Halt` with `n!` as the
/// running product.
pub proof fn lemma_loop_computes_factorial(s: Machine, n: u32, i: nat)
    requires
        at_loop_head(s, n, i),
    ensures
        halts(s),
        outcome(s).result() == factorial_spec(n as nat),
    decreases n + 1 - i,
{
    lemma_program_layout();
    let s1 = s.next()->0;
    let s2 = s1.next()->0;
    if i <= n {
        lemma_factorial_fits(i);
        lemma_factorial_fits((i - 1) as nat);
        let x = s.slots[VAR_X as int];
        assert(factorial_spec(i) == i * factorial_spec((i - 1) as nat));
        assert(x * i == factorial_spec(i)) by (nonlinear_arith)
            requires
                x == factorial_spec((i - 1) as nat),
                factorial_spec(i) == i * factorial_spec((i - 1) as nat),
        ;
        assert(s1 == s.with_slot(TEMP, 1).at(16));
        assert(s2 == s1.at(20));
        let s3 = s2.next()->0;
        assert(s3 == s2.with_slot(VAR_X, (x * i) as u32).at(24));
        let s4 = s3.next()->0;
        assert(s4 == s3.with_slot(TEMP, 1).at(30));
        let s5 = s4.next()->0;
        assert(s5 == s4.with_slot(VAR_I, (i + 1) as u32).at(34));
        let s6 = s5.next()->0;
        assert(s6 == s5.at(12));
        assert(at_loop_head(s6, n, i + 1));
        lemma_loop_computes_factorial(s6, n, i + 1);
        lemma_outcome_after_step(s5);
        lemma_outcome_after_step(s4);
        lemma_outcome_after_step(s3);
        lemma_outcome_after_step(s2);
        lemma_outcome_after_step(s1);
        lemma_outcome_after_step(s);
    } else {
        assert(s1 == s.with_slot(TEMP, 0).at(16));
        assert(s2 == s1.at(37));
        lemma_outcome_of_halted(s2);
        lemma_outcome_after_step(s1);
        lemma_outcome_after_step(s);
    }
}

/// Run on any argument whose factorial fits in 32 bits, the factorial program
/// halts, and the result it leaves is that factorial.
pub proof fn lemma_program_computes_factorial(n: u32)
    requires
        n <= MAX_INPUT,
    ensures
        runs(program(), n),
        result_of(program(), n) == factorial_spec(n as nat),
{
    lemma_program_layout();
    let s = Machine::initial(program(), n);
    let s1 = s.next()->0;
    assert(s1 == s.with_slot(VAR_I, 1).at(6));
    let s2 = s1.next()->0;
    assert(s2 == s1.with_slot(VAR_X, 1).at(12));
    assert(factorial_spec(0) == 1);
    assert(at_loop_head(s2, n, 1));
    lemma_loop_computes_factorial(s2, n, 1);
    lemma_outcome_after_step(s1);
    lemma_outcome_after_step(s);
}

} // verus!
