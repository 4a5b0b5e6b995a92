//! The assembler: a growing byte buffer with back-patching of forward jumps.
//!
//! A program is written front to back in one pass. Where a jump's target is
//! not known yet, `reserve_jump_target` leaves a 16-bit hole and hands back
//! its offset; `patch_u16` fills the hole once the target has been reached.
//! The buffer is given out by `finish` only when no hole is left open.

use vstd::prelude::*;
use crate::encoding::{
    lemma_u16_round_trip,
    lemma_u32_round_trip,
    u16_at,
    u16_le,
    u16_to_le,
    u32_at,
    u32_le,
    u32_to_le,
};

verus! {

/// The longest buffer whose every offset, the end included, fits in a `u16`.
pub const MAX_OFFSET: usize = 65535;

/// An operation code that is stored in the buffer as one byte.
pub trait OpcodeTag {
    /// The byte that stands for this opcode.
    spec fn tag_spec(&self) -> u8;

    /// The byte that stands for this opcode.
    fn tag(&self) -> (t: u8)
        ensures
            t == self.tag_spec(),
    ;
}

/// A bytecode buffer under construction.
pub struct Writer {
    /// The bytes emitted so far.
    pub bytecode: Vec<u8>,
    /// The offsets of the jump targets that were reserved and not yet patched.
    pub holes: Ghost<Set<int>>,
}

impl View for Writer {
    type V = Seq<u8>;

    open spec fn view(&self) -> Seq<u8> {
        self.bytecode@
    }
}

impl Writer {
    /// The offsets of the holes that are still open.
    pub open spec fn open_holes(&self) -> Set<int> {
        self.holes@
    }

    /// No hole is left open: whatever was reserved has been patched.
    pub open spec fn complete(&self) -> bool {
        forall|h: int| !self.open_holes().contains(h)
    }

    /// Every open hole lies wholly inside the buffer.
    pub open spec fn wf(&self) -> bool {
        forall|h: int| #[trigger] self.holes@.contains(h) ==> 0 <= h && h + 2 <= self@.len()
    }

    /// Appends one byte and returns the offset it was written at.
    pub fn write_u8(&mut self, x: u8) -> (at: usize)
        requires
            old(self).wf(),
        ensures
            final(self).wf(),
            at == old(self)@.len(),
            final(self)@ == old(self)@.push(x),
            final(self).open_holes() == old(self).open_holes(),
    {
        let i = self.bytecode.len();
        self.bytecode.push(x);
        i
    }

    /// The offset that the next emitted byte will occupy.
    pub fn pc(&self) -> (offset: u16)
        requires
            self@.len() <= MAX_OFFSET,
        ensures
            offset == self@.len(),
    {
        self.bytecode.len() as u16
    }

    /// Appends a 16-bit value, least significant byte first, and returns the
    /// offset it was written at.
    pub fn write_u16(&mut self, x: u16) -> (at: usize)
        requires
            old(self).wf(),
        ensures
            final(self).wf(),
            at == old(self)@.len(),
            final(self)@ == old(self)@ + u16_le(x),
            u16_at(final(self)@, at as int) == x,
            final(self).open_holes() == old(self).open_holes(),
    {
        let i = self.bytecode.len();
        let s = u16_to_le(x);
        self.bytecode.push(s[0]);
        self.bytecode.push(s[1]);
        proof {
            assert(self@ =~= old(self)@ + u16_le(x));
            assert(self@.subrange(i as int, i + 2) =~= u16_le(x));
            lemma_u16_round_trip(self@, i as int, x);
        }
        i
    }

    /// Leaves a 16-bit hole for a jump target that is not known yet and
    /// returns its offset. The hole reads as zero until it is patched.
    pub fn reserve_jump_target(&mut self) -> (at: usize)
        requires
            old(self).wf(),
        ensures
            final(self).wf(),
            at == old(self)@.len(),
            final(self)@ == old(self)@ + u16_le(0),
            final(self).open_holes() == old(self).open_holes().insert(at as int),
    {
        let i = self.write_u16(0);
        self.holes = Ghost(self.holes@.insert(i as int));
        i
    }

    /// Fills the hole at `at` with `x` and closes it. No other byte changes.
    pub fn patch_u16(&mut self, at: usize, x: u16)
        requires
            old(self).wf(),
            old(self).open_holes().contains(at as int),
        ensures
            final(self).wf(),
            final(self)@ == old(self)@.update(at as int, u16_le(x)[0]).update(
                at + 1,
                u16_le(x)[1],
            ),
            final(self)@.len() == old(self)@.len(),
            u16_at(final(self)@, at as int) == x,
            final(self).open_holes() == old(self).open_holes().remove(at as int),
    {
        assert(at + 2 <= self.bytecode.len());
        let s = u16_to_le(x);
        self.bytecode[at] = s[0];
        self.bytecode[at + 1] = s[1];
        self.holes = Ghost(self.holes@.remove(at as int));
        proof {
            assert(self@.subrange(at as int, at + 2) =~= u16_le(x));
            lemma_u16_round_trip(self@, at as int, x);
        }
    }

    /// Appends a 32-bit value, least significant byte first, and returns the
    /// offset it was written at.
    pub fn write_u32(&mut self, x: u32) -> (at: usize)
        requires
            old(self).wf(),
        ensures
            final(self).wf(),
            at == old(self)@.len(),
            final(self)@ == old(self)@ + u32_le(x),
            u32_at(final(self)@, at as int) == x,
            final(self).open_holes() == old(self).open_holes(),
    {
        let i = self.bytecode.len();
        let s = u32_to_le(x);
        self.bytecode.push(s[0]);
        self.bytecode.push(s[1]);
        self.bytecode.push(s[2]);
        self.bytecode.push(s[3]);
        proof {
            assert(self@ =~= old(self)@ + u32_le(x));
            assert(self@.subrange(i as int, i + 4) =~= u32_le(x));
            lemma_u32_round_trip(self@, i as int, x);
        }
        i
    }

    /// Appends the tag byte of `opcode`.
    pub fn write_opcode<O: OpcodeTag>(&mut self, opcode: O)
        requires
            old(self).wf(),
        ensures
            final(self).wf(),
            final(self)@ == old(self)@.push(opcode.tag_spec()),
            final(self).open_holes() == old(self).open_holes(),
    {
        self.write_u8(opcode.tag());
    }

    /// Gives out the finished buffer. Every reserved hole must have been
    /// patched by now.
    pub fn finish(self) -> (bytes: Vec<u8>)
        requires
            self.complete(),
        ensures
            bytes@ == self@,
    {
        self.bytecode
    }
}

impl Default for Writer {
    /// An empty buffer with no hole.
    fn default() -> (w: Writer)
        ensures
            w@ == Seq::<u8>::empty(),
            w.open_holes() == Set::<int>::empty(),
            w.wf(),
    {
        Writer { bytecode: Vec::new(), holes: Ghost(Set::empty()) }
    }
}

} // verus!
