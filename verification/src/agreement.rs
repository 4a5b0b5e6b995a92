//! The variants agree with one another.
//!
//! Each interpreter has its own program format and its own notion of a run.
//! What they share is the function that the factorial program computes, and
//! this module states that they do.

use vstd::prelude::*;
use crate::compact_treewalk;
use crate::native::{DEFAULT_INPUT, MAX_INPUT, factorial_spec, lemma_factorial_values};
use crate::register;
use crate::stack;
use crate::treewalk;
use crate::treewalk::Instruction;

verus! {

/// On every argument whose factorial fits in 32 bits, the factorial program
/// of each variant comes to an end, and all of them hand back the same
/// value: the one that the plain loop computes. `tree` is any tree of the
/// tree-walker that has the shape of the factorial program.
pub proof fn lemma_variants_agree(tree: Instruction, n: u32)
    requires
        treewalk::is_factorial_program(tree),
        n <= MAX_INPUT,
    ensures
        treewalk::runs(tree, n),
        compact_treewalk::runs(compact_treewalk::program(), n),
        stack::runs(stack::program(), n),
        register::runs(register::program(), n),
        treewalk::result_of(tree, n) == factorial_spec(n as nat),
        compact_treewalk::result_of(compact_treewalk::program(), n) == treewalk::result_of(tree, n),
        stack::result_of(stack::program(), n) == treewalk::result_of(tree, n),
        register::result_of(register::program(), n) == treewalk::result_of(tree, n),
{
    treewalk::lemma_program_computes_factorial(tree, n);
    compact_treewalk::lemma_program_computes_factorial(n);
    stack::lemma_program_computes_factorial(n);
    register::lemma_program_computes_factorial(n);
}

/// On the argument that `run` is fixed to, every variant hands back
/// `3628800`.
pub proof fn lemma_default_result(tree: Instruction)
    requires
        treewalk::is_factorial_program(tree),
    ensures
        factorial_spec(DEFAULT_INPUT as nat) == 3628800,
        treewalk::result_of(tree, DEFAULT_INPUT) == 3628800,
        compact_treewalk::result_of(compact_treewalk::program(), DEFAULT_INPUT) == 3628800,
        stack::result_of(stack::program(), DEFAULT_INPUT) == 3628800,
        register::result_of(register::program(), DEFAULT_INPUT) == 3628800,
{
    lemma_factorial_values();
    lemma_variants_agree(tree, DEFAULT_INPUT);
}

/// An argument of zero or one never gets past the first multiplication by
/// one: every variant hands back `1`.
pub proof fn lemma_smallest_arguments(tree: Instruction, n: u32)
    requires
        treewalk::is_factorial_program(tree),
        n <= 1,
    ensures
        treewalk::result_of(tree, n) == 1,
        compact_treewalk::result_of(compact_treewalk::program(), n) == 1,
        stack::result_of(stack::program(), n) == 1,
        register::result_of(register::program(), n) == 1,
{
    lemma_factorial_values();
    lemma_variants_agree(tree, n);
}

} // verus!
