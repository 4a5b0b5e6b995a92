//! Running a step machine to its terminal state.
//!
//! A bytecode machine is a state with a partial transition function: from a
//! state it either moves to the next one, or it is stuck (the program is
//! malformed there). Execution ends when a halted state is reached. What a
//! run returns is defined here once, for every machine of that shape, along
//! with the facts that let a proof follow a run one step at a time.

use vstd::prelude::*;

verus! {

/// A machine that runs by repeating one transition.
pub trait StepMachine: Sized {
    /// The machine has reached its terminal state.
    spec fn halted(self) -> bool;

    /// The state after one instruction, or `None` where the machine is stuck.
    spec fn next(self) -> Option<Self>;
}

/// The halted state reached from `s` within `fuel` transitions, if there is
/// one.
pub open spec fn run_for<M: StepMachine>(s: M, fuel: nat) -> Option<M>
    decreases fuel,
{
    if s.halted() {
        Some(s)
    } else if fuel == 0 {
        None
    } else {
        match s.next() {
            Some(t) => run_for(t, (fuel - 1) as nat),
            None => None,
        }
    }
}

/// From `s` the machine reaches a halted state without getting stuck.
pub open spec fn halts<M: StepMachine>(s: M) -> bool {
    exists|fuel: nat| (#[trigger] run_for(s, fuel)) is Some
}

/// The halted state that a run from `s` ends in. Meaningful where `halts(s)`.
pub open spec fn outcome<M: StepMachine>(s: M) -> M {
    run_for(s, choose|fuel: nat| (#[trigger] run_for(s, fuel)) is Some)->0
}

/// A run that ends within some budget ends in the same state within any
/// larger one.
pub proof fn lemma_more_fuel<M: StepMachine>(s: M, fuel: nat, more: nat)
    requires
        run_for(s, fuel) is Some,
        fuel <= more,
    ensures
        run_for(s, more) == run_for(s, fuel),
    decreases fuel,
{
    if !s.halted() {
        lemma_more_fuel(s.next()->0, (fuel - 1) as nat, (more - 1) as nat);
    }
}

/// The state a run ends in does not depend on the budget it was given: any
/// two budgets that suffice lead to the same halted state. A run is thus a
/// function of the starting state alone, and running again from an equal
/// state gives an equal result.
pub proof fn lemma_run_deterministic<M: StepMachine>(s: M, fuel1: nat, fuel2: nat)
    requires
        run_for(s, fuel1) is Some,
        run_for(s, fuel2) is Some,
    ensures
        run_for(s, fuel1) == run_for(s, fuel2),
{
    if fuel1 <= fuel2 {
        lemma_more_fuel(s, fuel1, fuel2);
    } else {
        lemma_more_fuel(s, fuel2, fuel1);
    }
}

/// Whatever budget suffices yields the outcome.
pub proof fn lemma_outcome<M: StepMachine>(s: M, fuel: nat)
    requires
        run_for(s, fuel) is Some,
    ensures
        halts(s),
        outcome(s).halted(),
        run_for(s, fuel) == Some(outcome(s)),
{
    let chosen = choose|f: nat| (#[trigger] run_for(s, f)) is Some;
    lemma_run_deterministic(s, fuel, chosen);
    lemma_run_ends_halted(s, fuel);
}

/// A run ends only in a halted state.
pub proof fn lemma_run_ends_halted<M: StepMachine>(s: M, fuel: nat)
    requires
        run_for(s, fuel) is Some,
    ensures
        run_for(s, fuel)->0.halted(),
    decreases fuel,
{
    if !s.halted() {
        lemma_run_ends_halted(s.next()->0, (fuel - 1) as nat);
    }
}

/// A halted state is its own outcome.
pub proof fn lemma_outcome_of_halted<M: StepMachine>(s: M)
    requires
        s.halted(),
    ensures
        halts(s),
        outcome(s) == s,
{
    assert(run_for(s, 0) == Some(s));
    lemma_outcome(s, 0);
}

/// Where the state after one transition runs to a halt, so does the state
/// before it, and to the same outcome.
pub proof fn lemma_outcome_after_step<M: StepMachine>(s: M)
    requires
        !s.halted(),
        s.next() is Some,
        halts(s.next()->0),
    ensures
        halts(s),
        outcome(s) == outcome(s.next()->0),
{
    let t = s.next()->0;
    let fuel = choose|f: nat| (#[trigger] run_for(t, f)) is Some;
    lemma_outcome(t, fuel);
    assert(run_for(s, fuel + 1) == run_for(t, fuel));
    lemma_outcome(s, fuel + 1);
}

/// What holds of the starting state and is kept by every transition holds of
/// the outcome.
pub proof fn lemma_outcome_keeps<M: StepMachine>(s: M, kept: spec_fn(M) -> bool)
    requires
        halts(s),
        kept(s),
        forall|t: M| #[trigger] kept(t) && !t.halted() && t.next() is Some ==> kept(t.next()->0),
    ensures
        kept(outcome(s)),
{
    let fuel = choose|f: nat| (#[trigger] run_for(s, f)) is Some;
    lemma_outcome(s, fuel);
    lemma_run_keeps(s, fuel, kept);
}

proof fn lemma_run_keeps<M: StepMachine>(s: M, fuel: nat, kept: spec_fn(M) -> bool)
    requires
        run_for(s, fuel) is Some,
        kept(s),
        forall|t: M| #[trigger] kept(t) && !t.halted() && t.next() is Some ==> kept(t.next()->0),
    ensures
        kept(run_for(s, fuel)->0),
    decreases fuel,
{
    if !s.halted() {
        lemma_run_keeps(s.next()->0, (fuel - 1) as nat, kept);
    }
}

} // verus!
