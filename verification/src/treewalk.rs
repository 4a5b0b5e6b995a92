//! The tree-walking interpreter: the program is a tree of instructions, and
//! running it is a recursive walk in which the call stack plays the part of
//! a program counter.

use vstd::prelude::*;
use crate::native::{
    DEFAULT_INPUT,
    MAX_INPUT,
    factorial_spec,
    lemma_factorial_fits,
    lemma_factorial_values,
};

verus! {

/// The number of variable slots in a frame.
pub const SLOTS: usize = 256;

/// The slot that holds the argument `n`.
pub const VAR_N: u8 = 0;

/// The slot that holds the loop counter `i`.
pub const VAR_I: u8 = 1;

/// The slot that holds the running product `x`, and in the end the result.
pub const VAR_X: u8 = 2;

/// A node of the program tree. Every node evaluates to a value; a node owns
/// its children.
pub enum Instruction {
    /// The constant itself.
    Int(u32),
    /// The value of the variable.
    Var(u8),
    /// Evaluates `value`, stores it in `variable`, and yields it.
    Let { variable: u8, value: Box<Instruction> },
    /// Yields `1` if the left value is at most the right one, else `0`.
    LessEq(Box<Instruction>, Box<Instruction>),
    /// The sum of the left and the right value.
    Add(Box<Instruction>, Box<Instruction>),
    /// The product of the left and the right value.
    Multiply(Box<Instruction>, Box<Instruction>),
    /// Evaluates the nodes in order and yields the last value, or `0` where
    /// there is none.
    Sequence(Vec<Instruction>),
    /// Evaluates `body` for as long as `condition` yields a value other than
    /// zero; yields the last value of `body`, or `0` where it never ran.
    While { condition: Box<Instruction>, body: Box<Instruction> },
}

/// The variables after a node has been evaluated, and the node's value.
pub type Evaluation = Option<(Seq<u32>, u32)>;

/// Evaluates `code` on the variables `vars`: left operand before right, with
/// every effect on the variables carried from one node to the next. `fuel`
/// bounds the depth of the evaluation, loop iterations included. `None`
/// where `fuel` does not suffice or a sum or product leaves 32 bits.
pub open spec fn interpret_spec(code: Instruction, vars: Seq<u32>, fuel: nat) -> Evaluation
    decreases fuel, 0nat,
{
    if fuel == 0 {
        None
    } else {
        let less = (fuel - 1) as nat;
        match code {
            Instruction::Int(i) => Some((vars, i)),
            Instruction::Var(v) => Some((vars, vars[v as int])),
            Instruction::Let { variable, value } => match interpret_spec(*value, vars, less) {
                Some((vars1, x)) => Some((vars1.update(variable as int, x), x)),
                None => None,
            },
            Instruction::LessEq(a, b) => match interpret_spec(*a, vars, less) {
                Some((vars1, x)) => match interpret_spec(*b, vars1, less) {
                    Some((vars2, y)) => Some((vars2, if x <= y { 1u32 } else { 0u32 })),
                    None => None,
                },
                None => None,
            },
            Instruction::Add(a, b) => match interpret_spec(*a, vars, less) {
                Some((vars1, x)) => match interpret_spec(*b, vars1, less) {
                    Some((vars2, y)) => if x + y <= u32::MAX {
                        Some((vars2, (x + y) as u32))
                    } else {
                        None
                    },
                    None => None,
                },
                None => None,
            },
            Instruction::Multiply(a, b) => match interpret_spec(*a, vars, less) {
                Some((vars1, x)) => match interpret_spec(*b, vars1, less) {
                    Some((vars2, y)) => if x * y <= u32::MAX {
                        Some((vars2, (x * y) as u32))
                    } else {
                        None
                    },
                    None => None,
                },
                None => None,
            },
            Instruction::Sequence(s) => sequence_spec(s@, 0, vars, 0, less),
            Instruction::While { condition, body } => while_spec(
                *condition,
                *body,
                vars,
                0,
                less,
            ),
        }
    }
}

/// Evaluates `items[from..]` in order, each with `fuel`. `last` is the value
/// of the item before `from`.
pub open spec fn sequence_spec(
    items: Seq<Instruction>,
    from: int,
    vars: Seq<u32>,
    last: u32,
    fuel: nat,
) -> Evaluation
    decreases fuel, 1 + items.len() - from,
{
    if 0 <= from < items.len() {
        match interpret_spec(items[from], vars, fuel) {
            Some((vars1, x)) => sequence_spec(items, from + 1, vars1, x, fuel),
            None => None,
        }
    } else {
        Some((vars, last))
    }
}

/// Evaluates the loop of `condition` and `body`. `last` is the value of the
/// iteration before. Every iteration takes one unit of `fuel`.
pub open spec fn while_spec(
    condition: Instruction,
    body: Instruction,
    vars: Seq<u32>,
    last: u32,
    fuel: nat,
) -> Evaluation
    decreases fuel, 1nat,
{
    match interpret_spec(condition, vars, fuel) {
        Some((vars1, c)) => if c == 0 {
            Some((vars1, last))
        } else {
            match interpret_spec(body, vars1, fuel) {
                Some((vars2, x)) => if fuel == 0 {
                    None
                } else {
                    while_spec(condition, body, vars2, x, (fuel - 1) as nat)
                },
                None => None,
            }
        },
        None => None,
    }
}

/// An evaluation that succeeds within some depth gives the same variables
/// and value within any greater depth.
pub proof fn lemma_interpret_more_fuel(code: Instruction, vars: Seq<u32>, fuel: nat, more: nat)
    requires
        interpret_spec(code, vars, fuel) is Some,
        fuel <= more,
    ensures
        interpret_spec(code, vars, more) == interpret_spec(code, vars, fuel),
    decreases fuel, 0nat,
{
    let less = (fuel - 1) as nat;
    let more_less = (more - 1) as nat;
    match code {
        Instruction::Int(_) => {},
        Instruction::Var(_) => {},
        Instruction::Let { variable, value } => {
            lemma_interpret_more_fuel(*value, vars, less, more_less);
        },
        Instruction::LessEq(a, b) => {
            lemma_interpret_more_fuel(*a, vars, less, more_less);
            let (vars1, _) = interpret_spec(*a, vars, less).unwrap();
            lemma_interpret_more_fuel(*b, vars1, less, more_less);
        },
        Instruction::Add(a, b) => {
            lemma_interpret_more_fuel(*a, vars, less, more_less);
            let (vars1, _) = interpret_spec(*a, vars, less).unwrap();
            lemma_interpret_more_fuel(*b, vars1, less, more_less);
        },
        Instruction::Multiply(a, b) => {
            lemma_interpret_more_fuel(*a, vars, less, more_less);
            let (vars1, _) = interpret_spec(*a, vars, less).unwrap();
            lemma_interpret_more_fuel(*b, vars1, less, more_less);
        },
        Instruction::Sequence(s) => {
            lemma_sequence_more_fuel(s@, 0, vars, 0, less, more_less);
        },
        Instruction::While { condition, body } => {
            lemma_while_more_fuel(*condition, *body, vars, 0, less, more_less);
        },
    }
}

/// The same for the rest of a sequence.
pub proof fn lemma_sequence_more_fuel(
    items: Seq<Instruction>,
    from: int,
    vars: Seq<u32>,
    last: u32,
    fuel: nat,
    more: nat,
)
    requires
        sequence_spec(items, from, vars, last, fuel) is Some,
        fuel <= more,
    ensures
        sequence_spec(items, from, vars, last, more) == sequence_spec(
            items,
            from,
            vars,
            last,
            fuel,
        ),
    decreases fuel, 1 + items.len() - from,
{
    if 0 <= from < items.len() {
        lemma_interpret_more_fuel(items[from], vars, fuel, more);
        let (vars1, x) = interpret_spec(items[from], vars, fuel)->0;
        lemma_sequence_more_fuel(items, from + 1, vars1, x, fuel, more);
    }
}

/// The same for a loop.
pub proof fn lemma_while_more_fuel(
    condition: Instruction,
    body: Instruction,
    vars: Seq<u32>,
    last: u32,
    fuel: nat,
    more: nat,
)
    requires
        while_spec(condition, body, vars, last, fuel) is Some,
        fuel <= more,
    ensures
        while_spec(condition, body, vars, last, more) == while_spec(
            condition,
            body,
            vars,
            last,
            fuel,
        ),
    decreases fuel, 1nat,
{
    lemma_interpret_more_fuel(condition, vars, fuel, more);
    let (vars1, c) = interpret_spec(condition, vars, fuel)->0;
    if c != 0 {
        lemma_interpret_more_fuel(body, vars1, fuel, more);
        let (vars2, x) = interpret_spec(body, vars1, fuel)->0;
        lemma_while_more_fuel(condition, body, vars2, x, (fuel - 1) as nat, (more - 1) as nat);
    }
}

/// Some depth suffices to evaluate `code` on the variables `vars`: every loop
/// in it comes to an end, and no sum or product leaves 32 bits.
pub open spec fn terminates(code: Instruction, vars: Seq<u32>) -> bool {
    exists|fuel: nat| (#[trigger] interpret_spec(code, vars, fuel)) is Some
}

/// `fuel` suffices to evaluate `code` on `vars`, and one less does not.
pub open spec fn least_depth(code: Instruction, vars: Seq<u32>, fuel: nat) -> bool {
    interpret_spec(code, vars, fuel) is Some && interpret_spec(code, vars, (fuel - 1) as nat)
        is None
}

/// The least depth that suffices to evaluate `code` on `vars`.
pub open spec fn depth(code: Instruction, vars: Seq<u32>) -> nat
    recommends
        terminates(code, vars),
{
    choose|fuel: nat| least_depth(code, vars, fuel)
}

/// The variables after `code` has been evaluated on `vars`, and its value.
pub open spec fn evaluation(code: Instruction, vars: Seq<u32>) -> (Seq<u32>, u32)
    recommends
        terminates(code, vars),
{
    interpret_spec(code, vars, depth(code, vars)).unwrap()
}

proof fn lemma_least_depth(code: Instruction, vars: Seq<u32>, fuel: nat)
    requires
        interpret_spec(code, vars, fuel) is Some,
    ensures
        exists|least: nat| least_depth(code, vars, least),
    decreases fuel,
{
    if interpret_spec(code, vars, (fuel - 1) as nat) is Some {
        lemma_least_depth(code, vars, (fuel - 1) as nat);
    } else {
        assert(least_depth(code, vars, fuel));
    }
}

/// The evaluation of a tree does not depend on the depth that was allowed for
/// it: whatever depth suffices gives the evaluation, and none less than
/// `depth` suffices.
pub proof fn lemma_evaluation(code: Instruction, vars: Seq<u32>, fuel: nat)
    requires
        interpret_spec(code, vars, fuel) is Some,
    ensures
        terminates(code, vars),
        1 <= depth(code, vars) <= fuel,
        interpret_spec(code, vars, depth(code, vars)) == Some(evaluation(code, vars)),
        interpret_spec(code, vars, fuel) == Some(evaluation(code, vars)),
{
    lemma_least_depth(code, vars, fuel);
    let least = depth(code, vars);
    assert(least_depth(code, vars, least));
    if fuel < least {
        lemma_interpret_more_fuel(code, vars, fuel, (least - 1) as nat);
    } else {
        lemma_interpret_more_fuel(code, vars, least, fuel);
    }
}

/// Where a tree can be evaluated, its least depth suffices to evaluate it.
pub proof fn lemma_depth(code: Instruction, vars: Seq<u32>)
    requires
        terminates(code, vars),
    ensures
        depth(code, vars) >= 1,
        interpret_spec(code, vars, depth(code, vars)) == Some(evaluation(code, vars)),
{
    lemma_evaluation(
        code,
        vars,
        choose|fuel: nat| (#[trigger] interpret_spec(code, vars, fuel)) is Some,
    );
}

/// The variables that a run on the argument `n` starts with: `n` in its slot
/// and zero in all others.
pub open spec fn initial(n: u32) -> Seq<u32> {
    Seq::new(SLOTS as nat, |i: int| 0u32).update(VAR_N as int, n)
}

/// A run of `code` on the argument `n` comes to an end.
pub open spec fn runs(code: Instruction, n: u32) -> bool {
    terminates(code, initial(n))
}

/// What a run of `code` on the argument `n` hands back: the running product
/// among the variables that the evaluation leaves.
pub open spec fn result_of(code: Instruction, n: u32) -> u32
    recommends
        runs(code, n),
{
    evaluation(code, initial(n)).0[VAR_X as int]
}

/// The variables of one run.
pub struct Frame {
    /// The variable slots.
    pub variables: [u32; 256],
}

impl View for Frame {
    type V = Seq<u32>;

    open spec fn view(&self) -> Seq<u32> {
        self.variables@
    }
}

impl Frame {
    /// A fresh frame for a run on the argument `n`.
    pub fn new(n: u32) -> (frame: Frame)
        ensures
            frame@ == initial(n),
    {
        let mut frame = Frame { variables: [0; 256] };
        frame.variables[VAR_N as usize] = n;
        assert(frame@ =~= initial(n));
        frame
    }

    /// The value of variable `i`.
    pub fn var(&self, i: u8) -> (val: u32)
        ensures
            val == self@[i as int],
    {
        self.variables[i as usize]
    }

    /// Stores `val` in variable `i`.
    pub fn set_var(&mut self, i: u8, val: u32)
        ensures
            final(self)@ == old(self)@.update(i as int, val),
    {
        self.variables[i as usize] = val;
    }
}

/// Evaluates `code` on the frame's variables and returns its value.
pub fn interpret(frame: &mut Frame, code: &Instruction) -> (value: u32)
    requires
        terminates(*code, old(frame)@),
    ensures
        (final(frame)@, value) == evaluation(*code, old(frame)@),
    decreases depth(*code, old(frame)@),
{
    let ghost fuel = depth(*code, frame@);
    let ghost less = (fuel - 1) as nat;
    proof {
        lemma_depth(*code, frame@);
    }
    match code {
        Instruction::Int(i) => *i,
        Instruction::Var(v) => frame.var(*v),
        Instruction::Let { variable, value } => {
            proof {
                lemma_evaluation(**value, frame@, less);
            }
            let value = interpret(frame, value);
            frame.set_var(*variable, value);
            value
        },
        Instruction::LessEq(a, b) => {
            proof {
                lemma_evaluation(**a, frame@, less);
            }
            let x = interpret(frame, a);
            proof {
                lemma_evaluation(**b, frame@, less);
            }
            let y = interpret(frame, b);
            if x <= y {
                1
            } else {
                0
            }
        },
        Instruction::Add(a, b) => {
            proof {
                lemma_evaluation(**a, frame@, less);
            }
            let x = interpret(frame, a);
            proof {
                lemma_evaluation(**b, frame@, less);
            }
            let y = interpret(frame, b);
            x + y
        },
        Instruction::Multiply(a, b) => {
            proof {
                lemma_evaluation(**a, frame@, less);
            }
            let x = interpret(frame, a);
            proof {
                lemma_evaluation(**b, frame@, less);
            }
            let y = interpret(frame, b);
            x * y
        },
        Instruction::Sequence(s) => {
            let ghost goal = sequence_spec(s@, 0, frame@, 0, less);
            let mut last: u32 = 0;
            let mut i: usize = 0;
            while i < s.len()
                invariant
                    0 <= i <= s.len(),
                    less < depth(*code, old(frame)@),
                    goal is Some,
                    sequence_spec(s@, i as int, frame@, last, less) == goal,
                decreases s.len() - i,
            {
                proof {
                    lemma_evaluation(s@[i as int], frame@, less);
                }
                last = interpret(frame, &s[i]);
                i += 1;
            }
            last
        },
        Instruction::While { condition, body } => {
            let ghost goal = while_spec(**condition, **body, frame@, 0, less);
            let ghost mut left = less;
            let mut last: u32 = 0;
            loop
                invariant_except_break
                    left < depth(*code, old(frame)@),
                    goal is Some,
                    while_spec(**condition, **body, frame@, last, left) == goal,
                ensures
                    goal == Some((frame@, last)),
                decreases left,
            {
                proof {
                    lemma_evaluation(**condition, frame@, left);
                }
                if interpret(frame, condition) == 0 {
                    break ;
                }
                proof {
                    lemma_evaluation(**body, frame@, left);
                }
                last = interpret(frame, body);
                proof {
                    left = (left - 1) as nat;
                }
            }
            last
        },
    }
}

/// The tree is the factorial program:
///
/// ```text
/// i = 1
/// x = 1
/// while i <= n {
///     x = x * i
///     i = i + 1
/// }
/// ```
pub open spec fn is_factorial_program(code: Instruction) -> bool {
    &&& code matches Instruction::Sequence(top)
    &&& top@.len() == 3
    &&& top@[0] == Instruction::Let { variable: VAR_I, value: Box::new(Instruction::Int(1)) }
    &&& top@[1] == Instruction::Let { variable: VAR_X, value: Box::new(Instruction::Int(1)) }
    &&& top@[2] matches Instruction::While { condition, body }
    &&& *condition == loop_condition()
    &&& is_loop_body(*body)
}

/// `i <= n`
pub open spec fn loop_condition() -> Instruction {
    Instruction::LessEq(
        Box::new(Instruction::Var(VAR_I)),
        Box::new(Instruction::Var(VAR_N)),
    )
}

/// The tree is `x = x * i` followed by `i = i + 1`.
pub open spec fn is_loop_body(body: Instruction) -> bool {
    &&& body matches Instruction::Sequence(inner)
    &&& inner@.len() == 2
    &&& inner@[0] == Instruction::Let {
        variable: VAR_X,
        value: Box::new(
            Instruction::Multiply(
                Box::new(Instruction::Var(VAR_X)),
                Box::new(Instruction::Var(VAR_I)),
            ),
        ),
    }
    &&& inner@[1] == Instruction::Let {
        variable: VAR_I,
        value: Box::new(
            Instruction::Add(Box::new(Instruction::Var(VAR_I)), Box::new(Instruction::Int(1))),
        ),
    }
}

/// Builds the factorial program. On every argument up to `MAX_INPUT` the
/// program comes to an end and returns the argument's factorial.
pub fn code() -> (tree: Instruction)
    ensures
        is_factorial_program(tree),
        forall|n: u32|
            n <= MAX_INPUT ==> #[trigger] runs(tree, n) && result_of(tree, n) == factorial_spec(
                n as nat,
            ),
        result_of(tree, DEFAULT_INPUT) == 3628800,
{
    let mut inner: Vec<Instruction> = Vec::new();
    // x = x * i
    inner.push(
        Instruction::Let {
            variable: VAR_X,
            value: Box::new(
                Instruction::Multiply(
                    Box::new(Instruction::Var(VAR_X)),
                    Box::new(Instruction::Var(VAR_I)),
                ),
            ),
        },
    );
    // i = i + 1
    inner.push(
        Instruction::Let {
            variable: VAR_I,
            value: Box::new(
                Instruction::Add(Box::new(Instruction::Var(VAR_I)), Box::new(Instruction::Int(1))),
            ),
        },
    );

    let mut top: Vec<Instruction> = Vec::new();
    // i = 1
    top.push(Instruction::Let { variable: VAR_I, value: Box::new(Instruction::Int(1)) });
    // x = 1
    top.push(Instruction::Let { variable: VAR_X, value: Box::new(Instruction::Int(1)) });
    // while i <= n { .. }
    top.push(
        Instruction::While {
            condition: Box::new(
                Instruction::LessEq(
                    Box::new(Instruction::Var(VAR_I)),
                    Box::new(Instruction::Var(VAR_N)),
                ),
            ),
            body: Box::new(Instruction::Sequence(inner)),
        },
    );

    let tree = Instruction::Sequence(top);
    proof {
        assert forall|n: u32| n <= MAX_INPUT implies #[trigger] runs(tree, n) && result_of(
            tree,
            n,
        ) == factorial_spec(n as nat) by {
            lemma_program_computes_factorial(tree, n);
        }
        assert(runs(tree, DEFAULT_INPUT));
        lemma_factorial_values();
    }
    tree
}

/// The variables stand as they do when the loop is about to test its
/// condition in a run on `n`, with the counter `i` and `(i - 1)!` as the
/// running product.
pub open spec fn at_loop_head(vars: Seq<u32>, n: u32, i: nat) -> bool {
    &&& vars.len() == SLOTS
    &&& vars[VAR_N as int] == n
    &&& vars[VAR_I as int] == i
    &&& vars[VAR_X as int] == factorial_spec((i - 1) as nat)
    &&& 1 <= i <= n + 1
    &&& n <= MAX_INPUT
}

/// The loop's condition leaves the variables as they are and yields whether
/// `i <= n`.
proof fn lemma_loop_condition(vars: Seq<u32>, fuel: nat)
    requires
        fuel >= 2,
    ensures
        interpret_spec(loop_condition(), vars, fuel) == Some(
            (
                vars,
                if vars[VAR_I as int] <= vars[VAR_N as int] {
                    1u32
                } else {
                    0u32
                },
            ),
        ),
{
    reveal_with_fuel(interpret_spec, 2);
}

/// The loop's body multiplies `x` by `i` and then adds one to `i`.
proof fn lemma_loop_body(body: Instruction, vars: Seq<u32>, fuel: nat)
    requires
        is_loop_body(body),
        fuel >= 4,
        vars.len() == SLOTS,
        vars[VAR_X as int] * vars[VAR_I as int] <= u32::MAX,
        vars[VAR_I as int] + 1 <= u32::MAX,
    ensures
        interpret_spec(body, vars, fuel) == Some(
            (
                vars.update(
                    VAR_X as int,
                    (vars[VAR_X as int] * vars[VAR_I as int]) as u32,
                ).update(VAR_I as int, (vars[VAR_I as int] + 1) as u32),
                (vars[VAR_I as int] + 1) as u32,
            ),
        ),
{
    reveal_with_fuel(interpret_spec, 3);
    let inner = body->Sequence_0@;
    let less = (fuel - 1) as nat;
    let product = (vars[VAR_X as int] * vars[VAR_I as int]) as u32;
    let counter = (vars[VAR_I as int] + 1) as u32;
    let vars1 = vars.update(VAR_X as int, product);
    let vars2 = vars1.update(VAR_I as int, counter);
    assert(interpret_spec(inner[0], vars, less) == Some((vars1, product)));
    assert(interpret_spec(inner[1], vars1, less) == Some((vars2, counter)));
    assert(sequence_spec(inner, 2, vars2, counter, less) == Some((vars2, counter)));
    assert(sequence_spec(inner, 1, vars1, product, less) == Some((vars2, counter)));
    assert(sequence_spec(inner, 0, vars, 0, less) == Some((vars2, counter)));
}

/// From the head of the loop, the loop comes to an end with `n!` as the
/// running product, within a depth of six and one more for each iteration
/// that is left.
pub proof fn lemma_loop_computes_factorial(
    body: Instruction,
    vars: Seq<u32>,
    last: u32,
    n: u32,
    i: nat,
    fuel: nat,
)
    requires
        is_loop_body(body),
        at_loop_head(vars, n, i),
        fuel >= n + 1 - i + 6,
    ensures
        while_spec(loop_condition(), body, vars, last, fuel) is Some,
        while_spec(loop_condition(), body, vars, last, fuel).unwrap().0[VAR_X as int]
            == factorial_spec(n as nat),
    decreases n + 1 - i,
{
    let x = vars[VAR_X as int];
    lemma_loop_condition(vars, fuel);
    if i <= n {
        lemma_factorial_fits(i);
        lemma_factorial_fits((i - 1) as nat);
        assert(factorial_spec(i) == i * factorial_spec((i - 1) as nat));
        assert(x * i == factorial_spec(i)) by (nonlinear_arith)
            requires
                x == factorial_spec((i - 1) as nat),
                factorial_spec(i) == i * factorial_spec((i - 1) as nat),
        ;
        lemma_loop_body(body, vars, fuel);
        let vars2 = vars.update(VAR_X as int, (x * i) as u32).update(
            VAR_I as int,
            (i + 1) as u32,
        );
        lemma_loop_computes_factorial(body, vars2, (i + 1) as u32, n, i + 1, (fuel - 1) as nat);
    }
}

/// Run on any argument whose factorial fits in 32 bits, the factorial program
/// comes to an end, and the result it leaves is that factorial.
pub proof fn lemma_program_computes_factorial(code: Instruction, n: u32)
    requires
        is_factorial_program(code),
        n <= MAX_INPUT,
    ensures
        runs(code, n),
        result_of(code, n) == factorial_spec(n as nat),
{
    reveal_with_fuel(interpret_spec, 3);
    reveal_with_fuel(sequence_spec, 4);
    let fuel = (n + 10) as nat;
    let less = (fuel - 1) as nat;
    let top = code->Sequence_0@;
    let body = *top[2]->While_body;
    let vars1 = initial(n).update(VAR_I as int, 1);
    let vars2 = vars1.update(VAR_X as int, 1);
    assert(factorial_spec(0) == 1);
    assert(at_loop_head(vars2, n, 1));
    lemma_loop_computes_factorial(body, vars2, 0, n, 1, (less - 1) as nat);
    let end = while_spec(loop_condition(), body, vars2, 0, (less - 1) as nat).unwrap();
    assert(interpret_spec(top[0], initial(n), less) == Some((vars1, 1u32)));
    assert(interpret_spec(top[1], vars1, less) == Some((vars2, 1u32)));
    assert(interpret_spec(top[2], vars2, less) == Some(end));
    assert(sequence_spec(top, 3, end.0, end.1, less) == Some(end));
    assert(sequence_spec(top, 0, initial(n), 0, less) == Some(end));
    assert(interpret_spec(code, initial(n), fuel) == Some(end));
    lemma_evaluation(code, initial(n), fuel);
}

/// Runs `code` on the argument `n` with fresh variables and returns the
/// running product that the program leaves.
pub fn run_with(code: &Instruction, n: u32) -> (result: u32)
    requires
        runs(*code, n),
    ensures
        result == result_of(*code, n),
        is_factorial_program(*code) && n <= MAX_INPUT ==> result == factorial_spec(n as nat),
{
    proof {
        if is_factorial_program(*code) && n <= MAX_INPUT {
            lemma_program_computes_factorial(*code, n);
        }
    }
    let mut frame = Frame::new(n);
    interpret(&mut frame, code);
    frame.variables[VAR_X as usize]
}

/// Runs `code` on the argument `DEFAULT_INPUT`.
pub fn run(code: &Instruction) -> (result: u32)
    requires
        runs(*code, DEFAULT_INPUT),
    ensures
        result == result_of(*code, DEFAULT_INPUT),
        is_factorial_program(*code) ==> result == 3628800,
{
    proof {
        lemma_factorial_values();
    }
    run_with(code, DEFAULT_INPUT)
}

} // verus!
