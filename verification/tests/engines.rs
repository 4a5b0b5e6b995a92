use dispatchers::compact_treewalk;
use dispatchers::compact_treewalk_dtable;
use dispatchers::compact_treewalk_switch;
use dispatchers::native;
use dispatchers::register;
use dispatchers::register_dtable;
use dispatchers::register_switch;
use dispatchers::stack;
use dispatchers::stack_dtable;
use dispatchers::stack_switch;
use dispatchers::treewalk;
use dispatchers::treewalk::Instruction;
use dispatchers::writer::OpcodeTag;

const FACTORIALS: [u32; 13] = [
    1, 1, 2, 6, 24, 120, 720, 5040, 40320, 362880, 3628800, 39916800, 479001600,
];

#[test]
fn native_factorial_values() {
    for n in 0..=12u32 {
        assert_eq!(native::factorial(n), FACTORIALS[n as usize]);
    }
    assert_eq!(native::factorial(native::MAX_INPUT), 479001600);
    assert_eq!(native::factorial(native::DEFAULT_INPUT), 3628800);
}

#[test]
fn every_variant_computes_the_factorial() {
    let tree = treewalk::code();
    let compact = compact_treewalk_switch::code();
    let stack = stack_switch::code();
    let register = register_switch::code();
    for n in 0..=12u32 {
        let expected = FACTORIALS[n as usize];
        assert_eq!(native::factorial(n), expected);
        assert_eq!(treewalk::run_with(&tree, n), expected);
        assert_eq!(compact_treewalk_switch::run_with(&compact, n), expected);
        assert_eq!(compact_treewalk_dtable::run_with(&compact, n), expected);
        assert_eq!(stack_switch::run_with(&stack, n), expected);
        assert_eq!(stack_dtable::run_with(&stack, n), expected);
        assert_eq!(register_switch::run_with(&register, n), expected);
        assert_eq!(register_dtable::run_with(&register, n), expected);
    }
}

#[test]
fn both_engines_assemble_the_same_program() {
    assert_eq!(register_switch::code(), register_dtable::code());
    assert_eq!(register_switch::code(), register::code());
    assert_eq!(stack_switch::code(), stack_dtable::code());
    assert_eq!(stack_switch::code(), stack::code());
    assert_eq!(compact_treewalk_switch::code(), compact_treewalk_dtable::code());
    assert_eq!(compact_treewalk_switch::code(), compact_treewalk::code());
}

#[test]
fn zero_and_one_yield_one() {
    let tree = treewalk::code();
    let compact = compact_treewalk::code();
    let stack = stack::code();
    let register = register::code();
    for n in [0u32, 1] {
        assert_eq!(native::factorial(n), 1);
        assert_eq!(treewalk::run_with(&tree, n), 1);
        assert_eq!(compact_treewalk_switch::run_with(&compact, n), 1);
        assert_eq!(compact_treewalk_dtable::run_with(&compact, n), 1);
        assert_eq!(stack_switch::run_with(&stack, n), 1);
        assert_eq!(stack_dtable::run_with(&stack, n), 1);
        assert_eq!(register_switch::run_with(&register, n), 1);
        assert_eq!(register_dtable::run_with(&register, n), 1);
    }
}

#[test]
fn register_variant_on_five_and_on_one() {
    let code = register_switch::code();
    assert_eq!(register_switch::run_with(&code, 5), 120);
    assert_eq!(register_switch::run_with(&code, 1), 1);
    let code = register_dtable::code();
    assert_eq!(register_dtable::run_with(&code, 5), 120);
    assert_eq!(register_dtable::run_with(&code, 1), 1);
}

#[test]
fn run_is_run_with_the_default_input() {
    let code = register::code();
    assert_eq!(register_switch::run(&code), register_switch::run_with(&code, 10));
    assert_eq!(register_dtable::run(&code), register_dtable::run_with(&code, 10));
    let code = stack::code();
    assert_eq!(stack_switch::run(&code), stack_switch::run_with(&code, 10));
    assert_eq!(stack_dtable::run(&code), stack_dtable::run_with(&code, 10));
    let code = compact_treewalk::code();
    assert_eq!(compact_treewalk_switch::run(&code), compact_treewalk_switch::run_with(&code, 10));
    assert_eq!(compact_treewalk_dtable::run(&code), compact_treewalk_dtable::run_with(&code, 10));
    let tree = treewalk::code();
    assert_eq!(treewalk::run(&tree), treewalk::run_with(&tree, 10));
}

#[test]
fn repeated_runs_give_the_same_result_and_leave_the_program_alone() {
    let register = register::code();
    let stack = stack::code();
    let compact = compact_treewalk::code();
    let tree = treewalk::code();
    let register_before = register.clone();
    let stack_before = stack.clone();
    let compact_before = compact.clone();
    for _ in 0..100 {
        assert_eq!(register_switch::run(&register), 3628800);
        assert_eq!(register_dtable::run(&register), 3628800);
        assert_eq!(stack_switch::run(&stack), 3628800);
        assert_eq!(stack_dtable::run(&stack), 3628800);
        assert_eq!(compact_treewalk_switch::run(&compact), 3628800);
        assert_eq!(compact_treewalk_dtable::run(&compact), 3628800);
        assert_eq!(treewalk::run(&tree), 3628800);
    }
    assert_eq!(register, register_before);
    assert_eq!(stack, stack_before);
    assert_eq!(compact, compact_before);
    // A run on one argument does not show in a later run on another.
    assert_eq!(register_switch::run_with(&register, 3), 6);
    assert_eq!(register_switch::run_with(&register, 12), 479001600);
    assert_eq!(register_switch::run_with(&register, 3), 6);
    assert_eq!(treewalk::run_with(&tree, 3), 6);
    assert_eq!(treewalk::run_with(&tree, 12), 479001600);
    assert_eq!(treewalk::run_with(&tree, 3), 6);
}

/// A copy of `code` in which every offset of `starts` but `keep` holds `halt`.
fn isolate(code: &[u8], starts: &[usize], keep: usize, halt: u8) -> Vec<u8> {
    let mut out = code.to_vec();
    for &at in starts {
        if at != keep {
            out[at] = halt;
        }
    }
    out
}

const REGISTER_STARTS: [usize; 9] = [0, 6, 12, 16, 20, 24, 30, 34, 37];
const STACK_STARTS: [usize; 17] =
    [0, 5, 10, 12, 14, 15, 18, 20, 22, 23, 25, 27, 32, 33, 35, 38, 40];
const COMPACT_STARTS: [usize; 7] = [0, 7, 14, 22, 29, 39, 42];

#[test]
fn register_engines_agree_after_every_instruction() {
    let code = register::code();
    let halt = register::Opcode::Halt.tag();
    for n in [0u32, 1, 2, 5, 10] {
        let mut table = register::Frame::new(&code, n);
        let mut steps = 0;
        while table.peek_u8() != halt {
            // The switch engine takes the same instruction alone: in its copy
            // of the program every other instruction has become a `Halt`.
            let alone = isolate(&code, &REGISTER_STARTS, table.pc as usize, halt);
            let mut switch =
                register::Frame { variables: table.variables, bytecode: &alone, pc: table.pc };
            register_switch::eval(&mut switch);
            register_dtable::step(&mut table);
            assert_eq!(switch.pc, table.pc);
            assert_eq!(switch.variables, table.variables);
            steps += 1;
        }
        assert_eq!(steps, 2 + 6 * n + 2);
        assert_eq!(table.pc, register::LOOP_END);
        assert_eq!(table.variables[register::VAR_X as usize], FACTORIALS[n as usize]);
    }
}

#[test]
fn stack_engines_agree_after_every_instruction() {
    let code = stack::code();
    let halt = stack::Opcode::Halt.tag();
    for n in [0u32, 1, 2, 5, 10] {
        let mut table = stack::Frame::new(&code, n);
        let mut steps = 0;
        while table.peek_u8() != halt {
            let alone = isolate(&code, &STACK_STARTS, table.pc as usize, halt);
            let mut switch = stack::Frame {
                stack: table.stack,
                sp: table.sp,
                bytecode: &alone,
                pc: table.pc,
            };
            stack_switch::eval(&mut switch);
            stack_dtable::step(&mut table);
            assert_eq!(switch.pc, table.pc);
            assert_eq!(switch.sp, table.sp);
            assert_eq!(switch.stack, table.stack);
            steps += 1;
        }
        assert_eq!(steps, 2 + 13 * n + 4 + 1);
        assert_eq!(table.pc, 40);
        assert_eq!(table.sp, 4);
        assert_eq!(table.stack[3], FACTORIALS[n as usize]);
    }
}

#[test]
fn compact_engines_agree_after_every_statement() {
    let code = compact_treewalk::code();
    let halt = compact_treewalk::Opcode::Halt.tag();
    for n in [0u32, 1, 2, 5, 10] {
        let mut whole = compact_treewalk::Frame::new(&code, n);
        compact_treewalk_switch::eval(&mut whole);
        let mut pc = 0u16;
        let mut variables = compact_treewalk::Frame::new(&code, n).variables;
        let mut statements = 0;
        while code[pc as usize] != halt {
            let alone = isolate(&code, &COMPACT_STARTS, pc as usize, halt);
            let mut switch = compact_treewalk::Frame { variables, bytecode: &alone, pc };
            let mut table = compact_treewalk::Frame { variables, bytecode: &alone, pc };
            compact_treewalk_switch::eval(&mut switch);
            compact_treewalk_dtable::eval(&mut table);
            assert_eq!(switch.pc, table.pc);
            assert_eq!(switch.variables, table.variables);
            pc = switch.pc;
            variables = switch.variables;
            statements += 1;
        }
        assert_eq!(statements, 2 + 4 * n + 1);
        assert_eq!(pc, whole.pc);
        assert_eq!(variables, whole.variables);
        assert_eq!(variables[compact_treewalk::VAR_X as usize], FACTORIALS[n as usize]);
    }
}

#[test]
fn engines_halt_in_the_same_state() {
    for n in 0..=12u32 {
        let code = register::code();
        let mut a = register::Frame::new(&code, n);
        let mut b = register::Frame::new(&code, n);
        register_switch::eval(&mut a);
        register_dtable::eval(&mut b);
        assert_eq!((a.pc, a.variables), (b.pc, b.variables));
        assert_eq!(a.pc, register::LOOP_END);
        assert_eq!(a.variables[register::VAR_N as usize], n);
        assert_eq!(a.variables[register::VAR_I as usize], n + 1);
        assert_eq!(a.variables[register::VAR_X as usize], FACTORIALS[n as usize]);
        assert_eq!(a.variables[register::TEMP as usize], 0);

        let code = stack::code();
        let mut a = stack::Frame::new(&code, n);
        let mut b = stack::Frame::new(&code, n);
        stack_switch::eval(&mut a);
        stack_dtable::eval(&mut b);
        assert_eq!((a.pc, a.sp, a.stack), (b.pc, b.sp, b.stack));
        assert_eq!(a.sp, 4);
        assert_eq!(a.stack[stack::VAR_N as usize], n);
        assert_eq!(a.stack[stack::VAR_I as usize], n + 1);
        assert_eq!(a.stack[stack::VAR_X as usize], FACTORIALS[n as usize]);
        assert_eq!(a.stack[3], FACTORIALS[n as usize]);

        let code = compact_treewalk::code();
        let mut a = compact_treewalk::Frame::new(&code, n);
        let mut b = compact_treewalk::Frame::new(&code, n);
        compact_treewalk_switch::eval(&mut a);
        compact_treewalk_dtable::eval(&mut b);
        assert_eq!((a.pc, a.variables), (b.pc, b.variables));
        assert_eq!(a.pc, compact_treewalk::LOOP_END);
        assert_eq!(a.variables[compact_treewalk::VAR_I as usize], n + 1);
        assert_eq!(a.variables[compact_treewalk::VAR_X as usize], FACTORIALS[n as usize]);
    }
}

#[test]
fn a_halted_frame_stays_as_it_is() {
    let code = vec![register::Opcode::Halt.tag()];
    let mut frame = register::Frame::new(&code, 7);
    register_switch::eval(&mut frame);
    assert_eq!(frame.pc, 0);
    assert_eq!(frame.variables[0], 7);
    register_dtable::eval(&mut frame);
    assert_eq!(frame.pc, 0);
    assert_eq!(register_switch::run_with(&code, 7), 0);

    let code = vec![stack::Opcode::Halt.tag()];
    assert_eq!(stack_switch::run_with(&code, 7), 7);
    assert_eq!(stack_dtable::run_with(&code, 7), 7);

    let code = vec![compact_treewalk::Opcode::Halt.tag()];
    assert_eq!(compact_treewalk_switch::run_with(&code, 7), 0);
    assert_eq!(compact_treewalk_dtable::run_with(&code, 7), 0);
}

#[test]
fn fresh_frames_are_zeroed_but_for_the_argument() {
    let code = [6u8];
    let frame = register::Frame::new(&code, 42);
    assert_eq!(frame.pc, 0);
    assert_eq!(frame.variables[0], 42);
    assert!(frame.variables[1..].iter().all(|&v| v == 0));

    let code = [8u8];
    let frame = stack::Frame::new(&code, 42);
    assert_eq!(frame.pc, 0);
    assert_eq!(frame.sp, 1);
    assert_eq!(frame.stack[0], 42);
    assert!(frame.stack[1..].iter().all(|&v| v == 0));

    let frame = compact_treewalk::Frame::new(&code, 42);
    assert_eq!(frame.pc, 0);
    assert_eq!(frame.variables[0], 42);
    assert!(frame.variables[1..].iter().all(|&v| v == 0));

    let frame = treewalk::Frame::new(42);
    assert_eq!(frame.variables[0], 42);
    assert!(frame.variables[1..].iter().all(|&v| v == 0));
}

#[test]
fn frame_reads_advance_the_program_counter() {
    let code = [0x01u8, 0x02, 0x03, 0x04, 0x05, 0x06, 0x07, 0x08];
    let mut frame = register::Frame::new(&code, 0);
    assert_eq!(frame.peek_u8(), 0x01);
    assert_eq!(frame.pc, 0);
    assert_eq!(frame.read_u8(), 0x01);
    assert_eq!(frame.pc, 1);
    assert_eq!(frame.read_u16(), 0x0302);
    assert_eq!(frame.pc, 3);
    assert_eq!(frame.read_u32(), 0x07060504);
    assert_eq!(frame.pc, 7);
    assert_eq!(frame.peek_u8(), 0x08);

    let mut frame = stack::Frame::new(&code, 0);
    assert_eq!(frame.read_u32(), 0x04030201);
    assert_eq!(frame.read_u16(), 0x0605);
    assert_eq!(frame.read_u8(), 0x07);
    assert_eq!(frame.pc, 7);

    let mut frame = compact_treewalk::Frame::new(&code, 0);
    assert_eq!(frame.read_u16(), 0x0201);
    assert_eq!(frame.read_u32(), 0x06050403);
    assert_eq!(frame.peek_u8(), 0x07);
    assert_eq!(frame.pc, 6);
}

#[test]
fn frame_slots_hold_what_was_stored() {
    let code = [6u8];
    let mut frame = register::Frame::new(&code, 0);
    frame.set_var(255, 9);
    frame.set_var(3, 8);
    assert_eq!(frame.var(255), 9);
    assert_eq!(frame.var(3), 8);
    assert_eq!(frame.var(4), 0);

    let mut frame = treewalk::Frame::new(5);
    frame.set_var(2, 77);
    assert_eq!(frame.var(2), 77);
    assert_eq!(frame.var(0), 5);
}

#[test]
fn stack_push_and_pop() {
    let code = [8u8];
    let mut frame = stack::Frame::new(&code, 5);
    frame.push(6);
    frame.push(7);
    assert_eq!(frame.sp, 3);
    assert_eq!(frame.var(1), 6);
    assert_eq!(frame.pop(), 7);
    assert_eq!(frame.pop(), 6);
    assert_eq!(frame.sp, 1);
    // A popped value stays in its slot until it is overwritten.
    assert_eq!(frame.var(2), 7);
    frame.set_var(0, 9);
    assert_eq!(frame.pop(), 9);
    assert_eq!(frame.sp, 0);
}

#[test]
fn stack_fills_to_its_last_slot() {
    let code = [8u8];
    let mut frame = stack::Frame::new(&code, 0);
    for v in 1..256u32 {
        frame.push(v);
    }
    assert_eq!(frame.sp, 256);
    for v in (1..256u32).rev() {
        assert_eq!(frame.pop(), v);
    }
    assert_eq!(frame.sp, 1);
}

#[test]
fn register_instructions_one_by_one() {
    // Int 5 <- 7; Int 6 <- 3; LessEq 6 5 -> 7; Add 5 6 -> 8; Multiply 5 6 -> 9; Halt
    let code: Vec<u8> = vec![
        0, 5, 7, 0, 0, 0, //
        0, 6, 3, 0, 0, 0, //
        1, 6, 5, 7, //
        2, 5, 6, 8, //
        3, 5, 6, 9, //
        1, 5, 6, 10, //
        6,
    ];
    for dtable in [false, true] {
        let mut frame = register::Frame::new(&code, 0);
        if dtable {
            register_dtable::eval(&mut frame);
        } else {
            register_switch::eval(&mut frame);
        }
        assert_eq!(frame.var(5), 7);
        assert_eq!(frame.var(6), 3);
        assert_eq!(frame.var(7), 1);
        assert_eq!(frame.var(8), 10);
        assert_eq!(frame.var(9), 21);
        assert_eq!(frame.var(10), 0);
        assert_eq!(frame.pc, 28);
    }
}

#[test]
fn register_conditional_jump_is_taken_on_zero_only() {
    // JumpIfNot 10, slot 0; Int 2 <- 1; Halt
    let code: Vec<u8> = vec![4, 10, 0, 0, 0, 2, 1, 0, 0, 0, 6];
    assert_eq!(register_switch::run_with(&code, 0), 0);
    assert_eq!(register_dtable::run_with(&code, 0), 0);
    assert_eq!(register_switch::run_with(&code, 1), 1);
    assert_eq!(register_dtable::run_with(&code, 1), 1);
    assert_eq!(register_switch::run_with(&code, u32::MAX), 1);
}

#[test]
fn register_jump_target_is_absolute() {
    // 0: Jump 9; 3: Int 2 <- 5; 9: Halt
    let code: Vec<u8> = vec![5, 9, 0, 0, 2, 5, 0, 0, 0, 6];
    assert_eq!(register_switch::run_with(&code, 0), 0);
    assert_eq!(register_dtable::run_with(&code, 0), 0);
    // 0: Jump 4; 3: Halt; 4: Int 2 <- 5; 10: Jump 3
    let code: Vec<u8> = vec![5, 4, 0, 6, 0, 2, 5, 0, 0, 0, 5, 3, 0];
    assert_eq!(register_switch::run_with(&code, 0), 5);
    assert_eq!(register_dtable::run_with(&code, 0), 5);
}

#[test]
fn stack_instructions_one_by_one() {
    // Int 7; Int 3; LessEq; Let 5; Int 7; Int 3; Add; Int 4; Multiply; Halt
    let code: Vec<u8> = vec![
        0, 7, 0, 0, 0, //
        0, 3, 0, 0, 0, //
        3, //
        1, 5, //
        0, 7, 0, 0, 0, //
        0, 3, 0, 0, 0, //
        4, //
        0, 4, 0, 0, 0, //
        5, //
        8,
    ];
    for dtable in [false, true] {
        let mut frame = stack::Frame::new(&code, 9);
        if dtable {
            stack_dtable::eval(&mut frame);
        } else {
            stack_switch::eval(&mut frame);
        }
        assert_eq!(frame.sp, 2);
        assert_eq!(frame.var(0), 9);
        assert_eq!(frame.var(1), 40);
        assert_eq!(frame.var(5), 0);
        assert_eq!(frame.pc, 30);
    }
    assert_eq!(stack_switch::run_with(&code, 9), 40);
    assert_eq!(stack_dtable::run_with(&code, 9), 40);
}

#[test]
fn stack_less_eq_compares_lower_with_upper() {
    // Int 3; Int 7; LessEq; Halt
    let code: Vec<u8> = vec![0, 3, 0, 0, 0, 0, 7, 0, 0, 0, 3, 8];
    assert_eq!(stack_switch::run_with(&code, 0), 1);
    assert_eq!(stack_dtable::run_with(&code, 0), 1);
    // Int 7; Int 7; LessEq; Halt
    let code: Vec<u8> = vec![0, 7, 0, 0, 0, 0, 7, 0, 0, 0, 3, 8];
    assert_eq!(stack_switch::run_with(&code, 0), 1);
    // Int 8; Int 7; LessEq; Halt
    let code: Vec<u8> = vec![0, 8, 0, 0, 0, 0, 7, 0, 0, 0, 3, 8];
    assert_eq!(stack_switch::run_with(&code, 0), 0);
    assert_eq!(stack_dtable::run_with(&code, 0), 0);
}

#[test]
fn stack_variables_are_the_bottom_of_the_stack() {
    // Var 0; Var 0; Add; Let 0; Var 0; Halt
    let code: Vec<u8> = vec![2, 0, 2, 0, 4, 1, 0, 2, 0, 8];
    assert_eq!(stack_switch::run_with(&code, 21), 42);
    assert_eq!(stack_dtable::run_with(&code, 21), 42);
}

#[test]
fn stack_conditional_jump_pops_its_condition() {
    // Var 0; JumpIfNot 10; Int 5; Halt(10)
    let code: Vec<u8> = vec![2, 0, 6, 10, 0, 0, 5, 0, 0, 0, 8];
    for dtable in [false, true] {
        for (n, sp, top) in [(0u32, 1usize, 0u32), (3, 2, 5)] {
            let mut frame = stack::Frame::new(&code, n);
            if dtable {
                stack_dtable::eval(&mut frame);
            } else {
                stack_switch::eval(&mut frame);
            }
            assert_eq!(frame.pc, 10);
            assert_eq!(frame.sp, sp);
            assert_eq!(frame.stack[sp - 1], top);
        }
    }
}

#[test]
fn compact_nodes_nest() {
    // Let x = Add(Multiply(Var n, Int 3), LessEq(Int 2, Var n)); Halt
    let code: Vec<u8> = vec![
        2, 2, 4, 5, 1, 0, 0, 3, 0, 0, 0, 3, 0, 2, 0, 0, 0, 1, 0, //
        8,
    ];
    assert_eq!(compact_treewalk_switch::run_with(&code, 5), 16);
    assert_eq!(compact_treewalk_dtable::run_with(&code, 5), 16);
    assert_eq!(compact_treewalk_switch::run_with(&code, 1), 3);
    assert_eq!(compact_treewalk_dtable::run_with(&code, 1), 3);
}

#[test]
fn compact_let_yields_its_value() {
    // Let x = Let i = Int 9; Halt
    let code: Vec<u8> = vec![2, 2, 2, 1, 0, 9, 0, 0, 0, 8];
    for dtable in [false, true] {
        let mut frame = compact_treewalk::Frame::new(&code, 0);
        if dtable {
            compact_treewalk_dtable::eval(&mut frame);
        } else {
            compact_treewalk_switch::eval(&mut frame);
        }
        assert_eq!(frame.var(1), 9);
        assert_eq!(frame.var(2), 9);
        assert_eq!(frame.pc, 9);
    }
}

#[test]
fn compact_nested_halt_and_jump_yield_zero() {
    // Let x = Add(Int 4, Halt); Halt
    let code: Vec<u8> = vec![2, 2, 4, 0, 4, 0, 0, 0, 8, 8];
    assert_eq!(compact_treewalk_switch::run_with(&code, 0), 4);
    assert_eq!(compact_treewalk_dtable::run_with(&code, 0), 4);
    // 0: Let x = Int 6; 7: Let i = Jump 13; 12: (skipped) Halt; 13: Halt
    let code: Vec<u8> = vec![2, 2, 0, 6, 0, 0, 0, 2, 1, 7, 13, 0, 8, 8];
    for dtable in [false, true] {
        let mut frame = compact_treewalk::Frame::new(&code, 0);
        if dtable {
            compact_treewalk_dtable::eval(&mut frame);
        } else {
            compact_treewalk_switch::eval(&mut frame);
        }
        assert_eq!(frame.pc, 13);
        assert_eq!(frame.var(1), 0);
        assert_eq!(frame.var(2), 6);
    }
}

fn constant(i: u32) -> Box<Instruction> {
    Box::new(Instruction::Int(i))
}

fn slot(v: u8) -> Box<Instruction> {
    Box::new(Instruction::Var(v))
}

#[test]
fn tree_nodes_one_by_one() {
    let x = treewalk::VAR_X;
    let set = |value: Instruction| Instruction::Let { variable: x, value: Box::new(value) };
    assert_eq!(treewalk::run_with(&set(Instruction::Int(9)), 0), 9);
    assert_eq!(treewalk::run_with(&set(Instruction::Var(0)), 4), 4);
    assert_eq!(treewalk::run_with(&set(Instruction::Add(constant(2), slot(0))), 40), 42);
    assert_eq!(treewalk::run_with(&set(Instruction::Multiply(constant(6), slot(0))), 7), 42);
    assert_eq!(treewalk::run_with(&set(Instruction::LessEq(constant(6), slot(0))), 7), 1);
    assert_eq!(treewalk::run_with(&set(Instruction::LessEq(constant(7), slot(0))), 7), 1);
    assert_eq!(treewalk::run_with(&set(Instruction::LessEq(constant(8), slot(0))), 7), 0);
    // Nothing is stored where nothing is assigned.
    assert_eq!(treewalk::run_with(&Instruction::Int(9), 3), 0);
    assert_eq!(treewalk::run_with(&Instruction::Sequence(vec![]), 3), 0);
}

#[test]
fn tree_sequence_and_loop_yield_their_last_value() {
    let x = treewalk::VAR_X;
    // x = { 1; 2; 3 }
    let tree = Instruction::Let {
        variable: x,
        value: Box::new(Instruction::Sequence(vec![
            Instruction::Int(1),
            Instruction::Int(2),
            Instruction::Int(3),
        ])),
    };
    assert_eq!(treewalk::run_with(&tree, 0), 3);
    // x = {}
    let tree = Instruction::Sequence(vec![
        Instruction::Let { variable: x, value: constant(8) },
        Instruction::Let { variable: x, value: Box::new(Instruction::Sequence(vec![])) },
    ]);
    assert_eq!(treewalk::run_with(&tree, 0), 0);
    // x = while i <= n { i = i + 1 }
    let tree = Instruction::Let {
        variable: x,
        value: Box::new(Instruction::While {
            condition: Box::new(Instruction::LessEq(slot(1), slot(0))),
            body: Box::new(Instruction::Let {
                variable: 1,
                value: Box::new(Instruction::Add(slot(1), constant(1))),
            }),
        }),
    };
    assert_eq!(treewalk::run_with(&tree, 4), 5);
    // A loop that never runs yields zero.
    let tree = Instruction::Let {
        variable: x,
        value: Box::new(Instruction::While { condition: constant(0), body: constant(7) }),
    };
    assert_eq!(treewalk::run_with(&tree, 4), 0);
}

#[test]
fn tree_operands_are_evaluated_left_to_right() {
    let x = treewalk::VAR_X;
    // x = (i = 5) * i
    let tree = Instruction::Let {
        variable: x,
        value: Box::new(Instruction::Multiply(
            Box::new(Instruction::Let { variable: 1, value: constant(5) }),
            slot(1),
        )),
    };
    assert_eq!(treewalk::run_with(&tree, 0), 25);
    // x = i * (i = 5)
    let tree = Instruction::Let {
        variable: x,
        value: Box::new(Instruction::Multiply(
            slot(1),
            Box::new(Instruction::Let { variable: 1, value: constant(5) }),
        )),
    };
    assert_eq!(treewalk::run_with(&tree, 0), 0);
}

#[test]
fn tree_program_has_the_expected_shape() {
    let tree = treewalk::code();
    let top = match &tree {
        Instruction::Sequence(top) => top,
        _ => panic!("the program is a sequence"),
    };
    assert_eq!(top.len(), 3);
    assert!(matches!(&top[0], Instruction::Let { variable: 1, value }
        if matches!(**value, Instruction::Int(1))));
    assert!(matches!(&top[1], Instruction::Let { variable: 2, value }
        if matches!(**value, Instruction::Int(1))));
    let (condition, body) = match &top[2] {
        Instruction::While { condition, body } => (condition, body),
        _ => panic!("the third statement is the loop"),
    };
    assert!(matches!(&**condition, Instruction::LessEq(a, b)
        if matches!(**a, Instruction::Var(1)) && matches!(**b, Instruction::Var(0))));
    let inner = match &**body {
        Instruction::Sequence(inner) => inner,
        _ => panic!("the body is a sequence"),
    };
    assert_eq!(inner.len(), 2);
    assert!(matches!(&inner[0], Instruction::Let { variable: 2, value }
        if matches!(&**value, Instruction::Multiply(a, b)
            if matches!(**a, Instruction::Var(2)) && matches!(**b, Instruction::Var(1)))));
    assert!(matches!(&inner[1], Instruction::Let { variable: 1, value }
        if matches!(&**value, Instruction::Add(a, b)
            if matches!(**a, Instruction::Var(1)) && matches!(**b, Instruction::Int(1)))));
}

const COMPACT_NODES: [usize; 18] =
    [0, 2, 7, 9, 14, 17, 18, 20, 22, 24, 25, 27, 29, 31, 32, 34, 39, 42];

#[test]
fn compact_engines_agree_on_every_node() {
    let code = compact_treewalk::code();
    for (n, i, x) in [(0u32, 1u32, 1u32), (5, 1, 1), (5, 3, 2), (5, 6, 120), (10, 10, 362880)] {
        for at in COMPACT_NODES {
            let mut switch = compact_treewalk::Frame::new(&code, n);
            switch.set_var(compact_treewalk::VAR_I, i);
            switch.set_var(compact_treewalk::VAR_X, x);
            switch.pc = at as u16;
            let mut table = compact_treewalk::Frame::new(&code, n);
            table.set_var(compact_treewalk::VAR_I, i);
            table.set_var(compact_treewalk::VAR_X, x);
            table.pc = at as u16;
            let a = compact_treewalk_switch::step(&mut switch);
            let b = compact_treewalk_dtable::step(&mut table);
            assert_eq!(a, b);
            assert_eq!(switch.pc, table.pc);
            assert_eq!(switch.variables, table.variables);
        }
    }
}

#[test]
fn compact_step_yields_the_value_of_the_node() {
    let code = compact_treewalk::code();
    let mut frame = compact_treewalk::Frame::new(&code, 4);
    // i = 1
    assert_eq!(compact_treewalk_switch::step(&mut frame), 1);
    assert_eq!(frame.pc, 7);
    // x = 1
    assert_eq!(compact_treewalk_dtable::step(&mut frame), 1);
    assert_eq!(frame.pc, 14);
    // i <= n holds: the conditional jump falls through and yields zero
    assert_eq!(compact_treewalk_switch::step(&mut frame), 0);
    assert_eq!(frame.pc, 22);
    frame.set_var(compact_treewalk::VAR_X, 6);
    frame.set_var(compact_treewalk::VAR_I, 4);
    // x = x * i
    assert_eq!(compact_treewalk_dtable::step(&mut frame), 24);
    assert_eq!(frame.pc, 29);
    assert_eq!(frame.var(compact_treewalk::VAR_X), 24);
    // i = i + 1
    assert_eq!(compact_treewalk_switch::step(&mut frame), 5);
    assert_eq!(frame.pc, 39);
    assert_eq!(frame.var(compact_treewalk::VAR_I), 5);
    // back to the head of the loop
    assert_eq!(compact_treewalk_dtable::step(&mut frame), 0);
    assert_eq!(frame.pc, 14);
    // i <= n fails: the conditional jump is taken
    assert_eq!(compact_treewalk_switch::step(&mut frame), 0);
    assert_eq!(frame.pc, 42);
    // a `Halt` that is stepped over yields zero
    assert_eq!(compact_treewalk_dtable::step(&mut frame), 0);
    assert_eq!(frame.pc, 43);
}

#[test]
fn tree_interpret_returns_the_value_and_keeps_the_effects() {
    let mut frame = treewalk::Frame::new(3);
    let tree = Instruction::Add(
        Box::new(Instruction::Let { variable: 4, value: constant(10) }),
        Box::new(Instruction::Multiply(slot(4), slot(0))),
    );
    assert_eq!(treewalk::interpret(&mut frame, &tree), 40);
    assert_eq!(frame.var(4), 10);
    assert_eq!(frame.var(0), 3);
    assert_eq!(frame.var(2), 0);
    assert_eq!(treewalk::interpret(&mut frame, &Instruction::Var(4)), 10);
    let whole = treewalk::code();
    assert_eq!(treewalk::interpret(&mut frame, &whole), 4);
    assert_eq!(frame.var(treewalk::VAR_X), 6);
    assert_eq!(frame.var(treewalk::VAR_I), 4);
}

#[test]
fn register_handlers_finish_the_instruction_whose_tag_was_read() {
    let code = register::code();
    let mut frame = register::Frame::new(&code, 3);
    assert_eq!(frame.read_u8(), register::Opcode::Int.tag());
    register_dtable::exec_int(&mut frame);
    assert_eq!((frame.pc, frame.var(register::VAR_I)), (6, 1));
    assert_eq!(frame.read_u8(), register::Opcode::Int.tag());
    register_dtable::exec_int(&mut frame);
    assert_eq!((frame.pc, frame.var(register::VAR_X)), (12, 1));
    assert_eq!(frame.read_u8(), register::Opcode::LessEq.tag());
    register_dtable::exec_less_eq(&mut frame);
    assert_eq!((frame.pc, frame.var(register::TEMP)), (16, 1));
    assert_eq!(frame.read_u8(), register::Opcode::JumpIfNot.tag());
    register_dtable::exec_jump_if_not(&mut frame);
    assert_eq!(frame.pc, 20);
    frame.set_var(register::VAR_X, 7);
    frame.set_var(register::VAR_I, 6);
    assert_eq!(frame.read_u8(), register::Opcode::Multiply.tag());
    register_dtable::exec_multiply(&mut frame);
    assert_eq!((frame.pc, frame.var(register::VAR_X)), (24, 42));
    assert_eq!(frame.read_u8(), register::Opcode::Int.tag());
    register_dtable::exec_int(&mut frame);
    assert_eq!((frame.pc, frame.var(register::TEMP)), (30, 1));
    assert_eq!(frame.read_u8(), register::Opcode::Add.tag());
    register_dtable::exec_add(&mut frame);
    assert_eq!((frame.pc, frame.var(register::VAR_I)), (34, 7));
    assert_eq!(frame.read_u8(), register::Opcode::Jump.tag());
    register_dtable::exec_jump(&mut frame);
    assert_eq!(frame.pc, 12);
    assert_eq!(frame.read_u8(), register::Opcode::LessEq.tag());
    register_dtable::exec_less_eq(&mut frame);
    assert_eq!((frame.pc, frame.var(register::TEMP)), (16, 0));
    assert_eq!(frame.read_u8(), register::Opcode::JumpIfNot.tag());
    register_dtable::exec_jump_if_not(&mut frame);
    assert_eq!(frame.pc, 37);
}

#[test]
fn stack_handlers_finish_the_instruction_whose_tag_was_read() {
    let code = stack::code();
    let mut frame = stack::Frame::new(&code, 3);
    assert_eq!(frame.read_u8(), stack::Opcode::Int.tag());
    stack_dtable::exec_int(&mut frame);
    assert_eq!((frame.pc, frame.sp, frame.var(1)), (5, 2, 1));
    assert_eq!(frame.read_u8(), stack::Opcode::Int.tag());
    stack_dtable::exec_int(&mut frame);
    assert_eq!((frame.pc, frame.sp, frame.var(2)), (10, 3, 1));
    assert_eq!(frame.read_u8(), stack::Opcode::Var.tag());
    stack_dtable::exec_var(&mut frame);
    assert_eq!((frame.pc, frame.sp, frame.var(3)), (12, 4, 1));
    assert_eq!(frame.read_u8(), stack::Opcode::Var.tag());
    stack_dtable::exec_var(&mut frame);
    assert_eq!((frame.pc, frame.sp, frame.var(4)), (14, 5, 3));
    assert_eq!(frame.read_u8(), stack::Opcode::LessEq.tag());
    stack_dtable::exec_less_eq(&mut frame);
    assert_eq!((frame.pc, frame.sp, frame.var(3)), (15, 4, 1));
    assert_eq!(frame.read_u8(), stack::Opcode::JumpIfNot.tag());
    stack_dtable::exec_jump_if_not(&mut frame);
    assert_eq!((frame.pc, frame.sp), (18, 3));
    frame.push(6);
    frame.push(7);
    frame.pc = 22;
    assert_eq!(frame.read_u8(), stack::Opcode::Multiply.tag());
    stack_dtable::exec_multiply(&mut frame);
    assert_eq!((frame.pc, frame.sp, frame.var(3)), (23, 4, 42));
    assert_eq!(frame.read_u8(), stack::Opcode::Let.tag());
    stack_dtable::exec_let(&mut frame);
    assert_eq!((frame.pc, frame.sp, frame.var(stack::VAR_X)), (25, 3, 42));
    frame.push(6);
    frame.push(7);
    frame.pc = 32;
    assert_eq!(frame.read_u8(), stack::Opcode::Add.tag());
    stack_dtable::exec_add(&mut frame);
    assert_eq!((frame.pc, frame.sp, frame.var(3)), (33, 4, 13));
    frame.pc = 35;
    assert_eq!(frame.read_u8(), stack::Opcode::Jump.tag());
    stack_dtable::exec_jump(&mut frame);
    assert_eq!((frame.pc, frame.sp), (10, 4));
}

#[test]
fn dispatch_tables_have_one_entry_for_each_dispatched_opcode() {
    assert_eq!(register_dtable::dispatch_table().len(), register_dtable::HANDLERS);
    assert_eq!(register_dtable::HANDLERS, register::Opcode::Halt.tag() as usize);
    assert_eq!(stack_dtable::dispatch_table().len(), stack_dtable::HANDLERS);
    assert_eq!(stack_dtable::HANDLERS, stack::Opcode::Halt.tag() as usize);
    assert_eq!(compact_treewalk_dtable::dispatch_table().len(), compact_treewalk_dtable::HANDLERS);
    assert_eq!(
        compact_treewalk_dtable::HANDLERS,
        compact_treewalk::Opcode::Halt.tag() as usize + 1
    );
}
