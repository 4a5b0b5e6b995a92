use dispatchers::encoding::{u16_from_le, u16_to_le, u32_from_le, u32_to_le};
use dispatchers::register;
use dispatchers::stack;
use dispatchers::compact_treewalk;
use dispatchers::writer::{OpcodeTag, Writer};

#[test]
fn u16_is_laid_out_least_significant_byte_first() {
    assert_eq!(u16_to_le(0x1234), [0x34, 0x12]);
    assert_eq!(u16_to_le(0), [0, 0]);
    assert_eq!(u16_to_le(37), [37, 0]);
    assert_eq!(u16_to_le(u16::MAX), [0xff, 0xff]);
}

#[test]
fn u32_is_laid_out_least_significant_byte_first() {
    assert_eq!(u32_to_le(0x12345678), [0x78, 0x56, 0x34, 0x12]);
    assert_eq!(u32_to_le(1), [1, 0, 0, 0]);
    assert_eq!(u32_to_le(u32::MAX), [0xff, 0xff, 0xff, 0xff]);
}

#[test]
fn bytes_join_to_the_value_they_were_split_from() {
    assert_eq!(u16_from_le(0x34, 0x12), 0x1234);
    assert_eq!(u16_from_le(0xff, 0xff), u16::MAX);
    assert_eq!(u32_from_le(0x78, 0x56, 0x34, 0x12), 0x12345678);
    assert_eq!(u32_from_le(0xff, 0xff, 0xff, 0xff), u32::MAX);
    for x in [0u16, 1, 255, 256, 37, 0xabcd, u16::MAX] {
        let b = u16_to_le(x);
        assert_eq!(u16_from_le(b[0], b[1]), x);
    }
    for x in [0u32, 1, 255, 256, 65536, 3628800, 0xdeadbeef, u32::MAX] {
        let b = u32_to_le(x);
        assert_eq!(u32_from_le(b[0], b[1], b[2], b[3]), x);
    }
}

#[test]
fn writer_returns_the_offset_it_wrote_at() {
    let mut w = Writer::default();
    assert_eq!(w.pc(), 0);
    assert_eq!(w.write_u8(7), 0);
    assert_eq!(w.pc(), 1);
    assert_eq!(w.write_u16(0x0102), 1);
    assert_eq!(w.pc(), 3);
    assert_eq!(w.write_u32(0x03040506), 3);
    assert_eq!(w.pc(), 7);
    w.write_opcode(register::Opcode::Halt);
    assert_eq!(w.pc(), 8);
    assert_eq!(w.finish(), vec![7, 2, 1, 6, 5, 4, 3, 6]);
}

#[test]
fn writer_starts_empty() {
    let w = Writer::default();
    assert_eq!(w.pc(), 0);
    assert_eq!(w.finish(), Vec::<u8>::new());
}

#[test]
fn reserved_hole_reads_zero_until_patched() {
    let mut w = Writer::default();
    w.write_u8(9);
    let hole = w.reserve_jump_target();
    assert_eq!(hole, 1);
    w.write_u8(8);
    assert_eq!(w.bytecode, vec![9, 0, 0, 8]);
    w.patch_u16(hole, 0xbeef);
    assert_eq!(w.bytecode, vec![9, 0xef, 0xbe, 8]);
    assert_eq!(w.pc(), 4);
    let bytes = w.finish();
    assert_eq!(u16_from_le(bytes[hole], bytes[hole + 1]), 0xbeef);
}

#[test]
fn patch_changes_only_the_hole() {
    let mut w = Writer::default();
    let first = w.reserve_jump_target();
    w.write_u32(0x11223344);
    let second = w.reserve_jump_target();
    w.write_u8(0x55);
    w.patch_u16(second, 0x0a0b);
    assert_eq!(w.bytecode, vec![0, 0, 0x44, 0x33, 0x22, 0x11, 0x0b, 0x0a, 0x55]);
    w.patch_u16(first, 0x0c0d);
    assert_eq!(w.finish(), vec![0x0d, 0x0c, 0x44, 0x33, 0x22, 0x11, 0x0b, 0x0a, 0x55]);
}

#[test]
fn opcode_tags_follow_declaration_order() {
    assert_eq!(register::Opcode::Int.tag(), 0);
    assert_eq!(register::Opcode::LessEq.tag(), 1);
    assert_eq!(register::Opcode::Add.tag(), 2);
    assert_eq!(register::Opcode::Multiply.tag(), 3);
    assert_eq!(register::Opcode::JumpIfNot.tag(), 4);
    assert_eq!(register::Opcode::Jump.tag(), 5);
    assert_eq!(register::Opcode::Halt.tag(), 6);

    assert_eq!(stack::Opcode::Int.tag(), 0);
    assert_eq!(stack::Opcode::Let.tag(), 1);
    assert_eq!(stack::Opcode::Var.tag(), 2);
    assert_eq!(stack::Opcode::LessEq.tag(), 3);
    assert_eq!(stack::Opcode::Add.tag(), 4);
    assert_eq!(stack::Opcode::Multiply.tag(), 5);
    assert_eq!(stack::Opcode::JumpIfNot.tag(), 6);
    assert_eq!(stack::Opcode::Jump.tag(), 7);
    assert_eq!(stack::Opcode::Halt.tag(), 8);

    assert_eq!(compact_treewalk::Opcode::Int.tag(), 0);
    assert_eq!(compact_treewalk::Opcode::Var.tag(), 1);
    assert_eq!(compact_treewalk::Opcode::Let.tag(), 2);
    assert_eq!(compact_treewalk::Opcode::LessEq.tag(), 3);
    assert_eq!(compact_treewalk::Opcode::Add.tag(), 4);
    assert_eq!(compact_treewalk::Opcode::Multiply.tag(), 5);
    assert_eq!(compact_treewalk::Opcode::JumpIfNot.tag(), 6);
    assert_eq!(compact_treewalk::Opcode::Jump.tag(), 7);
    assert_eq!(compact_treewalk::Opcode::Halt.tag(), 8);
}

#[test]
fn tag_and_opcode_determine_each_other() {
    for tag in 0u8..=6 {
        assert_eq!(register::Opcode::from_tag(tag).map(|o| o.tag()), Some(tag));
    }
    for tag in 0u8..=8 {
        assert_eq!(stack::Opcode::from_tag(tag).map(|o| o.tag()), Some(tag));
        assert_eq!(compact_treewalk::Opcode::from_tag(tag).map(|o| o.tag()), Some(tag));
    }
}

#[test]
fn a_byte_that_is_no_tag_decodes_to_nothing() {
    for tag in 7u8..=255 {
        assert_eq!(register::Opcode::from_tag(tag), None);
    }
    for tag in 9u8..=255 {
        assert_eq!(stack::Opcode::from_tag(tag), None);
        assert_eq!(compact_treewalk::Opcode::from_tag(tag), None);
    }
}

#[test]
fn register_program_bytes() {
    let expected: Vec<u8> = vec![
        0, 1, 1, 0, 0, 0, //
        0, 2, 1, 0, 0, 0, //
        1, 1, 0, 3, //
        4, 37, 0, 3, //
        3, 2, 1, 2, //
        0, 3, 1, 0, 0, 0, //
        2, 1, 3, 1, //
        5, 12, 0, //
        6,
    ];
    assert_eq!(register::code(), expected);
}

#[test]
fn stack_program_bytes() {
    let expected: Vec<u8> = vec![
        0, 1, 0, 0, 0, //
        0, 1, 0, 0, 0, //
        2, 1, //
        2, 0, //
        3, //
        6, 38, 0, //
        2, 2, //
        2, 1, //
        5, //
        1, 2, //
        2, 1, //
        0, 1, 0, 0, 0, //
        4, //
        1, 1, //
        7, 10, 0, //
        2, 2, //
        8,
    ];
    assert_eq!(stack::code(), expected);
}

#[test]
fn compact_program_bytes() {
    let expected: Vec<u8> = vec![
        2, 1, 0, 1, 0, 0, 0, //
        2, 2, 0, 1, 0, 0, 0, //
        6, 42, 0, 3, 1, 1, 1, 0, //
        2, 2, 5, 1, 2, 1, 1, //
        2, 1, 4, 1, 1, 0, 1, 0, 0, 0, //
        7, 14, 0, //
        8,
    ];
    assert_eq!(compact_treewalk::code(), expected);
}

#[test]
fn register_jumps_land_on_tags() {
    let code = register::code();
    let end = register::LOOP_END as usize;
    let start = register::LOOP_START as usize;
    assert_eq!(code[16], register::Opcode::JumpIfNot.tag());
    assert_eq!(u16_from_le(code[17], code[18]) as usize, end);
    assert_eq!(code[end], register::Opcode::Halt.tag());
    assert_eq!(code[34], register::Opcode::Jump.tag());
    assert_eq!(u16_from_le(code[35], code[36]) as usize, start);
    assert_eq!(code[start], register::Opcode::LessEq.tag());
    assert_eq!(end, code.len() - 1);
}

#[test]
fn stack_jumps_land_on_tags() {
    let code = stack::code();
    let end = stack::LOOP_END as usize;
    let start = stack::LOOP_START as usize;
    assert_eq!(code[15], stack::Opcode::JumpIfNot.tag());
    assert_eq!(u16_from_le(code[16], code[17]) as usize, end);
    assert_eq!(code[end], stack::Opcode::Var.tag());
    assert_eq!(code[end + 1], stack::VAR_X);
    assert_eq!(code[end + 2], stack::Opcode::Halt.tag());
    assert_eq!(code[35], stack::Opcode::Jump.tag());
    assert_eq!(u16_from_le(code[36], code[37]) as usize, start);
    assert_eq!(code[start], stack::Opcode::Var.tag());
    assert_eq!(code[start + 1], stack::VAR_I);
}

#[test]
fn compact_jumps_land_on_tags() {
    let code = compact_treewalk::code();
    let end = compact_treewalk::LOOP_END as usize;
    let start = compact_treewalk::LOOP_START as usize;
    assert_eq!(code[start], compact_treewalk::Opcode::JumpIfNot.tag());
    assert_eq!(u16_from_le(code[15], code[16]) as usize, end);
    assert_eq!(code[end], compact_treewalk::Opcode::Halt.tag());
    assert_eq!(code[39], compact_treewalk::Opcode::Jump.tag());
    assert_eq!(u16_from_le(code[40], code[41]) as usize, start);
    assert_eq!(end, code.len() - 1);
}
