//! One small program, run eight ways.
//!
//! The program is an iterative factorial. It is built for each of seven
//! interpreters, which differ in two choices that an interpreter's author has
//! to make: how values are passed between instructions, and how the code for
//! an instruction is found.
//!
//! Values are passed in one of four ways:
//!
//! * [`treewalk`]: the program is a tree of owned nodes, walked recursively;
//! * [`compact_treewalk`]: the same tree, laid out in bytecode in prefix
//!   form;
//! * [`stack`]: flat bytecode whose instructions push to and pop from an
//!   operand stack;
//! * [`register`]: flat bytecode whose instructions name the slots they read
//!   and write.
//!
//! For each of the three bytecode formats there are two engines. The one in
//! the module ending in `_switch` branches on the decoded tag; the one in the
//! module ending in `_dtable` indexes a table of handlers with it. Both are
//! proved against the same transition function, which stands in the module
//! of the format. [`native`] is the plain loop that all of them are compared
//! with, and [`agreement`] states that they agree.
//!
//! Bytecode is assembled by [`writer`], which lays multi-byte operands down
//! as [`encoding`] describes. What it means to run a program to its end is
//! defined in [`halting`].

pub mod agreement;
pub mod compact_treewalk;
pub mod compact_treewalk_dtable;
pub mod compact_treewalk_switch;
pub mod encoding;
pub mod halting;
pub mod native;
pub mod register;
pub mod register_dtable;
pub mod register_switch;
pub mod stack;
pub mod stack_dtable;
pub mod stack_switch;
pub mod treewalk;
pub mod writer;
