//! A Brainfuck editor and step-by-step interpreter: the program text, its
//! formatting, bracket matching, the interpreter's state machine, and the
//! decisions of the editor front end.
pub mod brackets;
pub mod text;
pub mod code;
pub mod interpreter;
pub mod visual;
pub mod controller;
pub mod frontend;
pub mod semantics;
