//! Lamp: a small register machine and the assembler that writes its
//! programs.
//!
//! Source text goes through the [`lexer`] to tokenized instructions and
//! through the [`compiler`] to a program [`image`], which the machine in
//! [`vm`] runs; [`op`] holds the instruction table that both sides share,
//! and [`debug`] the commands of the debug shell.
pub mod compiler;
pub mod debug;
pub mod image;
pub mod lexer;
pub mod op;
pub mod text;
pub mod vm;
