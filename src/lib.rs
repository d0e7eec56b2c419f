//! A back end for the Hack platform: a translator from stack-machine code
//! to Hack assembly, and an assembler from Hack assembly to machine words.
pub mod assembler;
pub mod assembler_laws;
pub mod commands;
pub mod generate_asm;
pub mod text;
pub mod tokenizer;
pub mod translator_laws;
