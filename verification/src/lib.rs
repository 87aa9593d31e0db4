//! The `.six` toolchain: lexer, parser, bytecode compiler, symbol
//! obfuscation, binary framing, the bytecode virtual machine, and the
//! checks of the package installer.

pub mod text;
pub mod lexer;
pub mod ast;
pub mod parser;
pub mod compiler;
pub mod obfuscate;
pub mod interface;
pub mod num;
pub mod vm;
pub mod binary;
pub mod package;
pub mod report;
pub mod parse_end;
