//! Front end of a small assembler and VM translator: a symbol table of
//! named addresses and a pull-based parser of VM command lines.
pub mod command_type;
pub mod error;
pub mod parser;
pub mod symbol_table;
pub mod text;
