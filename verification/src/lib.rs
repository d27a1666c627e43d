//! Translates a single `CREATE TABLE` statement of a small SQL dialect into a
//! TypeScript type declaration.
//!
//! The pipeline is: source bytes -> lexical scanner ([`lexer`]) -> token
//! sequence -> parser ([`parser`]) -> abstract syntax tree ([`ast`]) ->
//! visitor dispatch and TypeScript code generator ([`code_gen_ts`]).
//!
//! Every stage carries a contract against a mathematical model of the same
//! stage, so parsing and rendering are pinned down byte for byte.

pub mod ast;
pub mod code_gen_ts;
pub mod laws;
pub mod lexer;
pub mod parser;
