//! A compiler front end for the MinING teaching language: a lexer, a parser,
//! a symbol table, semantic analysis, quadruplet generation and C code
//! emission, each stated and proved against a contract.

pub mod error;
pub mod text;
pub mod token;
pub mod lexer;
pub mod ast;
pub mod syntax;
pub mod productions;
pub mod parser;
pub mod symbol_table;
pub mod basic_symbols;
pub mod table_format;
pub mod type_checker;
pub mod semantics;
pub mod semantic_rules;
pub mod semantic_analyzer;
pub mod quadruplets;
pub mod code_generator;
