//! Verified core of the SiScript language tooling: name resolution tables,
//! memory-safety rules, parser precedence, and the text/position arithmetic
//! used by the language server.
pub mod span;
pub mod def;
pub mod diagnostic;
pub mod resolver_error;
pub mod memory_error;
pub mod mutability;
pub mod text;
pub mod ty;
pub mod token;
pub mod precedence;
pub mod config;
pub mod parse_error;
pub mod signature_help;
pub mod utf;
pub mod rope;
pub mod document;
pub mod scope;
pub mod symbol_table;
pub mod semantic_tokens;
pub mod chars;
pub mod completion;
pub mod ast;
pub mod borrow;
pub mod copy_move;
pub mod memory_model;
pub mod memory_rules;
pub mod type_context;
pub mod memory_check;
pub mod analysis_model;
pub mod diagnostics;
pub mod mutability_finder;
pub mod completion_context;
pub mod symbol_info;
pub mod infer;
pub mod analysis_index;
pub mod symbol_index;
pub mod completion_items;
pub mod outline;
pub mod resolver;
pub mod navigation;
pub mod analysis;
pub mod rename;
pub mod parser;
mod expr_parser;
pub mod workspace;
