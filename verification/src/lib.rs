//! Tokenizer, token-level machinery and parts of the parser of a CSS language server.
pub mod text;
pub mod scan_spec;
pub mod css_scanner;
pub mod css_nodes;
pub mod css_node_types;
pub mod css_symbol_scope;
pub mod css_parser;
pub mod css_parts;
pub mod config;
pub mod syntax_kind;
pub mod token_set;
pub mod input;
pub mod lex_to_syn;
pub mod shortcut;
pub mod ext;
pub mod entry;
pub mod fuzz;
pub mod astgen;
pub mod logging;
pub mod css_grammar;
pub mod reparsing;
pub mod css_language_types;
pub mod data_manager;
