//! Data structures, parsers, state machines and rules of a code editor, with
//! contracts that are proved by Verus.

pub mod collections;
pub mod git_store;
pub mod lsp_ext_command;
pub mod numbers;
pub mod outline_panel;
pub mod path;
pub mod paths;
pub mod project_settings;
pub mod project_symbols;
pub mod remote;
pub mod repl_editor;
pub mod rope;
pub mod rpc;
pub mod search_history;
mod shared;
pub mod signature_help;
pub mod snippet;
pub mod snippet_laws;
pub mod snippet_provider;
pub mod sqlez;
pub mod sum_tree;
pub mod task;
pub mod terminals;
pub mod text;
pub mod text_laws;
pub mod text_map;
pub mod text_set;
