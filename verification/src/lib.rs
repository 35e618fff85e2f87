//! A minimal command-line interpreter core: a tokenizer with quoting and
//! variable expansion, token resolution against an explicit environment,
//! and the decision logic of builtin dispatch, search-path resolution and
//! exit-status translation.

pub mod lexer;
pub mod resolve;
pub mod search;
pub mod shell;
