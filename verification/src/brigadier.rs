//! A command dispatcher in the manner of brigadier: a tree of literal and
//! argument nodes, a backtracking parser over it, and the execution of what
//! was parsed.

pub mod arguments;
pub mod command_dispatcher;
pub mod context;
pub mod errors;
pub mod parse_results;
pub mod paths;
pub mod redirect;
pub mod string_reader;
pub mod suggestion;
pub mod text;
pub mod tree;
pub mod usage;
