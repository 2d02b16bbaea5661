//! A small Unix shell: the parsing of command lines and the decisions of running them.
pub mod built_in_cmds;
pub mod cmd;
pub mod parser;
pub mod parser2;
pub mod redirect;
pub mod structs;
pub mod text;
pub mod token_laws;
pub mod utils;
