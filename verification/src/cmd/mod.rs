pub mod built_in_cmds;
pub mod utils;
pub mod run;
