//! What the shell's own commands print or ask for.
pub mod cd;
pub mod echo;
pub mod notfound;
pub mod type_cmd;
