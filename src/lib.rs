//! The logic behind a derive for bot command enumerations: identifier casing,
//! the attribute model, resolution of per-command settings, and the parser
//! and descriptor tables that the derive emits.

pub mod attr;
pub mod command;
pub mod command_set;
pub mod describe;
pub mod doc;
pub mod parse;
pub mod parts;
pub mod text;

pub use command_set::{compile, CommandSet};
pub use parts::Parts;
