//! A small command-line application framework: commands, flags, argument
//! dispatch and help text, with their behaviour stated and proved.

pub mod text;
pub mod flag;
pub mod command;
pub mod help;
pub mod data;
pub mod context;
pub mod laws;
pub mod dispatch_laws;
pub mod help_laws;

pub use crate::command::{Command, Dispatch};
pub use crate::context::Context;
pub use crate::data::Data;
pub use crate::flag::{Flag, FlagType};
