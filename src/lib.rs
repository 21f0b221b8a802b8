//! A scripted "fake typing" editor: a script is parsed into directives,
//! compiled into editor instructions, and replayed against a document whose
//! positions are addressed in display columns.

pub mod compile;
pub mod document;
pub mod editor;
pub mod geometry;
pub mod instructions;
pub mod markers;
pub mod parser;
pub mod script;
pub mod text;
pub mod timer;
pub mod width;

pub use compile::compile;
pub use geometry::{Pos, Size};
pub use instructions::Instruction;
pub use parser::parse;
pub use script::Variable;
