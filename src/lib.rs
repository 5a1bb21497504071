pub mod automaton;
pub mod laws;
pub mod lemmas;
pub mod model;
pub mod types;

pub use automaton::parse;
pub use types::{Arg, ParseError, ParseHint, ParseState};
