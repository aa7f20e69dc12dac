//! Text generation on the checked engine: the mode switch, chat prompt
//! rendering, and the decisions of the generation loop.

pub mod mode;
pub mod generate;
pub mod chat;
