//! A minimal scaffold for a chess engine speaking the UCI (Universal Chess
//! Interface) text protocol: engine lifecycle state, a command processor that
//! maps one line of protocol text to a response, a structural FEN
//! (Forsyth-Edwards Notation) validator, and the decision logic of the
//! line-reading loop. Search and evaluation are out of scope; the analysis
//! response is a fixed placeholder line.

pub mod engine;
pub mod fen;
pub mod protocol;
pub mod text;

pub use engine::Engine;
pub use engine::EngineError;
