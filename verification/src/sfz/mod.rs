//! Instruments in the SFZ text format: their description, the regions built
//! from it, and the engine that plays them.

pub mod engine;
pub mod parser;
