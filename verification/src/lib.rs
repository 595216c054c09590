//! A sample-playback synthesis core.
//!
//! The crate decides *what* sounds and *when*: it reads an instrument
//! description, selects the regions that answer a control event, and steps
//! every sounding voice through its sample and its amplitude envelope.  All
//! of this is integer arithmetic, and every function carries a contract that
//! is checked by machine.
//!
//! The arithmetic on the audio itself is left to a renderer.  After each
//! block the players say which voices the renderer is to play, from which
//! position, at which pitch step and along which envelope table.
//!
//! - [`text`] and [`decimal`]: numbers as they are written.
//! - [`errors`]: the errors of ranges.
//! - [`envelopes`]: the layout of the envelope and the states of a voice.
//! - [`sample`]: the polyphonic player of one sample.
//! - [`engine`]: control events.
//! - [`host`]: the pieces into which a host's block is cut.
//! - [`sfz`]: instrument descriptions, regions, and the engine.

pub mod text;
pub mod decimal;
pub mod errors;
pub mod envelopes;
pub mod sample;
pub mod engine;
pub mod host;
pub mod sfz;
