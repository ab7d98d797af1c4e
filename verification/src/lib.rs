//! Turns compact cyclic note patterns into time-stamped note events.
//!
//! A pattern is a set of parallel channels; each channel produces, once per
//! generation pass, symbolic values with exact fractional spans inside one
//! repeating unit interval.  The library resolves each value to a stack of
//! note events, applies inline property modifiers, and merges all channels
//! into composite events whose note stacks keep a stable per-channel width,
//! so that a channel's notes never drift between voice slots across passes.

pub mod accumulator;
pub mod cycle;
pub mod emitter;
pub mod fraction;
pub mod note;
pub mod parameter;
pub mod parser;
pub mod properties;
pub mod resolver;
pub mod text;
pub mod value;

pub use emitter::{new_cycle_emitter, new_cycle_emitter_with_seed, CycleEmitter};
pub use fraction::Fraction;
pub use note::{Event, EmitterEvent, InstrumentId, Note, NoteEvent};
pub use parameter::ParameterType;
pub use value::{CycleEvent, CycleTarget, CycleValue};
