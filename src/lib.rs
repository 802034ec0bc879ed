//! Polyphony, scheduling and stage logic of a modal percussion synthesizer.

pub mod envelope;
pub mod params;
pub mod physics;
pub mod pool_laws;
pub mod scheduler;
pub mod voice_manager;
