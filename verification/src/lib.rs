//! Prometheus-style `increase` over fixed evaluation windows.
//!
//! A counter is read as a stream of time-ordered samples. For every window of
//! a schedule the engine keeps one accumulator that adds up the growth of the
//! counter, treats each decrease as a restart from zero, and at the end
//! scales the observed growth to the nominal width of the window.
//!
//! Counter readings are whole numbers (`u64`), and a finished window is an
//! exact fraction, so every contract is stated over integers.

pub mod accumulator;
pub mod aggregate;
pub mod error;
pub mod increase;
pub mod laws;
pub mod sample;
pub mod schedule;
pub mod transition;

pub use accumulator::{growth, Accumulator, AccumulatorModel};
pub use aggregate::{
    prom_increase_transition, starting_state, transition_admits, transition_admitted,
};
pub use error::IncreaseError;
pub use increase::{Increase, IncreaseModel};
pub use sample::Sample;
pub use schedule::{ScheduleModel, Window, WindowSchedule};
pub use transition::{increase_views, TransitionModel, TransitionState};
