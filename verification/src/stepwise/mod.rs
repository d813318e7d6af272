//! Stepwise storytelling: scripts of steps and transitions, the order in
//! which they are built, and the phases of each step along the journey.
pub mod model;
pub mod order;
pub mod script;
pub mod timeline;
pub mod signal;
