//! The agentic flow chart: nodes joined by edges, a flow path that a pulse
//! travels, and the schedule by which nodes and edges are revealed.
pub mod edge;
pub mod layout;
pub mod model;
pub mod node;
pub mod renderer;
pub mod routing;
pub mod schedule;
pub mod types;
