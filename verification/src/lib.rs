//! Discrete core of the Murali animation toolkit: story scripts and their
//! build timeline, flow-chart reveal schedules and routing decisions,
//! network topology, table grids, path subdivision and surface
//! triangulation, lattice hashes, and the bookkeeping of path animations,
//! each with its contract.

pub mod animation;
pub mod flow_chart;
pub mod matrix;
pub mod network;
pub mod noise;
pub mod path;
pub mod stepwise;
pub mod style;
pub mod surface;
pub mod table;
