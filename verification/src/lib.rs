//! Network flow routing with the Muskingum-Cunge method: the decision logic of the
//! router (command line, configuration, network topology, input tables), verified.

pub mod args;
pub mod cli;
pub mod config;
pub mod kernel;
pub mod lstm;
pub mod network;
pub mod params;
pub mod simulation;
pub mod text;
