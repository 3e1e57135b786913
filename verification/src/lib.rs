//! Decision logic of a home-lab bridge: device discovery, target monitoring,
//! remote start and stop, an HTTP relay and bearer-token authentication.
//!
//! Every decision is a function from plain values to plain values with a
//! contract; sockets, clocks and processes belong to the program around it.

pub mod app_config;
pub mod assoc_map;
pub mod auth;
pub mod http_outcome;
pub mod ip;
pub mod network_scanner;
pub mod outside;
pub mod relay;
pub mod relay_probe;
pub mod reply;
pub mod server;
pub mod shelly;
pub mod target_monitor;
pub mod target_probeable;
pub mod target_startable;
pub mod target_starter;
pub mod target_status;
pub mod target_stoppable;
pub mod target_stopper;
pub mod text;
pub mod wol;
