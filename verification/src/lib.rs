//! Core logic of a session-backend fleet orchestrator: a controller that
//! schedules single-tenant backends onto drones, a drone-side executor with a
//! durable state store, a token-routing proxy data plane, and the fencing-key
//! machinery that keeps at most one live backend per named key.


pub mod agent;
pub mod api;
pub mod backend_state;
pub mod cert;
pub mod connection_monitor;
pub mod container;
pub mod controller;
pub mod executor;
pub mod keys;
pub mod metrics;
pub mod protocol;
pub mod rng;
pub mod route_map;
pub mod routing;
pub mod socket;
pub mod state_store;
pub mod status_stream;
pub mod table;
pub mod time;
pub mod types;
