//! Star OS core: the integer and combinatorial logic of a multi-model
//! inference bus, verified with Verus.
//!
//! - `models`: model identifiers, model configurations, the routing rule of the
//!   mixture-of-experts router and the graph used for causal/semantic reasoning.
//! - `utils`: the model scheduler (memory accounting, loading and unloading),
//!   the combinatorial steps of the PC causal-discovery algorithm and the
//!   ethics dimensions.
//! - `bus`: the routing tables of the message bus.
pub mod models;
pub mod utils;
pub mod bus;
