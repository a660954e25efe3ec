//! The routing engine of an interconnection-network simulator: for every
//! packet, at every router it visits, a strategy decides the admissible next
//! hops (output port and virtual channel) toward the destination, while
//! preserving the liveness contract the strategy promises.  Strategies
//! compose: decorators wrap one inner routing, combinators blend several,
//! and one strategy precomputes a deadlock-free total order over the links
//! of a complete graph.

pub mod config;
pub mod errors;
pub mod model;
pub mod rng;
pub mod topology;
pub mod routing;
pub mod stubborn;
pub mod adaptive;
pub mod sum;
pub mod general_pattern;
pub mod cglabel;
pub mod source_adaptive;
pub mod subtopology;
pub mod region;
pub mod neighbours;
pub mod tree;
pub mod simple_pattern;
pub mod collectives;
pub mod resource_selection;
pub mod pattern_builders;
