//! Energy-cost estimation for key-establishment schemes over randomly
//! generated networks of gateway and constrained devices.

pub mod generator;
pub mod methods;
pub mod network;
pub mod parameters;
mod random;

pub use generator::{initialize_network, ConfigurationError};
pub use network::{Node, NodeType, NodesVec};
pub use parameters::SchemeParameters;
