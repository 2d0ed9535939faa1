//! A verified skeleton for small dense feed-forward networks.
//!
//! The crate keeps the parts of a training engine that are about structure:
//! the shapes of layers and how they chain, the order in which samples are
//! grouped into minibatches, the bookkeeping of a stateful optimizer, and the
//! discrete side of turning logits into predictions. Every container is
//! generic over its scalar type, so the numeric kernels can be supplied by the
//! caller for whatever number type they train with.
//!
//! Where a decision rests on comparing numbers, the functions take keys in
//! their place: integers that are ordered the way the numbers are.
//! [`functions::sign_magnitude_key`] makes such a key from the bits of a
//! double.

pub mod activators;
pub mod functions;
pub mod layers;
pub mod minibatch;
pub mod network;
pub mod network_builder;
pub mod objectives;
pub mod optimizers;
pub mod shapes;

pub use network_builder::NetworkBuilder;
pub use network_builder::NetworkBuilderWithInput;
pub use network_builder::NetworkBuilderWithObjective;
pub use network_builder::NetworkBuilderWithOptimizer;
pub use network_builder::NetworkBuilderWithOutput;
