//! Evolutionary tuning of feed-forward neural network configurations.
//!
//! The crate holds the index sampler, the activation registry, the layout of a
//! network over its flat unit array, the breeding operators with their decaying
//! schedules, and the run of the optimiser with its pools of candidates.
//!
//! Every quantity that is a fraction (hyperparameters, weights, temperatures,
//! accuracies) is a fixed-point integer, see [`fixed_point`]: what the
//! operators and the selection compute is exact, and the same on every
//! machine. The arithmetic of training itself, which needs exponentials, is
//! left to the caller, who trains and tests the candidates of each round and
//! reports their accuracies.

pub mod fixed_point;
pub mod neural_network_parts;
pub mod data_and_config;
pub mod classifier_parts;
pub mod prelude;

pub use classifier_parts::breeder::Breeder;
pub use classifier_parts::nnet_trainer::NNetTrainer;
pub use data_and_config::dataset::TableInfo;
pub use data_and_config::neural_net_config_parts::NeuralNetSettings;
pub use data_and_config::test_config::{Test, TestConfig};
pub use neural_network_parts::neural_network::NeuralNetwork;
