pub use crate::classifier_parts::breeder::Breeder;
pub use crate::classifier_parts::nnet_trainer::NNetTrainer;
pub use crate::data_and_config::dataset::TableInfo;
pub use crate::data_and_config::neural_net_config_parts::NeuralNetSettings;
pub use crate::data_and_config::test_config::{Test, TestConfig};
pub use crate::neural_network_parts::neural_network::NeuralNetwork;
