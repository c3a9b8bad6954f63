pub mod activator;
pub mod layer;
pub mod make_new_nodes;
pub mod neural_network;
pub mod nnet_errors;
