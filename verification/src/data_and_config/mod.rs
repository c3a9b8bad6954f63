pub mod dataset;
pub mod neural_net_config_parts;
pub mod optimizer_parameters;
pub mod test_config;
