//! The request handed to the optimiser.

use vstd::prelude::*;
use crate::data_and_config::neural_net_config_parts::NeuralNetSettings;

verus! {

/// What a caller asks of the optimiser, and where it puts its answer
/// (`tuned_settings`). `min_acceptable_accuracy` is a fixed-point percentage.
#[derive(Debug)]
pub struct OptimizerParameters {
    pub temperature_drops: usize,
    pub heritability_bias_drops: usize,
    pub current_candidate_configuration: NeuralNetSettings,
    pub test_train_cutoff_idx: usize,
    pub train_rounds_per_epoch: usize,
    pub max_train_epochs: usize,
    pub max_config_changing_epochs: usize,
    pub final_number_of_nnet_settings: usize,
    pub winners_per_round: usize,
    pub tuned_settings: Vec<NeuralNetSettings>,
    pub min_acceptable_accuracy: u64,
    pub cpus_to_use: usize,
}

} // verus!
