//! The failures of the engine, the registry, the breeding operators and the
//! pools, and the message of each.

use vstd::prelude::*;
use crate::classifier_parts::classifier_errors::{ga_missing_weights_error, sa_missing_weights_error};
use crate::classifier_parts::optimize_nnet::{no_recycled_settings, no_recycled_trainer};

verus! {

/// Why an operation on a configuration, a network or a pool failed.
#[derive(Clone, Copy, Debug, PartialEq, Eq, Structural)]
pub enum NNetError {
    /// No activation function has the given name.
    FnNameNotFound,
    /// The code does not address an activation function.
    FnCodeOutOfBounds,
    /// An annealing operator on weights met a layer without a weight matrix.
    SaMissingWeights,
    /// A crossover operator on weights met a layer without a weight matrix.
    GaMissingWeights,
    /// A state update met a layer without a weight matrix.
    UpdateMissingWeights,
    /// Two configurations, or a configuration and a network, differ in their
    /// number of layers.
    LayerCountMismatch,
    /// A weight matrix has another number of rows than expected.
    WeightsInputLenMismatch,
    /// A row of a weight matrix has another length than expected.
    WeightsNodeCountMismatch,
    /// No unit of the final layer produced a positive output.
    FailedPrediction,
    /// A configuration was asked of an empty pool.
    NoRecycledSettings,
    /// A trainer was asked of an empty pool.
    NoRecycledTrainer,
}

/// The first of two faults.
pub open spec fn or_else(first: Option<NNetError>, second: Option<NNetError>) -> Option<NNetError> {
    if first is Some {
        first
    } else {
        second
    }
}

/// The message for a weight matrix with the wrong number of rows.
pub fn weights_input_len_mismatch() -> (message: String)
    ensures
        message@ == "Length of weight vector for for hidden unit does not match length of inputs for layer!"@,
{
    "Length of weight vector for for hidden unit does not match length of inputs for layer!".to_string()
}

/// The message for a row of weights of the wrong length.
pub fn weights_node_count_mismatch() -> (message: String)
    ensures
        message@ == "Number of weight vectors does not match number of hidden units in layer!"@,
{
    "Number of weight vectors does not match number of hidden units in layer!".to_string()
}

/// The message for a prediction that found no positive output.
pub fn failed_prediction() -> (message: String)
    ensures
        message@ == "Neural network failed to find correct prediction!"@,
{
    "Neural network failed to find correct prediction!".to_string()
}

/// The message for an activation code outside the registry.
pub fn set_act_fn_code_out_of_bounds() -> (message: String)
    ensures
        message@ == "\n\nActivator panicked!\n\nAttempt to set activation function code outside listing of activation functions."@,
{
    "\n\nActivator panicked!\n\nAttempt to set activation function code outside listing of activation functions.".to_string()
}

/// The message for an activation name that the registry does not hold.
pub fn fn_name_not_found() -> (message: String)
    ensures
        message@ == "\n\nActivator panicked!\n\nActivation function not found in list of functions."@,
{
    "\n\nActivator panicked!\n\nActivation function not found in list of functions.".to_string()
}

/// The message for a state update that found no weight matrix.
pub fn update_missing_weights() -> (message: String)
    ensures
        message@ == "attempting to update state, found no weight vectors"@,
{
    "attempting to update state, found no weight vectors".to_string()
}

/// The message for a state update with the wrong number of layers.
pub fn layer_count_mismatch() -> (message: String)
    ensures
        message@ == "Updating settings does not match number of layers"@,
{
    "Updating settings does not match number of layers".to_string()
}

/// The text that `error.message()` returns.
pub open spec fn message_of(error: NNetError) -> Seq<char> {
    match error {
        NNetError::FnNameNotFound => "\n\nActivator panicked!\n\nActivation function not found in list of functions."@,
        NNetError::FnCodeOutOfBounds => "\n\nActivator panicked!\n\nAttempt to set activation function code outside listing of activation functions."@,
        NNetError::SaMissingWeights => "Breeder failed: a layer has no weights to anneal."@,
        NNetError::GaMissingWeights => "Breeder failed: a layer has no weights to cross over."@,
        NNetError::UpdateMissingWeights => "attempting to update state, found no weight vectors"@,
        NNetError::LayerCountMismatch => "Updating settings does not match number of layers"@,
        NNetError::WeightsInputLenMismatch => "Length of weight vector for for hidden unit does not match length of inputs for layer!"@,
        NNetError::WeightsNodeCountMismatch => "Number of weight vectors does not match number of hidden units in layer!"@,
        NNetError::FailedPrediction => "Neural network failed to find correct prediction!"@,
        NNetError::NoRecycledSettings => "Optimize_nnet_settings failed in function get_child_settings"@,
        NNetError::NoRecycledTrainer => "No recycled trainer found"@,
    }
}

impl NNetError {
    /// The message that describes this failure.
    pub fn message(&self) -> (message: String)
        ensures
            message@ == message_of(*self),
    {
        match self {
            NNetError::FnNameNotFound => fn_name_not_found(),
            NNetError::FnCodeOutOfBounds => set_act_fn_code_out_of_bounds(),
            NNetError::SaMissingWeights => sa_missing_weights_error(),
            NNetError::GaMissingWeights => ga_missing_weights_error(),
            NNetError::UpdateMissingWeights => update_missing_weights(),
            NNetError::LayerCountMismatch => layer_count_mismatch(),
            NNetError::WeightsInputLenMismatch => weights_input_len_mismatch(),
            NNetError::WeightsNodeCountMismatch => weights_node_count_mismatch(),
            NNetError::FailedPrediction => failed_prediction(),
            NNetError::NoRecycledSettings => no_recycled_settings(),
            NNetError::NoRecycledTrainer => no_recycled_trainer(),
        }
    }
}

} // verus!
