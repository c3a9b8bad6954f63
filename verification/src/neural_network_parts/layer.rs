//! A layer of a network: a range of units in the network's flat array, and
//! the hyperparameters in force for them.

use vstd::prelude::*;
use crate::data_and_config::neural_net_config_parts::LayerSettings;
use crate::neural_network_parts::nnet_errors::NNetError;

verus! {

/// The units `nodes_start_index .. nodes_stop_index` of the network's array,
/// which read from the units `prev_layer_first_node_idx .. nodes_start_index`
/// where the layer is not the first.
#[derive(Clone, Copy, Debug, PartialEq, Eq, Structural)]
pub struct Layer {
    pub learning_rate: i64,
    pub activation_function_code: usize,
    pub momentum: i64,
    pub bias: i64,
    pub high: i64,
    pub low: i64,
    pub prev_layer_first_node_idx: usize,
    pub nodes_start_index: usize,
    pub nodes_stop_index: usize,
}

/// Whether `best` is the place of the first greatest value of `outputs`, and
/// that value is above zero.
pub open spec fn is_prediction(outputs: Seq<i64>, best: int) -> bool {
    &&& 0 <= best < outputs.len()
    &&& outputs[best] > 0
    &&& forall|i: int| 0 <= i < outputs.len() ==> outputs[i] <= outputs[best]
    &&& forall|i: int| 0 <= i < best ==> outputs[i] < outputs[best]
}

/// Only one place can be the prediction.
pub proof fn lemma_prediction_is_unique(outputs: Seq<i64>, first: int, second: int)
    requires
        is_prediction(outputs, first),
        is_prediction(outputs, second),
    ensures
        first == second,
{
}

impl Layer {
    /// The layer described by `settings`, whose units start at `start` and
    /// read from the `input_size` units before them.
    pub fn new(settings: &LayerSettings, input_size: usize, fn_code: usize, start: usize) -> (layer: Layer)
        requires
            input_size <= start,
            start + settings.output_units <= usize::MAX,
        ensures
            layer == (Layer {
                learning_rate: settings.learning_rate,
                activation_function_code: fn_code,
                momentum: settings.momentum,
                bias: settings.bias,
                high: settings.weight_range.high,
                low: settings.weight_range.low,
                prev_layer_first_node_idx: (start - input_size) as usize,
                nodes_start_index: start,
                nodes_stop_index: (start + settings.output_units) as usize,
            }),
    {
        Layer {
            learning_rate: settings.learning_rate,
            activation_function_code: fn_code,
            momentum: settings.momentum,
            bias: settings.bias,
            high: settings.weight_range.high,
            low: settings.weight_range.low,
            prev_layer_first_node_idx: start - input_size,
            nodes_start_index: start,
            nodes_stop_index: start + settings.output_units,
        }
    }

    /// How many units the layer has.
    pub open spec fn size(self) -> int {
        self.nodes_stop_index - self.nodes_start_index
    }

    /// The class that the outputs of this layer's units speak for: the index
    /// within the layer of the first greatest output. Fails where no output is
    /// above zero. `outputs` holds one number per unit of the layer, in order:
    /// the outputs themselves as fixed-point numbers, or any integers that
    /// compare with each other and with zero as the outputs do.
    pub fn get_prediction(&self, outputs: &Vec<i64>) -> (outcome: Result<usize, NNetError>)
        ensures
            match outcome {
                Ok(best) => is_prediction(outputs@, best as int),
                Err(fault) => fault == NNetError::FailedPrediction && forall|i: int|
                    0 <= i < outputs.len() ==> outputs@[i] <= 0,
            },
    {
        let mut found: Option<usize> = None;
        let mut max_val: i64 = 0;
        let mut i: usize = 0;
        while i < outputs.len()
            invariant
                i <= outputs.len(),
                forall|k: int| 0 <= k < i ==> outputs@[k] <= max_val,
                match found {
                    Some(best) => best < i && max_val == outputs@[best as int] && max_val > 0 && forall|k: int|
                        0 <= k < best ==> outputs@[k] < max_val,
                    None => max_val == 0,
                },
            decreases outputs.len() - i,
        {
            let current = outputs[i];
            if current > max_val {
                max_val = current;
                found = Some(i);
            }
            i += 1;
        }
        match found {
            Some(best) => Ok(best),
            None => Err(NNetError::FailedPrediction),
        }
    }

    /// Takes learning rate, momentum, bias, weight limits and activation code
    /// from `default_settings`; the range of units stays.
    pub fn update_state(&mut self, default_settings: &LayerSettings, fn_code: usize)
        ensures
            *final(self) == (Layer {
                learning_rate: default_settings.learning_rate,
                activation_function_code: fn_code,
                momentum: default_settings.momentum,
                bias: default_settings.bias,
                high: default_settings.weight_range.high,
                low: default_settings.weight_range.low,
                ..*old(self)
            }),
    {
        self.learning_rate = default_settings.learning_rate;
        self.activation_function_code = fn_code;
        self.momentum = default_settings.momentum;
        self.bias = default_settings.bias;
        self.high = default_settings.weight_range.high;
        self.low = default_settings.weight_range.low;
    }
}

} // verus!
