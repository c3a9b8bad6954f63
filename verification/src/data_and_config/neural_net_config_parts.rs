//! The configuration of a network: one `LayerSettings` per layer.
//!
//! Hyperparameters and weights are fixed-point numbers in units of
//! `1 / fixed_point::ONE`; an accuracy is a percentage in the same units.

use vstd::prelude::*;

verus! {

/// The bounds between which a layer's weights are drawn.
#[derive(Clone, Copy, Debug, PartialEq, Eq, Structural)]
pub struct WeightRange {
    pub low: i64,
    pub high: i64,
}

/// The configuration of one layer. `layer_weights` holds one row per unit and
/// one column per input; `None` asks for random weights when a network is built.
#[derive(Debug)]
pub struct LayerSettings {
    pub activation_function: String,
    pub weight_range: WeightRange,
    pub layer_weights: Option<Vec<Vec<i64>>>,
    pub output_units: usize,
    pub bias: i64,
    pub learning_rate: i64,
    pub momentum: i64,
}

/// The mathematical value of a `LayerSettings`.
pub struct LayerSettingsView {
    pub activation_function: Seq<char>,
    pub weight_range: WeightRange,
    pub layer_weights: Option<Seq<Seq<i64>>>,
    pub output_units: usize,
    pub bias: i64,
    pub learning_rate: i64,
    pub momentum: i64,
}

/// The rows of a matrix as sequences.
pub open spec fn matrix_view<T>(rows: Vec<Vec<T>>) -> Seq<Seq<T>> {
    Seq::new(rows@.len(), |k: int| rows@[k]@)
}

impl View for LayerSettings {
    type V = LayerSettingsView;

    open spec fn view(&self) -> LayerSettingsView {
        LayerSettingsView {
            activation_function: self.activation_function@,
            weight_range: self.weight_range,
            layer_weights: match self.layer_weights {
                Some(rows) => Some(matrix_view(rows)),
                None => None,
            },
            output_units: self.output_units,
            bias: self.bias,
            learning_rate: self.learning_rate,
            momentum: self.momentum,
        }
    }
}

/// A copy of a row of weights.
pub fn copy_row(row: &Vec<i64>) -> (copy: Vec<i64>)
    ensures
        copy@ == row@,
{
    let mut copy: Vec<i64> = Vec::new();
    let mut l: usize = 0;
    while l < row.len()
        invariant
            l <= row.len(),
            copy@ == row@.subrange(0, l as int),
        decreases row.len() - l,
    {
        copy.push(row[l]);
        l += 1;
    }
    copy
}

/// A copy of a weight matrix.
pub fn copy_matrix(rows: &Vec<Vec<i64>>) -> (copy: Vec<Vec<i64>>)
    ensures
        matrix_view(copy) == matrix_view(*rows),
{
    let mut copy: Vec<Vec<i64>> = Vec::new();
    let mut k: usize = 0;
    while k < rows.len()
        invariant
            k <= rows.len(),
            copy@.len() == k,
            forall|i: int| 0 <= i < k ==> (#[trigger] copy@[i])@ == rows@[i]@,
        decreases rows.len() - k,
    {
        copy.push(copy_row(&rows[k]));
        k += 1;
    }
    copy
}

impl Clone for LayerSettings {
    fn clone(&self) -> (copy: LayerSettings)
        ensures
            copy@ == self@,
    {
        let layer_weights = match &self.layer_weights {
            Some(rows) => Some(copy_matrix(rows)),
            None => None,
        };
        LayerSettings {
            activation_function: self.activation_function.clone(),
            weight_range: self.weight_range,
            layer_weights,
            output_units: self.output_units,
            bias: self.bias,
            learning_rate: self.learning_rate,
            momentum: self.momentum,
        }
    }
}

/// One candidate configuration: its layers in order, the size of its input, its
/// identifier and the accuracy it reached when last evaluated.
#[derive(Debug)]
pub struct NeuralNetSettings {
    pub query_id: usize,
    pub config_id: usize,
    pub accuracy: u64,
    pub input_size: usize,
    pub layers: Vec<LayerSettings>,
}

/// The mathematical value of a `NeuralNetSettings`.
pub struct NeuralNetSettingsView {
    pub query_id: usize,
    pub config_id: usize,
    pub accuracy: u64,
    pub input_size: usize,
    pub layers: Seq<LayerSettingsView>,
}

/// The layers of a configuration as mathematical values.
pub open spec fn layers_view(layers: Vec<LayerSettings>) -> Seq<LayerSettingsView> {
    Seq::new(layers@.len(), |j: int| layers@[j]@)
}

impl View for NeuralNetSettings {
    type V = NeuralNetSettingsView;

    open spec fn view(&self) -> NeuralNetSettingsView {
        NeuralNetSettingsView {
            query_id: self.query_id,
            config_id: self.config_id,
            accuracy: self.accuracy,
            input_size: self.input_size,
            layers: layers_view(self.layers),
        }
    }
}

impl Clone for NeuralNetSettings {
    fn clone(&self) -> (copy: NeuralNetSettings)
        ensures
            copy@ == self@,
    {
        let mut layers: Vec<LayerSettings> = Vec::new();
        let mut j: usize = 0;
        while j < self.layers.len()
            invariant
                j <= self.layers.len(),
                layers@.len() == j,
                forall|i: int| 0 <= i < j ==> (#[trigger] layers@[i])@ == self.layers@[i]@,
            decreases self.layers.len() - j,
        {
            layers.push(self.layers[j].clone());
            j += 1;
        }
        assert(layers_view(layers) =~= layers_view(self.layers));
        NeuralNetSettings {
            query_id: self.query_id,
            config_id: self.config_id,
            accuracy: self.accuracy,
            input_size: self.input_size,
            layers,
        }
    }
}

} // verus!
