//! The structure of a network: its layers as consecutive ranges of one flat
//! array of units, and for each unit the weights it was configured with.

use vstd::prelude::*;
use crate::data_and_config::neural_net_config_parts::{
    matrix_view, LayerSettingsView, NeuralNetSettings, NeuralNetSettingsView,
};
use crate::neural_network_parts::activator::{code_of, lemma_position_in_range, fn_names, Activator, FN_COUNT};
use crate::neural_network_parts::layer::{is_prediction, Layer};
use crate::neural_network_parts::make_new_nodes::{
    find_rows_fault, make_new_nodes, node_fault, rows_fault, within,
};
use crate::neural_network_parts::nnet_errors::{or_else, NNetError};

verus! {

/// A network as it was configured.
pub struct NeuralNetwork {
    activator: Activator,
    query_id: usize,
    config_id: usize,
    input_size: usize,
    layers: Vec<Layer>,
    nodes: Vec<Vec<i64>>,
}

/// The mathematical value of a `NeuralNetwork`.
pub struct NeuralNetworkView {
    pub query_id: usize,
    pub config_id: usize,
    pub input_size: usize,
    pub layers: Seq<Layer>,
    pub nodes: Seq<Seq<i64>>,
}

impl View for NeuralNetwork {
    type V = NeuralNetworkView;

    closed spec fn view(&self) -> NeuralNetworkView {
        NeuralNetworkView {
            query_id: self.query_id,
            config_id: self.config_id,
            input_size: self.input_size,
            layers: self.layers@,
            nodes: matrix_view(self.nodes),
        }
    }
}

/// How many inputs the units of the layer `i` of a configuration have: the
/// size of the input for the first layer, the units of the layer before for
/// any other.
pub open spec fn width_at(settings: NeuralNetSettingsView, i: int) -> usize {
    if i == 0 {
        settings.input_size
    } else {
        settings.layers[i - 1].output_units
    }
}

/// What keeps one layer of a configuration from being built: a name that the
/// registry does not hold, or a weight matrix that does not fit.
pub open spec fn layer_build_fault(layer: LayerSettingsView, width: usize) -> Option<NNetError> {
    if code_of(layer.activation_function) is None {
        Some(NNetError::FnNameNotFound)
    } else {
        node_fault(layer, width)
    }
}

/// The fault of the first layer at or after `from` that cannot be built.
pub open spec fn build_fault(settings: NeuralNetSettingsView, from: int) -> Option<NNetError>
    decreases settings.layers.len() - from,
{
    if from < 0 || from >= settings.layers.len() {
        None
    } else {
        or_else(
            layer_build_fault(settings.layers[from], width_at(settings, from)),
            build_fault(settings, from + 1),
        )
    }
}

impl NeuralNetworkView {
    /// How many inputs the units of the layer `i` have.
    pub open spec fn input_width(self, i: int) -> int {
        if i == 0 {
            self.input_size as int
        } else {
            self.layers[i - 1].size()
        }
    }

    /// The layers are consecutive ranges that cover the array of units, each
    /// reads from the layer before it, and every unit has one weight for each
    /// of its inputs.
    pub open spec fn wf(self) -> bool {
        &&& self.layers.len() == 0 ==> self.nodes.len() == 0
        &&& self.layers.len() > 0 ==> self.layers[0].nodes_start_index == 0
            && self.layers[0].prev_layer_first_node_idx == 0 && self.layers.last().nodes_stop_index
            == self.nodes.len()
        &&& forall|i: int|
            0 <= i < self.layers.len() ==> (#[trigger] self.layers[i]).nodes_start_index
                <= self.layers[i].nodes_stop_index && self.layers[i].activation_function_code < FN_COUNT
        &&& forall|i: int|
            1 <= i < self.layers.len() ==> (#[trigger] self.layers[i]).nodes_start_index
                == self.layers[i - 1].nodes_stop_index && self.layers[i].prev_layer_first_node_idx
                == self.layers[i - 1].nodes_start_index
        &&& forall|i: int, n: int|
            0 <= i < self.layers.len() && self.layers[i].nodes_start_index <= n
                < self.layers[i].nodes_stop_index ==> (#[trigger] self.nodes[n]).len()
                == #[trigger] self.input_width(i)
    }

    /// Whether the layer `i` is the layer `i` of `settings`: its size, its
    /// hyperparameters, its activation function and, where the configuration
    /// holds weights, the weights of its units.
    pub open spec fn layer_built_from(self, settings: NeuralNetSettingsView, i: int) -> bool {
        let layer = self.layers[i];
        let from = settings.layers[i];
        &&& layer.size() == from.output_units
        &&& layer.learning_rate == from.learning_rate
        &&& layer.momentum == from.momentum
        &&& layer.bias == from.bias
        &&& layer.low == from.weight_range.low
        &&& layer.high == from.weight_range.high
        &&& code_of(from.activation_function) == Some(layer.activation_function_code as int)
        &&& match from.layer_weights {
            Some(rows) => forall|k: int|
                0 <= k < from.output_units ==> #[trigger] self.nodes[layer.nodes_start_index + k]
                    == rows[k],
            None => forall|k: int, l: int|
                0 <= k < from.output_units && 0 <= l < self.input_width(i) ==> {
                    &&& within(
                        from.weight_range,
                        (#[trigger] self.nodes[layer.nodes_start_index + k][l]) as int,
                    )
                    &&& self.nodes[layer.nodes_start_index + k][l] == self.nodes[layer.nodes_start_index
                        + k][0]
                },
        }
    }

    /// Whether this is the network that `settings` describes.
    pub open spec fn built_from(self, settings: NeuralNetSettingsView) -> bool {
        &&& self.query_id == settings.query_id
        &&& self.config_id == settings.config_id
        &&& self.input_size == settings.input_size
        &&& self.layers.len() == settings.layers.len()
        &&& forall|i: int| 0 <= i < self.layers.len() ==> #[trigger] self.layer_built_from(settings, i)
    }

    /// What keeps the layer `i` from taking its state from `layer`: a name
    /// that the registry does not hold, no weight matrix, or one that does
    /// not fit the units of the layer and their inputs.
    pub open spec fn layer_update_fault(self, layer: LayerSettingsView, i: int) -> Option<NNetError> {
        if code_of(layer.activation_function) is None {
            Some(NNetError::FnNameNotFound)
        } else {
            match layer.layer_weights {
                Some(rows) => rows_fault(rows, self.layers[i].size(), self.input_width(i)),
                None => Some(NNetError::UpdateMissingWeights),
            }
        }
    }

    /// The fault of the first layer at or after `from` that cannot take its
    /// state from `settings`.
    pub open spec fn first_update_fault(self, settings: NeuralNetSettingsView, from: int) -> Option<
        NNetError,
    >
        decreases self.layers.len() - from,
    {
        if from < 0 || from >= self.layers.len() {
            None
        } else {
            or_else(
                self.layer_update_fault(settings.layers[from], from),
                self.first_update_fault(settings, from + 1),
            )
        }
    }

    /// What keeps the network from taking its state from `settings`: another
    /// number of layers, or else the fault of its first faulty layer.
    pub open spec fn update_fault(self, settings: NeuralNetSettingsView) -> Option<NNetError> {
        if settings.layers.len() != self.layers.len() {
            Some(NNetError::LayerCountMismatch)
        } else {
            self.first_update_fault(settings, 0)
        }
    }

    /// Whether the layer `i` holds the state of the layer `i` of `settings`
    /// over the range of units that it had in `before`.
    pub open spec fn layer_updated_from(
        self,
        before: NeuralNetworkView,
        settings: NeuralNetSettingsView,
        i: int,
    ) -> bool {
        let from = settings.layers[i];
        &&& self.layers[i] == (Layer {
            learning_rate: from.learning_rate,
            activation_function_code: code_of(from.activation_function)->0 as usize,
            momentum: from.momentum,
            bias: from.bias,
            high: from.weight_range.high,
            low: from.weight_range.low,
            ..before.layers[i]
        })
        &&& forall|k: int|
            0 <= k < before.layers[i].size() ==> #[trigger] self.nodes[before.layers[i].nodes_start_index
                + k] == from.layer_weights->0[k]
    }

    /// Whether this is `before` with the state of `settings`: identifiers,
    /// hyperparameters, activation functions and weights are those of
    /// `settings`, and the ranges of units are those of `before`.
    pub open spec fn updated_from(self, before: NeuralNetworkView, settings: NeuralNetSettingsView) -> bool {
        &&& self.query_id == settings.query_id
        &&& self.config_id == settings.config_id
        &&& self.input_size == before.input_size
        &&& self.layers.len() == before.layers.len()
        &&& self.nodes.len() == before.nodes.len()
        &&& forall|i: int|
            0 <= i < self.layers.len() ==> #[trigger] self.layer_updated_from(before, settings, i)
    }

    /// How many units the final layer has; none in a network without layers.
    pub open spec fn output_size(self) -> int {
        if self.layers.len() == 0 {
            0
        } else {
            self.layers.last().size()
        }
    }
}

/// Writes the weights of `source` over those of `target`.
fn overwrite_row(target: &mut Vec<i64>, source: &Vec<i64>)
    requires
        old(target).len() == source.len(),
    ensures
        final(target)@ == source@,
{
    let mut l: usize = 0;
    while l < source.len()
        invariant
            l <= source.len(),
            target.len() == source.len(),
            forall|c: int| 0 <= c < l ==> target@[c] == source@[c],
        decreases source.len() - l,
    {
        target[l] = source[l];
        l += 1;
    }
    assert(target@ =~= source@);
}

/// Writes the rows of `rows` over the rows of `nodes` from `start` on.
fn overwrite_rows(nodes: &mut Vec<Vec<i64>>, start: usize, rows: &Vec<Vec<i64>>)
    requires
        start + rows.len() <= old(nodes).len(),
        forall|k: int| 0 <= k < rows.len() ==> (#[trigger] rows@[k])@.len() == old(nodes)@[start + k]@.len(),
    ensures
        final(nodes).len() == old(nodes).len(),
        forall|k: int| 0 <= k < rows.len() ==> (#[trigger] final(nodes)@[start + k])@ == rows@[k]@,
        forall|n: int|
            0 <= n < start || start + rows.len() <= n < old(nodes).len() ==> #[trigger] final(nodes)@[n]
                == old(nodes)@[n],
{
    let mut k: usize = 0;
    while k < rows.len()
        invariant
            k <= rows.len(),
            start + rows.len() <= nodes.len(),
            nodes.len() == old(nodes).len(),
            forall|r: int| 0 <= r < k ==> (#[trigger] nodes@[start + r])@ == rows@[r]@,
            forall|n: int|
                0 <= n < start || start + k <= n < nodes.len() ==> #[trigger] nodes@[n] == old(nodes)@[n],
            forall|r: int| 0 <= r < rows.len() ==> (#[trigger] rows@[r])@.len() == old(nodes)@[start + r]@.len(),
        decreases rows.len() - k,
    {
        overwrite_row(&mut nodes[start + k], &rows[k]);
        k += 1;
    }
}

/// Gives every layer the hyperparameters of its layer of `settings` and the
/// code at its place in `codes`.
fn update_layers(layers: &mut Vec<Layer>, settings: &NeuralNetSettings, codes: &Vec<usize>)
    requires
        old(layers).len() == settings.layers.len() == codes.len(),
    ensures
        final(layers).len() == old(layers).len(),
        forall|j: int|
            0 <= j < old(layers).len() ==> #[trigger] final(layers)@[j] == (Layer {
                learning_rate: settings.layers@[j].learning_rate,
                activation_function_code: codes@[j],
                momentum: settings.layers@[j].momentum,
                bias: settings.layers@[j].bias,
                high: settings.layers@[j].weight_range.high,
                low: settings.layers@[j].weight_range.low,
                ..old(layers)@[j]
            }),
{
    let mut i: usize = 0;
    while i < layers.len()
        invariant
            i <= layers.len(),
            layers.len() == old(layers).len() == settings.layers.len() == codes.len(),
            forall|j: int| i <= j < layers.len() ==> #[trigger] layers@[j] == old(layers)@[j],
            forall|j: int|
                0 <= j < i ==> #[trigger] layers@[j] == (Layer {
                    learning_rate: settings.layers@[j].learning_rate,
                    activation_function_code: codes@[j],
                    momentum: settings.layers@[j].momentum,
                    bias: settings.layers@[j].bias,
                    high: settings.layers@[j].weight_range.high,
                    low: settings.layers@[j].weight_range.low,
                    ..old(layers)@[j]
                }),
        decreases layers.len() - i,
    {
        layers[i].update_state(&settings.layers[i], codes[i]);
        i += 1;
    }
}

/// Gives the units of every layer the weights of its layer of `settings`.
fn update_nodes(nodes: &mut Vec<Vec<i64>>, layers: &Vec<Layer>, settings: &NeuralNetSettings)
    requires
        layers.len() == settings.layers.len(),
        forall|a: int, b: int|
            0 <= a < b < layers.len() ==> (#[trigger] layers@[a]).nodes_stop_index <= (
            #[trigger] layers@[b]).nodes_start_index,
        forall|j: int|
            0 <= j < layers.len() ==> {
                &&& (#[trigger] layers@[j]).nodes_start_index <= layers@[j].nodes_stop_index <= old(
                    nodes,
                ).len()
                &&& settings.layers@[j].layer_weights is Some
                &&& settings.layers@[j].layer_weights->0.len() == layers@[j].size()
                &&& forall|k: int|
                    0 <= k < layers@[j].size() ==> (
                    #[trigger] settings.layers@[j].layer_weights->0@[k])@.len() == old(
                        nodes,
                    )@[layers@[j].nodes_start_index + k]@.len()
            },
    ensures
        final(nodes).len() == old(nodes).len(),
        forall|n: int| 0 <= n < old(nodes).len() ==> (#[trigger] final(nodes)@[n])@.len() == old(nodes)@[n]@.len(),
        forall|j: int, k: int|
            0 <= j < layers.len() && 0 <= k < layers@[j].size() ==> (
            #[trigger] final(nodes)@[layers@[j].nodes_start_index + k])@
                == settings.layers@[j].layer_weights->0@[k]@,
{
    let mut i: usize = 0;
    while i < layers.len()
        invariant
            i <= layers.len(),
            layers.len() == settings.layers.len(),
            nodes.len() == old(nodes).len(),
            forall|a: int, b: int|
                0 <= a < b < layers.len() ==> (#[trigger] layers@[a]).nodes_stop_index <= (
                #[trigger] layers@[b]).nodes_start_index,
            forall|j: int|
                0 <= j < layers.len() ==> {
                    &&& (#[trigger] layers@[j]).nodes_start_index <= layers@[j].nodes_stop_index <= old(
                        nodes,
                    ).len()
                    &&& settings.layers@[j].layer_weights is Some
                    &&& settings.layers@[j].layer_weights->0.len() == layers@[j].size()
                    &&& forall|k: int|
                        0 <= k < layers@[j].size() ==> (
                        #[trigger] settings.layers@[j].layer_weights->0@[k])@.len() == old(
                            nodes,
                        )@[layers@[j].nodes_start_index + k]@.len()
                },
            forall|n: int| 0 <= n < nodes.len() ==> (#[trigger] nodes@[n])@.len() == old(nodes)@[n]@.len(),
            forall|j: int, k: int|
                0 <= j < i && 0 <= k < layers@[j].size() ==> (
                #[trigger] nodes@[layers@[j].nodes_start_index + k])@
                    == settings.layers@[j].layer_weights->0@[k]@,
        decreases layers.len() - i,
    {
        let start: usize = layers[i].nodes_start_index;
        let ghost before = nodes@;
        match &settings.layers[i].layer_weights {
            Some(rows) => {
                assert forall|k: int| 0 <= k < rows.len() implies (#[trigger] rows@[k])@.len()
                    == nodes@[start + k]@.len() by {
                    assert(nodes@[start + k]@.len() == old(nodes)@[start + k]@.len());
                }
                overwrite_rows(nodes, start, rows);
                assert forall|j: int, k: int| 0 <= j < i && 0 <= k < layers@[j].size() implies (
                #[trigger] nodes@[layers@[j].nodes_start_index + k])@
                    == settings.layers@[j].layer_weights->0@[k]@ by {
                    assert(layers@[j].nodes_stop_index <= layers@[i as int].nodes_start_index);
                    assert(before[layers@[j].nodes_start_index + k]@
                        == settings.layers@[j].layer_weights->0@[k]@);
                }
                assert forall|n: int| 0 <= n < nodes.len() implies (#[trigger] nodes@[n])@.len() == old(
                    nodes,
                )@[n]@.len() by {
                    if start <= n < start + rows.len() {
                        assert(nodes@[start + (n - start)]@ == rows@[n - start]@);
                    } else {
                        assert(before[n]@.len() == old(nodes)@[n]@.len());
                    }
                }
            },
            None => {},
        }
        i += 1;
    }
}

impl NeuralNetwork {
    /// The dispatcher is in order and the structure is well formed.
    pub open spec fn wf(&self) -> bool {
        self.activator_wf() && self@.wf()
    }

    /// The dispatcher holds the registry's names.
    pub closed spec fn activator_wf(&self) -> bool {
        self.activator.wf()
    }

    /// Builds the network that `nnet_settings` describes. Fails where a layer
    /// names an activation function that the registry does not hold, or holds
    /// a weight matrix that does not fit its units and their inputs.
    pub fn new(nnet_settings: &NeuralNetSettings) -> (outcome: Result<NeuralNetwork, NNetError>)
        ensures
            match build_fault(nnet_settings@, 0) {
                Some(fault) => outcome == Err::<NeuralNetwork, NNetError>(fault),
                None => outcome is Ok,
            },
            outcome matches Ok(network) ==> network.wf() && network@.built_from(nnet_settings@),
    {
        let activator = Activator::new();
        let mut input_size: usize = nnet_settings.input_size;
        let mut layers: Vec<Layer> = Vec::new();
        let mut nodes: Vec<Vec<i64>> = Vec::new();
        let mut i: usize = 0;
        while i < nnet_settings.layers.len()
            invariant
                i <= nnet_settings.layers.len(),
                activator.wf(),
                layers.len() == i,
                input_size == width_at(nnet_settings@, i as int),
                build_fault(nnet_settings@, 0) == build_fault(nnet_settings@, i as int),
                ({
                    let so_far = NeuralNetworkView {
                        query_id: nnet_settings.query_id,
                        config_id: nnet_settings.config_id,
                        input_size: nnet_settings.input_size,
                        layers: layers@,
                        nodes: matrix_view(nodes),
                    };
                    &&& so_far.wf()
                    &&& forall|j: int| 0 <= j < i ==> #[trigger] so_far.layer_built_from(nnet_settings@, j)
                }),
            decreases nnet_settings.layers.len() - i,
        {
            let ghost before = NeuralNetworkView {
                query_id: nnet_settings.query_id,
                config_id: nnet_settings.config_id,
                input_size: nnet_settings.input_size,
                layers: layers@,
                nodes: matrix_view(nodes),
            };
            let layer_settings = &nnet_settings.layers[i];
            assert(nnet_settings@.layers[i as int] == layer_settings@);
            let act_fn_code = match activator.get_fn_code_by_name(&layer_settings.activation_function) {
                Ok(code) => code,
                Err(fault) => {
                    return Err(fault);
                },
            };
            let start_index: usize = nodes.len();
            match make_new_nodes(layer_settings, &mut nodes, input_size) {
                Ok(()) => {},
                Err(fault) => {
                    return Err(fault);
                },
            }
            let reads: usize = if i == 0 {
                0
            } else {
                input_size
            };
            proof {
                if i > 0 {
                    assert(before.layer_built_from(nnet_settings@, i - 1));
                    assert(before.layers[i - 1].nodes_start_index <= before.layers[i - 1].nodes_stop_index);
                    assert(before.layers.last() == before.layers[i - 1]);
                }
            }
            let layer = Layer::new(layer_settings, reads, act_fn_code, start_index);
            layers.push(layer);
            proof {
                let width = input_size;
                let after = NeuralNetworkView {
                    query_id: nnet_settings.query_id,
                    config_id: nnet_settings.config_id,
                    input_size: nnet_settings.input_size,
                    layers: layers@,
                    nodes: matrix_view(nodes),
                };
                assert(after.layers.last() == layer);
                assert(after.input_width(i as int) == width);
                assert forall|j: int| 0 <= j < i implies after.layers[j] == before.layers[j]
                    && after.input_width(j) == before.input_width(j) by {}
                assert forall|n: int| 0 <= n < start_index implies #[trigger] after.nodes[n]
                    == before.nodes[n] by {}
                assert forall|n: int| start_index <= n < after.nodes.len() implies (
                #[trigger] after.nodes[n]).len() == width by {
                    assert(nodes@[start_index + (n - start_index)]@.len() == width);
                }
                assert forall|j: int, n: int|
                    0 <= j < after.layers.len() && after.layers[j].nodes_start_index <= n
                        < after.layers[j].nodes_stop_index implies (#[trigger] after.nodes[n]).len()
                    == #[trigger] after.input_width(j) by {
                    if j < i {
                        lemma_ranges_ascend(before, j, i - 1);
                        assert(before.nodes[n].len() == before.input_width(j));
                    }
                }
                assert forall|j: int| 0 <= j <= i implies #[trigger] after.layer_built_from(
                    nnet_settings@,
                    j,
                ) by {
                    if j < i {
                        assert(before.layer_built_from(nnet_settings@, j));
                        lemma_ranges_ascend(before, j, i - 1);
                        assert forall|k: int|
                            0 <= k < nnet_settings@.layers[j].output_units implies #[trigger] after.nodes[after.layers[j].nodes_start_index
                            + k] == before.nodes[before.layers[j].nodes_start_index + k] by {}
                    } else {
                        lemma_position_in_range(fn_names(), layer_settings@.activation_function, 0);
                        assert forall|k: int|
                            0 <= k < layer_settings.output_units implies #[trigger] after.nodes[start_index
                            + k] == nodes@[start_index + k]@ by {}
                    }
                }
            }
            input_size = layer_settings.output_units;
            i += 1;
        }
        Ok(
            NeuralNetwork {
                activator,
                query_id: nnet_settings.query_id,
                config_id: nnet_settings.config_id,
                input_size: nnet_settings.input_size,
                layers,
                nodes,
            },
        )
    }

    /// The identity of the network as a configuration without layers and
    /// without an accuracy.
    pub fn get_settings(&self) -> (settings: NeuralNetSettings)
        ensures
            settings.query_id == self@.query_id,
            settings.config_id == self@.config_id,
            settings.input_size == self@.input_size,
            settings.accuracy == 0,
            settings.layers@.len() == 0,
    {
        NeuralNetSettings {
            query_id: self.query_id,
            config_id: self.config_id,
            input_size: self.input_size,
            accuracy: 0,
            layers: Vec::new(),
        }
    }

    /// Looks for what keeps the network from taking its state from
    /// `settings`, and for the codes of the activation functions it names.
    fn find_update_fault(&self, settings: &NeuralNetSettings) -> (outcome: Result<Vec<usize>, NNetError>)
        requires
            self.wf(),
        ensures
            match self@.update_fault(settings@) {
                Some(fault) => outcome == Err::<Vec<usize>, NNetError>(fault),
                None => outcome is Ok,
            },
            outcome matches Ok(codes) ==> {
                &&& codes.len() == self@.layers.len() == settings.layers.len()
                &&& forall|i: int|
                    0 <= i < codes.len() ==> {
                        &&& code_of(settings@.layers[i].activation_function) == Some(
                            (#[trigger] codes@[i]) as int,
                        )
                        &&& codes@[i] < FN_COUNT
                        &&& self@.layer_update_fault(settings@.layers[i], i) is None
                    }
            },
    {
        let count = self.layers.len();
        if settings.layers.len() != count {
            return Err(NNetError::LayerCountMismatch);
        }
        let mut codes: Vec<usize> = Vec::new();
        let mut width: usize = self.input_size;
        let mut i: usize = 0;
        while i < count
            invariant
                i <= count,
                self.wf(),
                count == self.layers.len() == settings.layers.len(),
                codes.len() == i,
                width == self@.input_width(i as int),
                self@.first_update_fault(settings@, 0) == self@.first_update_fault(settings@, i as int),
                forall|j: int|
                    0 <= j < i ==> {
                        &&& code_of(settings@.layers[j].activation_function) == Some(
                            (#[trigger] codes@[j]) as int,
                        )
                        &&& codes@[j] < FN_COUNT
                        &&& self@.layer_update_fault(settings@.layers[j], j) is None
                    },
            decreases count - i,
        {
            let layer_settings = &settings.layers[i];
            assert(settings@.layers[i as int] == layer_settings@);
            let code = match self.activator.get_fn_code_by_name(&layer_settings.activation_function) {
                Ok(code) => code,
                Err(fault) => {
                    return Err(fault);
                },
            };
            let layer = &self.layers[i];
            let units: usize = layer.nodes_stop_index - layer.nodes_start_index;
            match &layer_settings.layer_weights {
                Some(rows) => {
                    assert(layer_settings@.layer_weights == Some(matrix_view(*rows)));
                    if let Some(fault) = find_rows_fault(rows, units, width) {
                        return Err(fault);
                    }
                },
                None => {
                    return Err(NNetError::UpdateMissingWeights);
                },
            }
            proof {
                lemma_position_in_range(fn_names(), layer_settings@.activation_function, 0);
            }
            codes.push(code);
            width = units;
            i += 1;
        }
        Ok(codes)
    }

    /// Takes identifiers, hyperparameters, activation functions and weights
    /// from `current_default`, keeping the arrays of layers and units. Fails,
    /// and changes nothing, where the number of layers differs, a name is not
    /// in the registry, a layer comes without a weight matrix, or a matrix
    /// does not fit the units of its layer.
    pub fn update_state(&mut self, current_default: &NeuralNetSettings) -> (outcome: Result<(), NNetError>)
        requires
            old(self).wf(),
        ensures
            outcome == match old(self)@.update_fault(current_default@) {
                Some(fault) => Err::<(), NNetError>(fault),
                None => Ok(()),
            },
            outcome is Err ==> final(self)@ == old(self)@,
            outcome is Ok ==> final(self)@.updated_from(old(self)@, current_default@),
            final(self).wf(),
    {
        let codes = match self.find_update_fault(current_default) {
            Ok(codes) => codes,
            Err(fault) => {
                return Err(fault);
            },
        };
        self.config_id = current_default.config_id;
        self.query_id = current_default.query_id;
        update_layers(&mut self.layers, current_default, &codes);
        proof {
            let before = old(self)@;
            assert forall|a: int, b: int| 0 <= a < b < self.layers.len() implies (
            #[trigger] self.layers@[a]).nodes_stop_index <= (
            #[trigger] self.layers@[b]).nodes_start_index by {
                lemma_range_within(before, a, b - 1);
                assert(before.layers[b].nodes_start_index == before.layers[b - 1].nodes_stop_index);
            }
            assert forall|j: int| 0 <= j < self.layers.len() implies {
                &&& (#[trigger] self.layers@[j]).nodes_start_index <= self.layers@[j].nodes_stop_index
                    <= self.nodes.len()
                &&& current_default.layers@[j].layer_weights is Some
                &&& current_default.layers@[j].layer_weights->0.len() == self.layers@[j].size()
                &&& forall|k: int|
                    0 <= k < self.layers@[j].size() ==> (
                    #[trigger] current_default.layers@[j].layer_weights->0@[k])@.len()
                        == self.nodes@[self.layers@[j].nodes_start_index + k]@.len()
            } by {
                lemma_ranges_ascend(before, j, j);
                assert(codes@[j] < FN_COUNT);
                assert(before.layer_update_fault(current_default@.layers[j], j) is None);
                let rows = current_default.layers@[j].layer_weights->0;
                assert(current_default@.layers[j].layer_weights->0 == matrix_view(rows));
                assert forall|k: int| 0 <= k < self.layers@[j].size() implies (#[trigger] rows@[k])@.len()
                    == self.nodes@[self.layers@[j].nodes_start_index + k]@.len() by {
                    assert(matrix_view(rows)[k].len() == before.input_width(j));
                    assert(before.nodes[before.layers[j].nodes_start_index + k].len()
                        == before.input_width(j));
                }
            }
        }
        update_nodes(&mut self.nodes, &self.layers, current_default);
        proof {
            let now = self@;
            let before = old(self)@;
            assert forall|j: int| 0 <= j < now.layers.len() implies now.input_width(j)
                == before.input_width(j) by {}
            assert forall|j: int| 0 <= j < now.layers.len() implies #[trigger] now.layer_updated_from(
                before,
                current_default@,
                j,
            ) by {
                let rows = current_default.layers@[j].layer_weights->0;
                assert(codes@[j] < FN_COUNT);
                assert(before.layer_update_fault(current_default@.layers[j], j) is None);
                assert(current_default@.layers[j].layer_weights->0 == matrix_view(rows));
                assert forall|k: int| 0 <= k < before.layers[j].size() implies #[trigger] now.nodes[before.layers[j].nodes_start_index
                    + k] == matrix_view(rows)[k] by {
                    assert(self.nodes@[self.layers@[j].nodes_start_index + k]@ == rows@[k]@);
                }
            }
            assert forall|j: int, n: int|
                0 <= j < now.layers.len() && now.layers[j].nodes_start_index <= n
                    < now.layers[j].nodes_stop_index implies (#[trigger] now.nodes[n]).len()
                == #[trigger] now.input_width(j) by {
                lemma_ranges_ascend(before, j, j);
                assert(before.nodes[n].len() == before.input_width(j));
                assert(self.nodes@[n]@.len() == old(self).nodes@[n]@.len());
            }
            assert forall|j: int| 1 <= j < now.layers.len() implies (
            #[trigger] now.layers[j]).nodes_start_index == now.layers[j - 1].nodes_stop_index
                && now.layers[j].prev_layer_first_node_idx == now.layers[j - 1].nodes_start_index by {
                assert(before.layers[j].nodes_start_index == before.layers[j - 1].nodes_stop_index);
            }
            assert forall|j: int| 0 <= j < now.layers.len() implies (
            #[trigger] now.layers[j]).nodes_start_index <= now.layers[j].nodes_stop_index
                && now.layers[j].activation_function_code < FN_COUNT by {
                assert(before.layers[j].nodes_start_index <= before.layers[j].nodes_stop_index);
                assert(codes@[j] < FN_COUNT);
            }
            if now.layers.len() > 0 {
                assert(now.layers.last().nodes_stop_index == before.layers.last().nodes_stop_index);
            }
        }
        Ok(())
    }

    /// The class that the network speaks for, given the outputs of the units
    /// of its final layer after a forward pass: the index of the first
    /// greatest output. Fails where no output is above zero, as in a network
    /// without layers. With one output for every unit of the final layer, the
    /// class is below the number of those units.
    pub fn predict(&self, outputs: &Vec<i64>) -> (outcome: Result<usize, NNetError>)
        ensures
            match outcome {
                Ok(best) => is_prediction(outputs@, best as int) && self@.layers.len() > 0 && (outputs.len()
                    == self@.output_size() ==> best < self@.output_size()),
                Err(fault) => fault == NNetError::FailedPrediction && (self@.layers.len() == 0 || forall|
                    i: int,
                | 0 <= i < outputs.len() ==> outputs@[i] <= 0),
            },
    {
        if self.layers.len() == 0 {
            return Err(NNetError::FailedPrediction);
        }
        self.layers[self.layers.len() - 1].get_prediction(outputs)
    }

    /// The identifier of the configuration that the network was last bound to.
    pub fn get_id(&self) -> (id: usize)
        ensures
            id == self@.config_id,
    {
        self.config_id
    }

    /// How many units the final layer has, which is how many outputs the
    /// network gives; none for a network without layers.
    pub fn output_size(&self) -> (size: usize)
        requires
            self@.wf(),
        ensures
            size == self@.output_size(),
    {
        if self.layers.len() == 0 {
            0
        } else {
            let last = &self.layers[self.layers.len() - 1];
            last.nodes_stop_index - last.nodes_start_index
        }
    }

    /// The layers, in order.
    pub fn layers(&self) -> (layers: &Vec<Layer>)
        ensures
            layers@ == self@.layers,
    {
        &self.layers
    }

    /// The weights that each unit was configured with.
    pub fn nodes(&self) -> (nodes: &Vec<Vec<i64>>)
        ensures
            matrix_view(*nodes) == self@.nodes,
    {
        &self.nodes
    }

    /// The size of the input.
    pub fn input_size(&self) -> (size: usize)
        ensures
            size == self@.input_size,
    {
        self.input_size
    }
}

/// A network built from a configuration has as many units in every layer as
/// the configuration says, so that it gives as many outputs as its final
/// layer has units.
pub proof fn lemma_built_network_has_the_layers(
    network: NeuralNetworkView,
    settings: NeuralNetSettingsView,
    i: int,
)
    requires
        network.wf(),
        network.built_from(settings),
        0 <= i < settings.layers.len(),
    ensures
        network.layers.len() == settings.layers.len(),
        network.layers[i].size() == settings.layers[i].output_units,
        network.input_width(i) == width_at(settings, i),
        network.output_size() == settings.layers.last().output_units,
{
    assert(network.layer_built_from(settings, i));
    assert(network.layer_built_from(settings, settings.layers.len() - 1));
    if i > 0 {
        assert(network.layer_built_from(settings, i - 1));
    }
}

/// In a network built from a configuration, every unit of a layer has one
/// weight for each input of that layer.
pub proof fn lemma_built_network_has_the_weights(
    network: NeuralNetworkView,
    settings: NeuralNetSettingsView,
    i: int,
    n: int,
)
    requires
        network.wf(),
        network.built_from(settings),
        0 <= i < settings.layers.len(),
        network.layers[i].nodes_start_index <= n < network.layers[i].nodes_stop_index,
    ensures
        0 <= n < network.nodes.len(),
        network.nodes[n].len() == width_at(settings, i),
{
    lemma_built_network_has_the_layers(network, settings, i);
    lemma_ranges_ascend(network, i, i);
    assert(network.nodes[n].len() == network.input_width(i));
}

/// In a well-formed network a later layer ends at or after an earlier one, and
/// every layer ends within the array of units.
pub proof fn lemma_ranges_ascend(network: NeuralNetworkView, j: int, i: int)
    requires
        network.wf(),
        0 <= j <= i < network.layers.len(),
    ensures
        network.layers[j].nodes_stop_index <= network.layers[i].nodes_stop_index,
        network.layers[i].nodes_stop_index <= network.nodes.len(),
    decreases i - j,
{
    lemma_range_within(network, i, network.layers.len() - 1);
    if j < i {
        lemma_ranges_ascend(network, j, i - 1);
        assert(network.layers[i].nodes_start_index == network.layers[i - 1].nodes_stop_index);
    }
}

/// In a well-formed network the layer `j` ends at or before the layer `i`
/// after it.
pub proof fn lemma_range_within(network: NeuralNetworkView, j: int, i: int)
    requires
        network.wf(),
        0 <= j <= i < network.layers.len(),
    ensures
        network.layers[j].nodes_stop_index <= network.layers[i].nodes_stop_index,
    decreases i - j,
{
    if j < i {
        lemma_range_within(network, j, i - 1);
        assert(network.layers[i].nodes_start_index == network.layers[i - 1].nodes_stop_index);
    }
}

} // verus!
