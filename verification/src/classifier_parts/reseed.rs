//! Random weights for configurations: for the first candidate of a run, and
//! for the losers of a round.

use vstd::prelude::*;
use crate::classifier_parts::selection::pool_view;
use crate::data_and_config::neural_net_config_parts::{
    matrix_view, LayerSettings, LayerSettingsView, NeuralNetSettings, NeuralNetSettingsView,
    WeightRange,
};
use crate::neural_network_parts::make_new_nodes::{draw_weight, make_new_nodes, within};
use crate::neural_network_parts::neural_network::width_at;
use crate::neural_network_parts::nnet_errors::NNetError;

verus! {

/// Whether `after` is the layer `before` with a fresh matrix for units of
/// `width` inputs: one row per unit, one weight per input, every weight one
/// that may be drawn for the layer's range, and the same along a row.
pub open spec fn layer_seeded(before: LayerSettingsView, after: LayerSettingsView, width: usize) -> bool {
    &&& after.layer_weights is Some
    &&& after == (LayerSettingsView { layer_weights: after.layer_weights, ..before })
    &&& after.layer_weights->0.len() == before.output_units
    &&& forall|k: int|
        0 <= k < before.output_units ==> (#[trigger] after.layer_weights->0[k]).len() == width
    &&& forall|k: int, l: int|
        0 <= k < before.output_units && 0 <= l < width ==> within(
            before.weight_range,
            (#[trigger] after.layer_weights->0[k][l]) as int,
        ) && after.layer_weights->0[k][l] == after.layer_weights->0[k][0]
}

/// Whether `after` is the configuration `before` with a fresh matrix in every
/// layer.
pub open spec fn seeded(before: NeuralNetSettingsView, after: NeuralNetSettingsView) -> bool {
    &&& after == (NeuralNetSettingsView { layers: after.layers, ..before })
    &&& after.layers.len() == before.layers.len()
    &&& forall|i: int|
        0 <= i < before.layers.len() ==> layer_seeded(
            before.layers[i],
            #[trigger] after.layers[i],
            width_at(before, i),
        )
}

/// Gives one layer a fresh matrix for units of `width` inputs.
fn seed_layer(layer: &mut LayerSettings, width: usize)
    ensures
        layer_seeded(old(layer)@, final(layer)@, width),
{
    layer.layer_weights = None;
    let mut rows: Vec<Vec<i64>> = Vec::new();
    let outcome = make_new_nodes(layer, &mut rows, width);
    assert(outcome is Ok);
    assert forall|k: int| 0 <= k < layer.output_units implies (#[trigger] matrix_view(rows)[k]).len()
        == width by {
        assert(rows@[0 + k]@.len() == width);
    }
    assert forall|k: int, l: int| 0 <= k < layer.output_units && 0 <= l < width implies within(
        layer.weight_range,
        (#[trigger] matrix_view(rows)[k][l]) as int,
    ) && matrix_view(rows)[k][l] == matrix_view(rows)[k][0] by {
        assert(within(layer.weight_range, rows@[0 + k]@[l] as int));
    }
    layer.layer_weights = Some(rows);
}

/// Gives every layer of a configuration a fresh weight matrix that fits its
/// units and their inputs, whatever it held before.
pub fn seed_weights(settings: &mut NeuralNetSettings)
    ensures
        seeded(old(settings)@, final(settings)@),
{
    let mut width: usize = settings.input_size;
    let mut i: usize = 0;
    while i < settings.layers.len()
        invariant
            i <= settings.layers.len(),
            settings.layers.len() == old(settings).layers.len(),
            settings.query_id == old(settings).query_id,
            settings.config_id == old(settings).config_id,
            settings.accuracy == old(settings).accuracy,
            settings.input_size == old(settings).input_size,
            width == width_at(old(settings)@, i as int),
            forall|j: int| i <= j < settings.layers.len() ==> #[trigger] settings.layers@[j] == old(
                settings,
            ).layers@[j],
            forall|j: int|
                0 <= j < i ==> layer_seeded(
                    old(settings).layers@[j]@,
                    (#[trigger] settings.layers@[j])@,
                    width_at(old(settings)@, j),
                ),
        decreases settings.layers.len() - i,
    {
        seed_layer(&mut settings.layers[i], width);
        width = settings.layers[i].output_units;
        i += 1;
    }
    assert forall|j: int| 0 <= j < old(settings)@.layers.len() implies layer_seeded(
        old(settings)@.layers[j],
        #[trigger] settings@.layers[j],
        width_at(old(settings)@, j),
    ) by {
        assert(settings@.layers[j] == settings.layers@[j]@);
    }
}

/// Whether `after` is the layer `before` with every weight drawn anew for the
/// layer's range.
pub open spec fn layer_redrawn(before: LayerSettingsView, after: LayerSettingsView) -> bool {
    &&& before.layer_weights is Some
    &&& after.layer_weights is Some
    &&& after == (LayerSettingsView { layer_weights: after.layer_weights, ..before })
    &&& after.layer_weights->0.len() == before.layer_weights->0.len()
    &&& forall|k: int|
        0 <= k < before.layer_weights->0.len() ==> (#[trigger] after.layer_weights->0[k]).len()
            == before.layer_weights->0[k].len()
    &&& forall|k: int, l: int|
        0 <= k < after.layer_weights->0.len() && 0 <= l < after.layer_weights->0[k].len() ==> within(
            before.weight_range,
            (#[trigger] after.layer_weights->0[k][l]) as int,
        )
}

/// Whether `after` is the configuration `before` with every weight of every
/// layer drawn anew.
pub open spec fn redrawn(before: NeuralNetSettingsView, after: NeuralNetSettingsView) -> bool {
    &&& after == (NeuralNetSettingsView { layers: after.layers, ..before })
    &&& after.layers.len() == before.layers.len()
    &&& forall|i: int|
        0 <= i < before.layers.len() ==> layer_redrawn(before.layers[i], #[trigger] after.layers[i])
}

/// Whether every layer of every configuration of a pool holds a weight
/// matrix.
pub open spec fn all_weighted(pool: Seq<NeuralNetSettingsView>) -> bool {
    forall|c: int, i: int|
        0 <= c < pool.len() && 0 <= i < pool[c].layers.len() ==> (
        #[trigger] pool[c].layers[i]).layer_weights is Some
}

/// Finds out whether every layer of every configuration holds a matrix.
pub fn check_all_weighted(pool: &Vec<NeuralNetSettings>) -> (weighted: bool)
    ensures
        weighted == all_weighted(pool_view(*pool)),
{
    let mut c: usize = 0;
    while c < pool.len()
        invariant
            c <= pool.len(),
            forall|d: int, i: int|
                0 <= d < c && 0 <= i < pool@[d].layers@.len() ==> (
                #[trigger] pool@[d].layers@[i]).layer_weights is Some,
        decreases pool.len() - c,
    {
        let mut i: usize = 0;
        while i < pool[c].layers.len()
            invariant
                c < pool.len(),
                i <= pool@[c as int].layers@.len(),
                forall|d: int, j: int|
                    0 <= d < c && 0 <= j < pool@[d].layers@.len() ==> (
                    #[trigger] pool@[d].layers@[j]).layer_weights is Some,
                forall|j: int| 0 <= j < i ==> (#[trigger] pool@[c as int].layers@[j]).layer_weights is Some,
            decreases pool@[c as int].layers@.len() - i,
        {
            if pool[c].layers[i].layer_weights.is_none() {
                assert(pool_view(*pool)[c as int].layers[i as int].layer_weights is None);
                return false;
            }
            i += 1;
        }
        c += 1;
    }
    assert forall|d: int, i: int|
        0 <= d < pool_view(*pool).len() && 0 <= i < pool_view(*pool)[d].layers.len() implies (
    #[trigger] pool_view(*pool)[d].layers[i]).layer_weights is Some by {
        assert(pool@[d].layers@[i].layer_weights is Some);
    }
    true
}

/// Draws every weight of a matrix anew for a range.
fn redraw_matrix(rows: &mut Vec<Vec<i64>>, range: WeightRange)
    ensures
        final(rows).len() == old(rows).len(),
        forall|k: int| 0 <= k < old(rows).len() ==> (#[trigger] final(rows)@[k])@.len() == old(rows)@[k]@.len(),
        forall|k: int, l: int|
            0 <= k < final(rows).len() && 0 <= l < final(rows)@[k]@.len() ==> within(
                range,
                (#[trigger] final(rows)@[k]@[l]) as int,
            ),
{
    let mut k: usize = 0;
    while k < rows.len()
        invariant
            k <= rows.len(),
            rows.len() == old(rows).len(),
            forall|r: int| 0 <= r < rows.len() ==> (#[trigger] rows@[r])@.len() == old(rows)@[r]@.len(),
            forall|r: int, l: int|
                0 <= r < k && 0 <= l < rows@[r]@.len() ==> within(range, (#[trigger] rows@[r]@[l]) as int),
        decreases rows.len() - k,
    {
        let mut l: usize = 0;
        while l < rows[k].len()
            invariant
                k < rows.len(),
                l <= rows@[k as int]@.len(),
                rows.len() == old(rows).len(),
                forall|r: int| 0 <= r < rows.len() ==> (#[trigger] rows@[r])@.len() == old(rows)@[r]@.len(),
                forall|r: int, c: int|
                    0 <= r < k && 0 <= c < rows@[r]@.len() ==> within(range, (#[trigger] rows@[r]@[c]) as int),
                forall|c: int| 0 <= c < l ==> within(range, (#[trigger] rows@[k as int]@[c]) as int),
            decreases rows@[k as int]@.len() - l,
        {
            rows[k][l] = draw_weight(range);
            l += 1;
        }
        k += 1;
    }
}

/// Draws every weight of a layer anew for the layer's range.
fn redraw_layer(layer: &mut LayerSettings)
    requires
        old(layer).layer_weights is Some,
    ensures
        layer_redrawn(old(layer)@, final(layer)@),
{
    let range = layer.weight_range;
    match &mut layer.layer_weights {
        Some(rows) => {
            redraw_matrix(rows, range);
        },
        None => {},
    }
    let ghost after = layer.layer_weights->0;
    let ghost before = old(layer).layer_weights->0;
    assert forall|k: int| 0 <= k < matrix_view(before).len() implies (#[trigger] matrix_view(after)[k]).len()
        == matrix_view(before)[k].len() by {
        assert(after@[k]@.len() == before@[k]@.len());
    }
    assert forall|k: int, l: int|
        0 <= k < matrix_view(after).len() && 0 <= l < matrix_view(after)[k].len() implies within(
        range,
        (#[trigger] matrix_view(after)[k][l]) as int,
    ) by {
        assert(within(range, after@[k]@[l] as int));
    }
}

/// Draws every weight of a configuration anew.
fn redraw_settings(settings: &mut NeuralNetSettings)
    requires
        forall|i: int| 0 <= i < old(settings).layers@.len() ==> (#[trigger] old(settings).layers@[i]).layer_weights is Some,
    ensures
        redrawn(old(settings)@, final(settings)@),
{
    let mut i: usize = 0;
    while i < settings.layers.len()
        invariant
            i <= settings.layers.len(),
            settings.layers.len() == old(settings).layers.len(),
            settings.query_id == old(settings).query_id,
            settings.config_id == old(settings).config_id,
            settings.accuracy == old(settings).accuracy,
            settings.input_size == old(settings).input_size,
            forall|j: int| i <= j < settings.layers.len() ==> #[trigger] settings.layers@[j] == old(
                settings,
            ).layers@[j],
            forall|j: int| 0 <= j < old(settings).layers@.len() ==> (#[trigger] old(settings).layers@[j]).layer_weights is Some,
            forall|j: int|
                0 <= j < i ==> layer_redrawn(old(settings).layers@[j]@, (#[trigger] settings.layers@[j])@),
        decreases settings.layers.len() - i,
    {
        assert(settings.layers@[i as int] == old(settings).layers@[i as int]);
        redraw_layer(&mut settings.layers[i]);
        i += 1;
    }
    assert forall|j: int| 0 <= j < old(settings)@.layers.len() implies layer_redrawn(
        old(settings)@.layers[j],
        #[trigger] settings@.layers[j],
    ) by {
        assert(settings@.layers[j] == settings.layers@[j]@);
    }
}

/// Draws every weight of every configuration of a pool anew, each for the
/// range of its layer. Fails, and changes nothing, where a layer holds no
/// matrix.
pub fn reset_weights(recycled_settings: &mut Vec<NeuralNetSettings>) -> (outcome: Result<(), NNetError>)
    ensures
        outcome is Ok <==> all_weighted(pool_view(*old(recycled_settings))),
        outcome is Err ==> outcome == Err::<(), NNetError>(NNetError::UpdateMissingWeights)
            && *final(recycled_settings) == *old(recycled_settings),
        outcome is Ok ==> final(recycled_settings).len() == old(recycled_settings).len() && forall|c: int|
            0 <= c < old(recycled_settings).len() ==> redrawn(
                pool_view(*old(recycled_settings))[c],
                #[trigger] pool_view(*final(recycled_settings))[c],
            ),
{
    if !check_all_weighted(recycled_settings) {
        return Err(NNetError::UpdateMissingWeights);
    }
    let mut c: usize = 0;
    while c < recycled_settings.len()
        invariant
            c <= recycled_settings.len(),
            recycled_settings.len() == old(recycled_settings).len(),
            all_weighted(pool_view(*old(recycled_settings))),
            forall|d: int| c <= d < recycled_settings.len() ==> #[trigger] recycled_settings@[d] == old(
                recycled_settings,
            )@[d],
            forall|d: int|
                0 <= d < c ==> redrawn(old(recycled_settings)@[d]@, (#[trigger] recycled_settings@[d])@),
        decreases recycled_settings.len() - c,
    {
        assert forall|i: int| 0 <= i < recycled_settings@[c as int].layers@.len() implies (
        #[trigger] recycled_settings@[c as int].layers@[i]).layer_weights is Some by {
            assert(pool_view(*old(recycled_settings))[c as int].layers[i].layer_weights is Some);
        }
        redraw_settings(&mut recycled_settings[c]);
        c += 1;
    }
    assert forall|d: int| 0 <= d < old(recycled_settings).len() implies redrawn(
        pool_view(*old(recycled_settings))[d],
        #[trigger] pool_view(*recycled_settings)[d],
    ) by {
        assert(redrawn(old(recycled_settings)@[d]@, recycled_settings@[d]@));
    }
    Ok(())
}

} // verus!
