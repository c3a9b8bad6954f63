//! The weights that the units of a new layer start with.

use vstd::prelude::*;
use crate::classifier_parts::operators::repaired;
use crate::classifier_parts::random_source::random_below;
use crate::data_and_config::neural_net_config_parts::{
    copy_row, matrix_view, LayerSettings, LayerSettingsView, WeightRange,
};
use crate::fixed_point::{saturate, ONE_TENTH};
use crate::neural_network_parts::nnet_errors::NNetError;

verus! {

/// Whether a weight may be drawn for a range: it lies at or above the lower
/// limit and below the upper limit, once that was lifted above the lower one
/// where the two had met. A lower limit with no number above it allows itself.
pub open spec fn within(range: WeightRange, weight: int) -> bool {
    let limits = repaired(range.low as int, range.high as int);
    if limits.low < limits.high {
        limits.low <= weight < limits.high
    } else {
        weight == limits.low
    }
}

/// Draws a weight for a range.
pub fn draw_weight(range: WeightRange) -> (weight: i64)
    ensures
        within(range, weight as int),
{
    let high: i64 = if range.low >= range.high {
        saturate(range.low as i128 + ONE_TENTH as i128)
    } else {
        range.high
    };
    if range.low >= high {
        return range.low;
    }
    let span: u64 = (high as i128 - range.low as i128) as u64;
    let offset = random_below(span);
    (range.low as i128 + offset as i128) as i64
}

/// What is wrong with a weight matrix that is to serve `units` units of
/// `width` inputs each: another number of rows than units, or a row of
/// another length than `width`.
pub open spec fn rows_fault(rows: Seq<Seq<i64>>, units: int, width: int) -> Option<NNetError> {
    if rows.len() != units {
        Some(NNetError::WeightsInputLenMismatch)
    } else if exists|k: int| 0 <= k < rows.len() && rows[k].len() != width {
        Some(NNetError::WeightsNodeCountMismatch)
    } else {
        None
    }
}

/// What is wrong with the weight matrix of a layer that is to have
/// `input_size` inputs; nothing where it has none.
pub open spec fn node_fault(layer: LayerSettingsView, input_size: usize) -> Option<NNetError> {
    match layer.layer_weights {
        Some(rows) => rows_fault(rows, layer.output_units as int, input_size as int),
        None => None,
    }
}

/// Looks for what is wrong with a weight matrix.
pub fn find_rows_fault(rows: &Vec<Vec<i64>>, units: usize, width: usize) -> (fault: Option<NNetError>)
    ensures
        fault == rows_fault(matrix_view(*rows), units as int, width as int),
        fault is None ==> rows.len() == units && forall|k: int|
            0 <= k < rows.len() ==> (#[trigger] rows@[k])@.len() == width,
{
    if rows.len() != units {
        return Some(NNetError::WeightsInputLenMismatch);
    }
    let mut k: usize = 0;
    while k < rows.len()
        invariant
            k <= rows.len(),
            rows.len() == units,
            forall|i: int| 0 <= i < k ==> (#[trigger] rows@[i])@.len() == width,
        decreases rows.len() - k,
    {
        if rows[k].len() != width {
            assert(matrix_view(*rows)[k as int].len() != width);
            return Some(NNetError::WeightsNodeCountMismatch);
        }
        k += 1;
    }
    None
}

/// Looks for what is wrong with the weight matrix of a layer.
pub fn find_node_fault(layer_settings: &LayerSettings, input_size: usize) -> (fault: Option<NNetError>)
    ensures
        fault == node_fault(layer_settings@, input_size),
        fault is None ==> match layer_settings.layer_weights {
            Some(rows) => rows.len() == layer_settings.output_units && forall|k: int|
                0 <= k < rows.len() ==> (#[trigger] rows@[k])@.len() == input_size,
            None => true,
        },
{
    match &layer_settings.layer_weights {
        Some(rows) => find_rows_fault(rows, layer_settings.output_units, input_size),
        None => None,
    }
}

/// Appends to `new_nodes` the weights of the units of one layer: the rows of
/// the layer's matrix where it has one, and else, for each unit, one weight
/// drawn for the layer's range and repeated for every input. Fails, and
/// appends nothing, where the matrix does not fit the layer.
pub fn make_new_nodes(layer_settings: &LayerSettings, new_nodes: &mut Vec<Vec<i64>>, input_size: usize) -> (outcome:
    Result<(), NNetError>)
    ensures
        outcome == match node_fault(layer_settings@, input_size) {
            Some(fault) => Err::<(), NNetError>(fault),
            None => Ok(()),
        },
        outcome is Err ==> *final(new_nodes) == *old(new_nodes),
        outcome is Ok ==> {
            &&& final(new_nodes).len() == old(new_nodes).len() + layer_settings.output_units
            &&& forall|i: int| 0 <= i < old(new_nodes).len() ==> final(new_nodes)@[i] == old(new_nodes)@[i]
            &&& forall|k: int|
                0 <= k < layer_settings.output_units ==> (#[trigger] final(new_nodes)@[old(new_nodes).len()
                    + k])@.len() == input_size
            &&& match layer_settings@.layer_weights {
                Some(rows) => forall|k: int|
                    0 <= k < layer_settings.output_units ==> (#[trigger] final(new_nodes)@[old(
                        new_nodes,
                    ).len() + k])@ == rows[k],
                None => forall|k: int, l: int|
                    0 <= k < layer_settings.output_units && 0 <= l < input_size ==> {
                        &&& within(
                            layer_settings.weight_range,
                            (#[trigger] final(new_nodes)@[old(new_nodes).len() + k]@[l]) as int,
                        )
                        &&& final(new_nodes)@[old(new_nodes).len() + k]@[l] == final(new_nodes)@[old(
                            new_nodes,
                        ).len() + k]@[0]
                    },
            }
        },
{
    if let Some(fault) = find_node_fault(layer_settings, input_size) {
        return Err(fault);
    }
    let ghost before = new_nodes@;
    match &layer_settings.layer_weights {
        Some(rows) => {
            let mut k: usize = 0;
            while k < rows.len()
                invariant
                    k <= rows.len(),
                    rows.len() == layer_settings.output_units,
                    layer_settings.layer_weights == Some(*rows),
                    forall|i: int| 0 <= i < rows.len() ==> (#[trigger] rows@[i])@.len() == input_size,
                    new_nodes.len() == before.len() + k,
                    forall|i: int| 0 <= i < before.len() ==> new_nodes@[i] == before[i],
                    forall|i: int| 0 <= i < k ==> (#[trigger] new_nodes@[before.len() + i])@ == rows@[i]@,
                decreases rows.len() - k,
            {
                new_nodes.push(copy_row(&rows[k]));
                k += 1;
            }
        },
        None => {
            let mut k: usize = 0;
            while k < layer_settings.output_units
                invariant
                    k <= layer_settings.output_units,
                    new_nodes.len() == before.len() + k,
                    forall|i: int| 0 <= i < before.len() ==> new_nodes@[i] == before[i],
                    forall|i: int| 0 <= i < k ==> (#[trigger] new_nodes@[before.len() + i])@.len() == input_size,
                    forall|i: int, l: int|
                        0 <= i < k && 0 <= l < input_size ==> {
                            &&& within(
                                layer_settings.weight_range,
                                (#[trigger] new_nodes@[before.len() + i]@[l]) as int,
                            )
                            &&& new_nodes@[before.len() + i]@[l] == new_nodes@[before.len() + i]@[0]
                        },
                decreases layer_settings.output_units - k,
            {
                let weight = draw_weight(layer_settings.weight_range);
                let mut row: Vec<i64> = Vec::new();
                let mut l: usize = 0;
                while l < input_size
                    invariant
                        l <= input_size,
                        row.len() == l,
                        forall|c: int| 0 <= c < l ==> row@[c] == weight,
                    decreases input_size - l,
                {
                    row.push(weight);
                    l += 1;
                }
                new_nodes.push(row);
                k += 1;
            }
        },
    }
    Ok(())
}

} // verus!
