//! The breeding operators as exact functions of their arguments.
//!
//! Every operator writes into a child that the caller has seeded, reading from
//! one or two parents. Where an operator needs random numbers it takes them as
//! an argument: `Breeder` draws them and hands them on.

use vstd::prelude::*;
use crate::data_and_config::neural_net_config_parts::{
    matrix_view, LayerSettings, LayerSettingsView, NeuralNetSettings, NeuralNetSettingsView,
    WeightRange,
};
use crate::fixed_point::{blend, blended, saturate, saturated, ONE, ONE_TENTH};
use crate::neural_network_parts::nnet_errors::{or_else, NNetError};

verus! {

/// Which hyperparameters the operators may change. A hyperparameter whose gate
/// is closed keeps the value that the child was seeded with.
#[derive(Clone, Copy, Debug, PartialEq, Eq, Structural)]
pub struct HyperParameterGates {
    pub learning_rate: bool,
    pub bias: bool,
    pub momentum: bool,
    pub upper_weight_limit: bool,
    pub lower_weight_limit: bool,
}

/// One random change: how large, and in which direction.
#[derive(Clone, Copy, Debug, PartialEq, Eq, Structural)]
pub struct Mutation {
    pub magnitude: u64,
    pub negative: bool,
}

/// The change that a mutation stands for.
pub open spec fn signed(mutation: Mutation) -> int {
    if mutation.negative {
        -(mutation.magnitude as int)
    } else {
        mutation.magnitude as int
    }
}

/// A value moved by `change`, or moved the other way where that would leave
/// it at zero or below.
pub open spec fn kept_positive(value: int, change: int) -> int {
    if value + change > 0 {
        saturated(value + change)
    } else {
        saturated(value - change)
    }
}

/// The range `[low, high]`, with `high` lifted to `low + 0.1` where the two
/// have met or crossed.
pub open spec fn repaired(low: int, high: int) -> WeightRange {
    WeightRange {
        low: low as i64,
        high: if low >= high {
            saturated(low + ONE_TENTH) as i64
        } else {
            high as i64
        },
    }
}

/// Whether the lower limit of a range is below its upper limit, or else is
/// the largest number there is, above which no upper limit fits.
pub open spec fn kept_open(range: WeightRange) -> bool {
    range.low < range.high || range.low == i64::MAX
}

/// Whether the range of weights of every layer of a configuration is open.
pub open spec fn ranges_open(settings: NeuralNetSettingsView) -> bool {
    forall|j: int| 0 <= j < settings.layers.len() ==> kept_open((#[trigger] settings.layers[j]).weight_range)
}

/// A configuration with the range of weights of every layer repaired.
pub open spec fn ranges_repaired(settings: NeuralNetSettingsView) -> NeuralNetSettingsView {
    NeuralNetSettingsView {
        layers: Seq::new(
            settings.layers.len(),
            |j: int|
                LayerSettingsView {
                    weight_range: repaired(
                        settings.layers[j].weight_range.low as int,
                        settings.layers[j].weight_range.high as int,
                    ),
                    ..settings.layers[j]
                },
        ),
        ..settings
    }
}

/// Whether the hyperparameters of every layer of `child` are in order after
/// an operator on hyperparameters: the range of weights is open, and a
/// learning rate or a momentum whose gate is open is not negative in a
/// layer for which `rate_sound` or `momentum_sound` says that it was not
/// negative in the parents.
pub open spec fn hyper_parameters_in_order(
    child: NeuralNetSettingsView,
    gates: HyperParameterGates,
    rate_sound: spec_fn(int) -> bool,
    momentum_sound: spec_fn(int) -> bool,
) -> bool {
    forall|j: int|
        0 <= j < child.layers.len() ==> {
            &&& kept_open((#[trigger] child.layers[j]).weight_range)
            &&& gates.learning_rate && rate_sound(j) ==> child.layers[j].learning_rate >= 0
            &&& gates.momentum && momentum_sound(j) ==> child.layers[j].momentum >= 0
        }
}

/// A layer of the child after annealing its hyperparameters from `parent`.
/// One change serves the whole layer. Learning rate and momentum turn the
/// change round rather than become non-positive; the upper weight limit turns
/// it round rather than become non-positive, and the lower one rather than
/// become non-negative, each for what follows it too.
pub open spec fn sa_hyper_layer(
    child: LayerSettingsView,
    parent: LayerSettingsView,
    gates: HyperParameterGates,
    mutation: Mutation,
) -> LayerSettingsView {
    let first = signed(mutation);
    let second = if gates.upper_weight_limit && parent.weight_range.high + first <= 0 {
        -first
    } else {
        first
    };
    let third = if gates.lower_weight_limit && parent.weight_range.low + second >= 0 {
        -second
    } else {
        second
    };
    let high = if gates.upper_weight_limit {
        saturated(parent.weight_range.high + second)
    } else {
        child.weight_range.high as int
    };
    let low = if gates.lower_weight_limit {
        saturated(parent.weight_range.low + third)
    } else {
        child.weight_range.low as int
    };
    LayerSettingsView {
        learning_rate: if gates.learning_rate {
            kept_positive(parent.learning_rate as int, first) as i64
        } else {
            child.learning_rate
        },
        bias: if gates.bias {
            saturated(parent.bias + first) as i64
        } else {
            child.bias
        },
        momentum: if gates.momentum {
            kept_positive(parent.momentum as int, first) as i64
        } else {
            child.momentum
        },
        weight_range: repaired(low, high),
        ..child
    }
}

/// A layer of the child after crossing the hyperparameters of two parents:
/// each open hyperparameter is the blend of the parents' values, with
/// `favoured` as the share of the first.
pub open spec fn ga_hyper_layer(
    child: LayerSettingsView,
    parent1: LayerSettingsView,
    parent2: LayerSettingsView,
    gates: HyperParameterGates,
    favoured: int,
) -> LayerSettingsView {
    let high = if gates.upper_weight_limit {
        blended(parent1.weight_range.high as int, parent2.weight_range.high as int, favoured)
    } else {
        child.weight_range.high as int
    };
    let low = if gates.lower_weight_limit {
        blended(parent1.weight_range.low as int, parent2.weight_range.low as int, favoured)
    } else {
        child.weight_range.low as int
    };
    LayerSettingsView {
        learning_rate: if gates.learning_rate {
            blended(parent1.learning_rate as int, parent2.learning_rate as int, favoured) as i64
        } else {
            child.learning_rate
        },
        bias: if gates.bias {
            blended(parent1.bias as int, parent2.bias as int, favoured) as i64
        } else {
            child.bias
        },
        momentum: if gates.momentum {
            blended(parent1.momentum as int, parent2.momentum as int, favoured) as i64
        } else {
            child.momentum
        },
        weight_range: repaired(low, high),
        ..child
    }
}

/// The child after annealing the hyperparameters of every layer, the layer
/// `j` with the draw `draws[j]`.
pub open spec fn sa_hyper_child(
    child: NeuralNetSettingsView,
    parent: NeuralNetSettingsView,
    gates: HyperParameterGates,
    draws: Seq<Mutation>,
) -> NeuralNetSettingsView {
    NeuralNetSettingsView {
        layers: Seq::new(
            child.layers.len(),
            |j: int| sa_hyper_layer(child.layers[j], parent.layers[j], gates, draws[j]),
        ),
        ..child
    }
}

/// The child after crossing the hyperparameters of every layer.
pub open spec fn ga_hyper_child(
    child: NeuralNetSettingsView,
    parent1: NeuralNetSettingsView,
    parent2: NeuralNetSettingsView,
    gates: HyperParameterGates,
    favoured: int,
) -> NeuralNetSettingsView {
    NeuralNetSettingsView {
        layers: Seq::new(
            child.layers.len(),
            |j: int| ga_hyper_layer(child.layers[j], parent1.layers[j], parent2.layers[j], gates, favoured),
        ),
        ..child
    }
}

/// Moves `value` by `change`, the other way where it would not stay positive.
fn keep_positive(value: i64, change: i128) -> (moved: i64)
    requires
        -0x1_0000_0000_0000_0000 <= change <= 0x1_0000_0000_0000_0000,
    ensures
        moved as int == kept_positive(value as int, change as int),
{
    if value as i128 + change > 0 {
        saturate(value as i128 + change)
    } else {
        saturate(value as i128 - change)
    }
}

/// Lifts the upper limit to `low + 0.1` where the limits have met or crossed.
fn repair(range: &mut WeightRange)
    ensures
        *final(range) == repaired(old(range).low as int, old(range).high as int),
{
    if range.low >= range.high {
        range.high = saturate(range.low as i128 + ONE_TENTH as i128);
    }
}

/// Lifts the upper weight limit of every layer whose limits have met or
/// crossed to 0.1 above the lower one.
pub fn repair_ranges(settings: &mut NeuralNetSettings)
    ensures
        final(settings)@ == ranges_repaired(old(settings)@),
        ranges_open(final(settings)@),
{
    let mut j: usize = 0;
    while j < settings.layers.len()
        invariant
            j <= settings.layers.len(),
            settings.layers.len() == old(settings).layers.len(),
            settings.query_id == old(settings).query_id,
            settings.config_id == old(settings).config_id,
            settings.accuracy == old(settings).accuracy,
            settings.input_size == old(settings).input_size,
            forall|i: int| j <= i < settings.layers.len() ==> #[trigger] settings.layers@[i] == old(
                settings,
            ).layers@[i],
            forall|i: int|
                0 <= i < j ==> (#[trigger] settings.layers@[i])@ == (LayerSettingsView {
                    weight_range: repaired(
                        old(settings).layers@[i].weight_range.low as int,
                        old(settings).layers@[i].weight_range.high as int,
                    ),
                    ..old(settings).layers@[i]@
                }),
        decreases settings.layers.len() - j,
    {
        repair(&mut settings.layers[j].weight_range);
        j += 1;
    }
    assert(settings@.layers =~= ranges_repaired(old(settings)@).layers);
}

/// Anneals the hyperparameters of one layer.
fn anneal_hyper_layer(
    child: &mut LayerSettings,
    parent: &LayerSettings,
    gates: HyperParameterGates,
    mutation: Mutation,
)
    ensures
        final(child)@ == sa_hyper_layer(old(child)@, parent@, gates, mutation),
{
    let mut change: i128 = if mutation.negative {
        -(mutation.magnitude as i128)
    } else {
        mutation.magnitude as i128
    };
    if gates.learning_rate {
        child.learning_rate = keep_positive(parent.learning_rate, change);
    }
    if gates.bias {
        child.bias = saturate(parent.bias as i128 + change);
    }
    if gates.momentum {
        child.momentum = keep_positive(parent.momentum, change);
    }
    if gates.upper_weight_limit {
        if parent.weight_range.high as i128 + change <= 0 {
            change = -change;
        }
        child.weight_range.high = saturate(parent.weight_range.high as i128 + change);
    }
    if gates.lower_weight_limit {
        if parent.weight_range.low as i128 + change >= 0 {
            change = -change;
        }
        child.weight_range.low = saturate(parent.weight_range.low as i128 + change);
    }
    repair(&mut child.weight_range);
}

/// Crosses the hyperparameters of one layer.
fn cross_hyper_layer(
    child: &mut LayerSettings,
    parent1: &LayerSettings,
    parent2: &LayerSettings,
    gates: HyperParameterGates,
    favoured: u64,
)
    requires
        favoured <= ONE as u64,
    ensures
        final(child)@ == ga_hyper_layer(old(child)@, parent1@, parent2@, gates, favoured as int),
{
    if gates.learning_rate {
        child.learning_rate = blend(parent1.learning_rate, parent2.learning_rate, favoured);
    }
    if gates.bias {
        child.bias = blend(parent1.bias, parent2.bias, favoured);
    }
    if gates.momentum {
        child.momentum = blend(parent1.momentum, parent2.momentum, favoured);
    }
    if gates.upper_weight_limit {
        child.weight_range.high = blend(parent1.weight_range.high, parent2.weight_range.high, favoured);
    }
    if gates.lower_weight_limit {
        child.weight_range.low = blend(parent1.weight_range.low, parent2.weight_range.low, favoured);
    }
    repair(&mut child.weight_range);
}

/// Anneals the hyperparameters of every layer of `child` from `parent`, the
/// layer `j` with `draws[j]`. Fails, and leaves the child as it was, where the
/// parent or the draws are fewer than the child's layers.
pub fn sa_hyper_parameters_from(
    child: &mut NeuralNetSettings,
    parent: &NeuralNetSettings,
    gates: HyperParameterGates,
    draws: &Vec<Mutation>,
) -> (outcome: Result<(), NNetError>)
    ensures
        outcome is Err <==> (parent.layers.len() < old(child).layers.len() || draws.len() < old(
            child,
        ).layers.len()),
        outcome is Err ==> outcome == Err::<(), NNetError>(NNetError::LayerCountMismatch)
            && *final(child) == *old(child),
        outcome is Ok ==> final(child)@ == sa_hyper_child(old(child)@, parent@, gates, draws@),
        outcome is Ok ==> hyper_parameters_in_order(
            final(child)@,
            gates,
            |j: int| parent@.layers[j].learning_rate >= 0,
            |j: int| parent@.layers[j].momentum >= 0,
        ),
{
    let count = child.layers.len();
    if parent.layers.len() < count || draws.len() < count {
        return Err(NNetError::LayerCountMismatch);
    }
    let mut j: usize = 0;
    while j < count
        invariant
            j <= count,
            count == old(child).layers.len(),
            count <= parent.layers.len(),
            count <= draws.len(),
            child.layers.len() == count,
            child.query_id == old(child).query_id,
            child.config_id == old(child).config_id,
            child.accuracy == old(child).accuracy,
            child.input_size == old(child).input_size,
            forall|i: int|
                0 <= i < j ==> (#[trigger] child.layers@[i])@ == sa_hyper_layer(
                    old(child).layers@[i]@,
                    parent.layers@[i]@,
                    gates,
                    draws@[i],
                ),
            forall|i: int| j <= i < count ==> #[trigger] child.layers@[i] == old(child).layers@[i],
        decreases count - j,
    {
        anneal_hyper_layer(&mut child.layers[j], &parent.layers[j], gates, draws[j]);
        j += 1;
    }
    assert(child@.layers =~= sa_hyper_child(old(child)@, parent@, gates, draws@).layers);
    proof {
        assert forall|j: int| 0 <= j < child@.layers.len() implies {
            &&& kept_open((#[trigger] child@.layers[j]).weight_range)
            &&& gates.learning_rate && parent@.layers[j].learning_rate >= 0 ==> child@.layers[j].learning_rate
                >= 0
            &&& gates.momentum && parent@.layers[j].momentum >= 0 ==> child@.layers[j].momentum >= 0
        } by {
            lemma_sa_hyper_keeps_rates_non_negative(old(child)@, parent@, gates, draws@, j);
            if child@.layers[j].weight_range.low < i64::MAX {
                lemma_sa_hyper_keeps_range_open(old(child)@, parent@, gates, draws@, j);
            }
        }
    }
    Ok(())
}

/// Crosses the hyperparameters of every layer of `child` from two parents,
/// with `favoured` as the share of the first. Fails, and leaves the child as
/// it was, where a parent has fewer layers than the child.
pub fn ga_hyper_parameters_from(
    child: &mut NeuralNetSettings,
    parent1: &NeuralNetSettings,
    parent2: &NeuralNetSettings,
    gates: HyperParameterGates,
    favoured: u64,
) -> (outcome: Result<(), NNetError>)
    requires
        favoured <= ONE as u64,
    ensures
        outcome is Err <==> (parent1.layers.len() < old(child).layers.len() || parent2.layers.len()
            < old(child).layers.len()),
        outcome is Err ==> outcome == Err::<(), NNetError>(NNetError::LayerCountMismatch)
            && *final(child) == *old(child),
        outcome is Ok ==> final(child)@ == ga_hyper_child(
            old(child)@,
            parent1@,
            parent2@,
            gates,
            favoured as int,
        ),
        outcome is Ok ==> hyper_parameters_in_order(
            final(child)@,
            gates,
            |j: int| parent1@.layers[j].learning_rate >= 0 && parent2@.layers[j].learning_rate >= 0,
            |j: int| parent1@.layers[j].momentum >= 0 && parent2@.layers[j].momentum >= 0,
        ),
{
    let count = child.layers.len();
    if parent1.layers.len() < count || parent2.layers.len() < count {
        return Err(NNetError::LayerCountMismatch);
    }
    let mut j: usize = 0;
    while j < count
        invariant
            j <= count,
            favoured <= ONE as u64,
            count == old(child).layers.len(),
            count <= parent1.layers.len(),
            count <= parent2.layers.len(),
            child.layers.len() == count,
            child.query_id == old(child).query_id,
            child.config_id == old(child).config_id,
            child.accuracy == old(child).accuracy,
            child.input_size == old(child).input_size,
            forall|i: int|
                0 <= i < j ==> (#[trigger] child.layers@[i])@ == ga_hyper_layer(
                    old(child).layers@[i]@,
                    parent1.layers@[i]@,
                    parent2.layers@[i]@,
                    gates,
                    favoured as int,
                ),
            forall|i: int| j <= i < count ==> #[trigger] child.layers@[i] == old(child).layers@[i],
        decreases count - j,
    {
        cross_hyper_layer(&mut child.layers[j], &parent1.layers[j], &parent2.layers[j], gates, favoured);
        j += 1;
    }
    assert(child@.layers =~= ga_hyper_child(old(child)@, parent1@, parent2@, gates, favoured as int).layers);
    proof {
        assert forall|j: int| 0 <= j < child@.layers.len() implies {
            &&& kept_open((#[trigger] child@.layers[j]).weight_range)
            &&& gates.learning_rate && parent1@.layers[j].learning_rate >= 0 && parent2@.layers[j].learning_rate
                >= 0 ==> child@.layers[j].learning_rate >= 0
            &&& gates.momentum && parent1@.layers[j].momentum >= 0 && parent2@.layers[j].momentum >= 0
                ==> child@.layers[j].momentum >= 0
        } by {
            lemma_ga_hyper_keeps_rates_non_negative(
                old(child)@,
                parent1@,
                parent2@,
                gates,
                favoured as int,
                j,
            );
            if child@.layers[j].weight_range.low < i64::MAX {
                lemma_ga_hyper_keeps_range_open(old(child)@, parent1@, parent2@, gates, favoured as int, j);
            }
        }
    }
    Ok(())
}

/// What keeps `other` from serving every place of `child`: too few rows, or a
/// row that is too short.
pub open spec fn matrix_fault<T>(child: Seq<Seq<i64>>, other: Seq<Seq<T>>) -> Option<NNetError> {
    if other.len() < child.len() {
        Some(NNetError::WeightsInputLenMismatch)
    } else if exists|k: int| 0 <= k < child.len() && other[k].len() < child[k].len() {
        Some(NNetError::WeightsNodeCountMismatch)
    } else {
        None
    }
}

/// A weight moved by a mutation.
pub open spec fn annealed(weight: int, mutation: Mutation) -> int {
    saturated(weight + signed(mutation))
}

/// The child's matrix after annealing: every weight is the parent's weight at
/// that place, moved by the draw at that place.
pub open spec fn sa_weights_matrix(
    child: Seq<Seq<i64>>,
    parent: Seq<Seq<i64>>,
    draws: Seq<Seq<Mutation>>,
) -> Seq<Seq<i64>> {
    Seq::new(
        child.len(),
        |k: int| Seq::new(child[k].len(), |l: int| annealed(parent[k][l] as int, draws[k][l]) as i64),
    )
}

/// The child's matrix after a weighted crossover: every weight is the blend
/// of the parents' weights at that place.
pub open spec fn ga_blend_matrix(
    child: Seq<Seq<i64>>,
    parent1: Seq<Seq<i64>>,
    parent2: Seq<Seq<i64>>,
    favoured: int,
) -> Seq<Seq<i64>> {
    Seq::new(
        child.len(),
        |k: int|
            Seq::new(
                child[k].len(),
                |l: int| blended(parent1[k][l] as int, parent2[k][l] as int, favoured) as i64,
            ),
    )
}

/// The child's matrix after a crossover by rows: the row `k` comes whole from
/// the first parent where `preferences[k]` is below `favoured`, and whole
/// from the second otherwise.
pub open spec fn ga_swap_matrix(
    child: Seq<Seq<i64>>,
    parent1: Seq<Seq<i64>>,
    parent2: Seq<Seq<i64>>,
    favoured: int,
    preferences: Seq<u64>,
) -> Seq<Seq<i64>> {
    Seq::new(
        child.len(),
        |k: int|
            if preferences[k] < favoured {
                parent1[k].subrange(0, child[k].len() as int)
            } else {
                parent2[k].subrange(0, child[k].len() as int)
            },
    )
}

/// Looks for what keeps `other` from serving every place of `child`.
pub fn find_matrix_fault<T>(child: &Vec<Vec<i64>>, other: &Vec<Vec<T>>) -> (fault: Option<NNetError>)
    ensures
        fault == matrix_fault(matrix_view(*child), matrix_view(*other)),
        fault is None ==> other.len() >= child.len() && forall|i: int|
            0 <= i < child.len() ==> other@[i]@.len() >= (#[trigger] child@[i])@.len(),
{
    if other.len() < child.len() {
        return Some(NNetError::WeightsInputLenMismatch);
    }
    let mut k: usize = 0;
    while k < child.len()
        invariant
            k <= child.len() <= other.len(),
            forall|i: int| 0 <= i < k ==> other@[i]@.len() >= (#[trigger] child@[i])@.len(),
        decreases child.len() - k,
    {
        if other[k].len() < child[k].len() {
            assert(matrix_view(*other)[k as int].len() < matrix_view(*child)[k as int].len());
            return Some(NNetError::WeightsNodeCountMismatch);
        }
        k += 1;
    }
    None
}

/// Anneals the child's matrix from the parent's, place by place, with the
/// draw at the same place. Fails, and leaves the child as it was, where the
/// parent or the draws do not reach every place of the child.
pub fn anneal_weights_from(
    child: &mut Vec<Vec<i64>>,
    parent: &Vec<Vec<i64>>,
    draws: &Vec<Vec<Mutation>>,
) -> (outcome: Result<(), NNetError>)
    ensures
        outcome == match or_else(
            matrix_fault(matrix_view(*old(child)), matrix_view(*parent)),
            matrix_fault(matrix_view(*old(child)), matrix_view(*draws)),
        ) {
            Some(fault) => Err::<(), NNetError>(fault),
            None => Ok(()),
        },
        outcome is Err ==> *final(child) == *old(child),
        outcome is Ok ==> matrix_view(*final(child)) == sa_weights_matrix(
            matrix_view(*old(child)),
            matrix_view(*parent),
            matrix_view(*draws),
        ),
{
    if let Some(fault) = find_matrix_fault(child, parent) {
        return Err(fault);
    }
    if let Some(fault) = find_matrix_fault(child, draws) {
        return Err(fault);
    }
    let rows = child.len();
    let mut k: usize = 0;
    while k < rows
        invariant
            k <= rows,
            rows == child.len() == old(child).len(),
            rows <= parent.len(),
            rows <= draws.len(),
            forall|i: int| 0 <= i < rows ==> (#[trigger] child@[i])@.len() == old(child)@[i]@.len(),
            forall|i: int| 0 <= i < rows ==> parent@[i]@.len() >= (#[trigger] old(child)@[i])@.len(),
            forall|i: int| 0 <= i < rows ==> draws@[i]@.len() >= (#[trigger] old(child)@[i])@.len(),
            forall|i: int, l: int|
                0 <= i < k && 0 <= l < child@[i]@.len() ==> #[trigger] child@[i]@[l] as int
                    == annealed(parent@[i]@[l] as int, draws@[i]@[l]),
        decreases rows - k,
    {
        let columns = child[k].len();
        let mut l: usize = 0;
        while l < columns
            invariant
                l <= columns,
                k < rows,
                rows == child.len() == old(child).len(),
                rows <= parent.len(),
                rows <= draws.len(),
                columns == child@[k as int]@.len(),
                forall|i: int| 0 <= i < rows ==> (#[trigger] child@[i])@.len() == old(child)@[i]@.len(),
                forall|i: int| 0 <= i < rows ==> parent@[i]@.len() >= (#[trigger] old(child)@[i])@.len(),
                forall|i: int| 0 <= i < rows ==> draws@[i]@.len() >= (#[trigger] old(child)@[i])@.len(),
                forall|i: int, c: int|
                    0 <= i < k && 0 <= c < child@[i]@.len() ==> #[trigger] child@[i]@[c] as int
                        == annealed(parent@[i]@[c] as int, draws@[i]@[c]),
                forall|c: int|
                    0 <= c < l ==> #[trigger] child@[k as int]@[c] as int == annealed(
                        parent@[k as int]@[c] as int,
                        draws@[k as int]@[c],
                    ),
            decreases columns - l,
        {
            let mutation = draws[k][l];
            let change: i128 = if mutation.negative {
                -(mutation.magnitude as i128)
            } else {
                mutation.magnitude as i128
            };
            child[k][l] = saturate(parent[k][l] as i128 + change);
            l += 1;
        }
        k += 1;
    }
    assert(matrix_view(*child) =~~= sa_weights_matrix(
        matrix_view(*old(child)),
        matrix_view(*parent),
        matrix_view(*draws),
    ));
    Ok(())
}

/// Crosses the child's matrix from two parents' matrices, place by place, by
/// blending. Fails, and leaves the child as it was, where a parent does not
/// reach every place of the child.
pub fn blend_weights_from(
    child: &mut Vec<Vec<i64>>,
    parent1: &Vec<Vec<i64>>,
    parent2: &Vec<Vec<i64>>,
    favoured: u64,
) -> (outcome: Result<(), NNetError>)
    requires
        favoured <= ONE as u64,
    ensures
        outcome == match or_else(
            matrix_fault(matrix_view(*old(child)), matrix_view(*parent1)),
            matrix_fault(matrix_view(*old(child)), matrix_view(*parent2)),
        ) {
            Some(fault) => Err::<(), NNetError>(fault),
            None => Ok(()),
        },
        outcome is Err ==> *final(child) == *old(child),
        outcome is Ok ==> matrix_view(*final(child)) == ga_blend_matrix(
            matrix_view(*old(child)),
            matrix_view(*parent1),
            matrix_view(*parent2),
            favoured as int,
        ),
{
    if let Some(fault) = find_matrix_fault(child, parent1) {
        return Err(fault);
    }
    if let Some(fault) = find_matrix_fault(child, parent2) {
        return Err(fault);
    }
    let rows = child.len();
    let mut k: usize = 0;
    while k < rows
        invariant
            k <= rows,
            favoured <= ONE as u64,
            rows == child.len() == old(child).len(),
            rows <= parent1.len(),
            rows <= parent2.len(),
            forall|i: int| 0 <= i < rows ==> (#[trigger] child@[i])@.len() == old(child)@[i]@.len(),
            forall|i: int| 0 <= i < rows ==> parent1@[i]@.len() >= (#[trigger] old(child)@[i])@.len(),
            forall|i: int| 0 <= i < rows ==> parent2@[i]@.len() >= (#[trigger] old(child)@[i])@.len(),
            forall|i: int, c: int|
                0 <= i < k && 0 <= c < child@[i]@.len() ==> #[trigger] child@[i]@[c] as int
                    == blended(parent1@[i]@[c] as int, parent2@[i]@[c] as int, favoured as int),
        decreases rows - k,
    {
        let columns = child[k].len();
        let mut l: usize = 0;
        while l < columns
            invariant
                l <= columns,
                k < rows,
                favoured <= ONE as u64,
                rows == child.len() == old(child).len(),
                rows <= parent1.len(),
                rows <= parent2.len(),
                columns == child@[k as int]@.len(),
                forall|i: int| 0 <= i < rows ==> (#[trigger] child@[i])@.len() == old(child)@[i]@.len(),
                forall|i: int| 0 <= i < rows ==> parent1@[i]@.len() >= (#[trigger] old(child)@[i])@.len(),
                forall|i: int| 0 <= i < rows ==> parent2@[i]@.len() >= (#[trigger] old(child)@[i])@.len(),
                forall|i: int, c: int|
                    0 <= i < k && 0 <= c < child@[i]@.len() ==> #[trigger] child@[i]@[c] as int
                        == blended(parent1@[i]@[c] as int, parent2@[i]@[c] as int, favoured as int),
                forall|c: int|
                    0 <= c < l ==> #[trigger] child@[k as int]@[c] as int == blended(
                        parent1@[k as int]@[c] as int,
                        parent2@[k as int]@[c] as int,
                        favoured as int,
                    ),
            decreases columns - l,
        {
            child[k][l] = blend(parent1[k][l], parent2[k][l], favoured);
            l += 1;
        }
        k += 1;
    }
    assert(matrix_view(*child) =~~= ga_blend_matrix(
        matrix_view(*old(child)),
        matrix_view(*parent1),
        matrix_view(*parent2),
        favoured as int,
    ));
    Ok(())
}

/// What keeps a crossover by rows from serving every row of `child`: a parent
/// that does not reach every place, or too few preferences.
pub open spec fn swap_fault(
    child: Seq<Seq<i64>>,
    parent1: Seq<Seq<i64>>,
    parent2: Seq<Seq<i64>>,
    preferences: Seq<u64>,
) -> Option<NNetError> {
    or_else(
        or_else(matrix_fault(child, parent1), matrix_fault(child, parent2)),
        if preferences.len() < child.len() {
            Some(NNetError::WeightsInputLenMismatch)
        } else {
            None
        },
    )
}

/// Crosses the child's matrix from two parents' matrices by whole rows: the
/// row `k` is the first parent's where `preferences[k]` is below `favoured`,
/// the second parent's otherwise. Fails, and leaves the child as it was, where
/// a parent does not reach every place of the child or the preferences are
/// fewer than its rows.
pub fn swap_weights_from(
    child: &mut Vec<Vec<i64>>,
    parent1: &Vec<Vec<i64>>,
    parent2: &Vec<Vec<i64>>,
    favoured: u64,
    preferences: &Vec<u64>,
) -> (outcome: Result<(), NNetError>)
    ensures
        outcome == match swap_fault(
            matrix_view(*old(child)),
            matrix_view(*parent1),
            matrix_view(*parent2),
            preferences@,
        ) {
            Some(fault) => Err::<(), NNetError>(fault),
            None => Ok(()),
        },
        outcome is Err ==> *final(child) == *old(child),
        outcome is Ok ==> matrix_view(*final(child)) == ga_swap_matrix(
            matrix_view(*old(child)),
            matrix_view(*parent1),
            matrix_view(*parent2),
            favoured as int,
            preferences@,
        ),
{
    if let Some(fault) = find_matrix_fault(child, parent1) {
        return Err(fault);
    }
    if let Some(fault) = find_matrix_fault(child, parent2) {
        return Err(fault);
    }
    if preferences.len() < child.len() {
        return Err(NNetError::WeightsInputLenMismatch);
    }
    let rows = child.len();
    let mut k: usize = 0;
    while k < rows
        invariant
            k <= rows,
            rows == child.len() == old(child).len(),
            rows <= parent1.len(),
            rows <= parent2.len(),
            rows <= preferences.len(),
            forall|i: int| 0 <= i < rows ==> (#[trigger] child@[i])@.len() == old(child)@[i]@.len(),
            forall|i: int| 0 <= i < rows ==> parent1@[i]@.len() >= (#[trigger] old(child)@[i])@.len(),
            forall|i: int| 0 <= i < rows ==> parent2@[i]@.len() >= (#[trigger] old(child)@[i])@.len(),
            forall|i: int, c: int|
                0 <= i < k && 0 <= c < child@[i]@.len() ==> #[trigger] child@[i]@[c] == (if preferences@[i]
                    < favoured {
                    parent1@[i]@[c]
                } else {
                    parent2@[i]@[c]
                }),
        decreases rows - k,
    {
        let from_first = preferences[k] < favoured;
        let columns = child[k].len();
        let mut l: usize = 0;
        while l < columns
            invariant
                l <= columns,
                k < rows,
                from_first == (preferences@[k as int] < favoured),
                rows == child.len() == old(child).len(),
                rows <= parent1.len(),
                rows <= parent2.len(),
                rows <= preferences.len(),
                columns == child@[k as int]@.len(),
                forall|i: int| 0 <= i < rows ==> (#[trigger] child@[i])@.len() == old(child)@[i]@.len(),
                forall|i: int| 0 <= i < rows ==> parent1@[i]@.len() >= (#[trigger] old(child)@[i])@.len(),
                forall|i: int| 0 <= i < rows ==> parent2@[i]@.len() >= (#[trigger] old(child)@[i])@.len(),
                forall|i: int, c: int|
                    0 <= i < k && 0 <= c < child@[i]@.len() ==> #[trigger] child@[i]@[c] == (if preferences@[i]
                        < favoured {
                        parent1@[i]@[c]
                    } else {
                        parent2@[i]@[c]
                    }),
                forall|c: int|
                    0 <= c < l ==> #[trigger] child@[k as int]@[c] == (if from_first {
                        parent1@[k as int]@[c]
                    } else {
                        parent2@[k as int]@[c]
                    }),
            decreases columns - l,
        {
            if from_first {
                child[k][l] = parent1[k][l];
            } else {
                child[k][l] = parent2[k][l];
            }
            l += 1;
        }
        k += 1;
    }
    assert(matrix_view(*child) =~~= ga_swap_matrix(
        matrix_view(*old(child)),
        matrix_view(*parent1),
        matrix_view(*parent2),
        favoured as int,
        preferences@,
    ));
    Ok(())
}

/// What keeps `parent` from serving every place of one layer of the child:
/// a matrix that either of them lacks, which is reported as `missing`, or a
/// parent's matrix that is too small.
pub open spec fn layer_fault(
    child: LayerSettingsView,
    parent: LayerSettingsView,
    missing: NNetError,
) -> Option<NNetError> {
    if child.layer_weights is None || parent.layer_weights is None {
        Some(missing)
    } else {
        matrix_fault(child.layer_weights->0, parent.layer_weights->0)
    }
}

/// The fault of the first faulty layer at or after `from`.
pub open spec fn first_fault(
    child: Seq<LayerSettingsView>,
    parent: Seq<LayerSettingsView>,
    missing: NNetError,
    from: int,
) -> Option<NNetError>
    decreases child.len() - from,
{
    if from < 0 || from >= child.len() {
        None
    } else {
        or_else(layer_fault(child[from], parent[from], missing), first_fault(child, parent, missing, from + 1))
    }
}

/// What keeps `parent` from serving every weight of the child: too few
/// layers, or else the fault of its first faulty layer.
pub open spec fn weights_fault(
    child: NeuralNetSettingsView,
    parent: NeuralNetSettingsView,
    missing: NNetError,
) -> Option<NNetError> {
    if parent.layers.len() < child.layers.len() {
        Some(NNetError::LayerCountMismatch)
    } else {
        first_fault(child.layers, parent.layers, missing, 0)
    }
}

/// Where no layer at or after `from` is faulty, the layer `j` is not.
pub proof fn lemma_no_fault_at(
    child: Seq<LayerSettingsView>,
    parent: Seq<LayerSettingsView>,
    missing: NNetError,
    from: int,
    j: int,
)
    requires
        0 <= from <= j < child.len(),
        first_fault(child, parent, missing, from) is None,
    ensures
        layer_fault(child[j], parent[j], missing) is None,
    decreases j - from,
{
    if from < j {
        lemma_no_fault_at(child, parent, missing, from + 1, j);
    }
}

/// Looks for what keeps `parent` from serving every place of one layer.
pub fn find_layer_fault(child: &LayerSettings, parent: &LayerSettings, missing: NNetError) -> (fault:
    Option<NNetError>)
    ensures
        fault == layer_fault(child@, parent@, missing),
{
    match (&child.layer_weights, &parent.layer_weights) {
        (Some(rows), Some(parent_rows)) => find_matrix_fault(rows, parent_rows),
        _ => Some(missing),
    }
}

/// Looks for what keeps `parent` from serving every weight of the child.
pub fn find_weights_fault(child: &NeuralNetSettings, parent: &NeuralNetSettings, missing: NNetError) -> (fault:
    Option<NNetError>)
    ensures
        fault == weights_fault(child@, parent@, missing),
{
    let count = child.layers.len();
    if parent.layers.len() < count {
        return Some(NNetError::LayerCountMismatch);
    }
    let mut j: usize = 0;
    while j < count
        invariant
            j <= count,
            count == child.layers.len(),
            count <= parent.layers.len(),
            first_fault(child@.layers, parent@.layers, missing, 0) == first_fault(
                child@.layers,
                parent@.layers,
                missing,
                j as int,
            ),
        decreases count - j,
    {
        let fault = find_layer_fault(&child.layers[j], &parent.layers[j], missing);
        if fault.is_some() {
            return fault;
        }
        j += 1;
    }
    None
}

/// The layer `before` with another weight matrix.
pub open spec fn with_weights(before: LayerSettingsView, weights: Seq<Seq<i64>>) -> LayerSettingsView {
    LayerSettingsView { layer_weights: Some(weights), ..before }
}

/// The child after a weighted crossover of every layer's matrix.
pub open spec fn ga_blend_child(
    child: NeuralNetSettingsView,
    parent1: NeuralNetSettingsView,
    parent2: NeuralNetSettingsView,
    favoured: int,
) -> NeuralNetSettingsView {
    NeuralNetSettingsView {
        layers: Seq::new(
            child.layers.len(),
            |j: int|
                with_weights(
                    child.layers[j],
                    ga_blend_matrix(
                        child.layers[j].layer_weights->0,
                        parent1.layers[j].layer_weights->0,
                        parent2.layers[j].layer_weights->0,
                        favoured,
                    ),
                ),
        ),
        ..child
    }
}

/// The child after a crossover by rows of every layer's matrix, with
/// `preferences[j][k]` deciding the row `k` of the layer `j`.
pub open spec fn ga_swap_child(
    child: NeuralNetSettingsView,
    parent1: NeuralNetSettingsView,
    parent2: NeuralNetSettingsView,
    favoured: int,
    preferences: Seq<Seq<u64>>,
) -> NeuralNetSettingsView {
    NeuralNetSettingsView {
        layers: Seq::new(
            child.layers.len(),
            |j: int|
                with_weights(
                    child.layers[j],
                    ga_swap_matrix(
                        child.layers[j].layer_weights->0,
                        parent1.layers[j].layer_weights->0,
                        parent2.layers[j].layer_weights->0,
                        favoured,
                        preferences[j],
                    ),
                ),
        ),
        ..child
    }
}

/// The child after annealing every layer's matrix, with `draws[j][k][l]`
/// moving the weight `l` of the row `k` of the layer `j`.
pub open spec fn sa_weights_child(
    child: NeuralNetSettingsView,
    parent: NeuralNetSettingsView,
    draws: Seq<Seq<Seq<Mutation>>>,
) -> NeuralNetSettingsView {
    NeuralNetSettingsView {
        layers: Seq::new(
            child.layers.len(),
            |j: int|
                with_weights(
                    child.layers[j],
                    sa_weights_matrix(
                        child.layers[j].layer_weights->0,
                        parent.layers[j].layer_weights->0,
                        draws[j],
                    ),
                ),
        ),
        ..child
    }
}

/// After the hyperparameters of a layer were annealed, its lower weight
/// limit is below its upper one, unless the lower limit has come to the
/// largest number there is, where nothing lies above it to lift the upper
/// limit to.
pub proof fn lemma_sa_hyper_keeps_range_open(
    child: NeuralNetSettingsView,
    parent: NeuralNetSettingsView,
    gates: HyperParameterGates,
    draws: Seq<Mutation>,
    j: int,
)
    requires
        0 <= j < child.layers.len(),
        sa_hyper_child(child, parent, gates, draws).layers[j].weight_range.low < i64::MAX,
    ensures
        sa_hyper_child(child, parent, gates, draws).layers[j].weight_range.low < sa_hyper_child(
            child,
            parent,
            gates,
            draws,
        ).layers[j].weight_range.high,
{
}

/// After the hyperparameters of a layer were crossed, its lower weight limit
/// is below its upper one, with the same exception.
pub proof fn lemma_ga_hyper_keeps_range_open(
    child: NeuralNetSettingsView,
    parent1: NeuralNetSettingsView,
    parent2: NeuralNetSettingsView,
    gates: HyperParameterGates,
    favoured: int,
    j: int,
)
    requires
        0 <= j < child.layers.len(),
        ga_hyper_child(child, parent1, parent2, gates, favoured).layers[j].weight_range.low < i64::MAX,
    ensures
        ga_hyper_child(child, parent1, parent2, gates, favoured).layers[j].weight_range.low
            < ga_hyper_child(child, parent1, parent2, gates, favoured).layers[j].weight_range.high,
{
}

/// The operators on weights leave the weight limits of every layer as the
/// child had them: a lower limit that was below the upper one is so still.
pub proof fn lemma_weight_operators_keep_ranges(
    child: NeuralNetSettingsView,
    parent1: NeuralNetSettingsView,
    parent2: NeuralNetSettingsView,
    favoured: int,
    draws: Seq<Seq<Seq<Mutation>>>,
    preferences: Seq<Seq<u64>>,
    j: int,
)
    requires
        0 <= j < child.layers.len(),
    ensures
        sa_weights_child(child, parent1, draws).layers[j].weight_range == child.layers[j].weight_range,
        ga_blend_child(child, parent1, parent2, favoured).layers[j].weight_range
            == child.layers[j].weight_range,
        ga_swap_child(child, parent1, parent2, favoured, preferences).layers[j].weight_range
            == child.layers[j].weight_range,
        child.layers[j].weight_range.low < child.layers[j].weight_range.high ==> {
            &&& sa_weights_child(child, parent1, draws).layers[j].weight_range.low < sa_weights_child(
                child,
                parent1,
                draws,
            ).layers[j].weight_range.high
            &&& ga_blend_child(child, parent1, parent2, favoured).layers[j].weight_range.low
                < ga_blend_child(child, parent1, parent2, favoured).layers[j].weight_range.high
            &&& ga_swap_child(child, parent1, parent2, favoured, preferences).layers[j].weight_range.low
                < ga_swap_child(child, parent1, parent2, favoured, preferences).layers[j].weight_range.high
        },
{
}

/// Annealing never makes a learning rate or a momentum negative that was not
/// negative in the parent.
pub proof fn lemma_sa_hyper_keeps_rates_non_negative(
    child: NeuralNetSettingsView,
    parent: NeuralNetSettingsView,
    gates: HyperParameterGates,
    draws: Seq<Mutation>,
    j: int,
)
    requires
        0 <= j < child.layers.len(),
    ensures
        gates.learning_rate && parent.layers[j].learning_rate >= 0 ==> sa_hyper_child(
            child,
            parent,
            gates,
            draws,
        ).layers[j].learning_rate >= 0,
        gates.momentum && parent.layers[j].momentum >= 0 ==> sa_hyper_child(
            child,
            parent,
            gates,
            draws,
        ).layers[j].momentum >= 0,
{
}

/// A blend of two values that are not negative is not negative.
pub proof fn lemma_blended_non_negative(a: int, b: int, weight: int)
    requires
        a >= 0,
        b >= 0,
        0 <= weight <= ONE,
    ensures
        blended(a, b, weight) >= 0,
{
    assert(a * weight >= 0) by (nonlinear_arith)
        requires
            a >= 0,
            weight >= 0,
    ;
    assert(b * (ONE as int - weight) >= 0) by (nonlinear_arith)
        requires
            b >= 0,
            ONE as int - weight >= 0,
    ;
}

/// Crossing never makes a learning rate or a momentum negative that was
/// negative in neither parent.
pub proof fn lemma_ga_hyper_keeps_rates_non_negative(
    child: NeuralNetSettingsView,
    parent1: NeuralNetSettingsView,
    parent2: NeuralNetSettingsView,
    gates: HyperParameterGates,
    favoured: int,
    j: int,
)
    requires
        0 <= j < child.layers.len(),
        0 <= favoured <= ONE,
    ensures
        gates.learning_rate && parent1.layers[j].learning_rate >= 0 && parent2.layers[j].learning_rate
            >= 0 ==> ga_hyper_child(child, parent1, parent2, gates, favoured).layers[j].learning_rate
            >= 0,
        gates.momentum && parent1.layers[j].momentum >= 0 && parent2.layers[j].momentum >= 0
            ==> ga_hyper_child(child, parent1, parent2, gates, favoured).layers[j].momentum >= 0,
{
    if parent1.layers[j].learning_rate >= 0 && parent2.layers[j].learning_rate >= 0 {
        lemma_blended_non_negative(
            parent1.layers[j].learning_rate as int,
            parent2.layers[j].learning_rate as int,
            favoured,
        );
    }
    if parent1.layers[j].momentum >= 0 && parent2.layers[j].momentum >= 0 {
        lemma_blended_non_negative(
            parent1.layers[j].momentum as int,
            parent2.layers[j].momentum as int,
            favoured,
        );
    }
}

} // verus!
