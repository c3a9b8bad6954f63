//! The breeder: two decaying schedules, a generation count, a sequence of
//! candidate identifiers, and the operators that draw their random numbers.

use vstd::prelude::*;
use crate::classifier_parts::operators::{
    anneal_weights_from, blend_weights_from, find_weights_fault, ga_blend_child, ga_blend_matrix,
    ga_hyper_child, ga_hyper_parameters_from, ga_swap_child, ga_swap_matrix, layer_fault,
    lemma_no_fault_at, sa_hyper_child, sa_hyper_parameters_from, sa_weights_child,
    hyper_parameters_in_order, sa_weights_matrix, swap_weights_from, weights_fault, with_weights,
    HyperParameterGates, Mutation,
};
use crate::classifier_parts::random_source::random_below;
use crate::classifier_parts::schedule::Schedule;
use crate::classifier_parts::shape::{lemma_new_weights_keep_shape, shape_kept};
use crate::data_and_config::neural_net_config_parts::{
    matrix_view, LayerSettings, NeuralNetSettings, NeuralNetSettingsView,
};
use crate::fixed_point::ONE;
use crate::neural_network_parts::nnet_errors::{or_else, NNetError};

verus! {

/// The annealing temperature starts at 1.0.
pub const MAX_ANNEALING_TEMP: u64 = 1_000_000_000;

/// The annealing temperature never goes below 0.01.
pub const MIN_ANNEALING_TEMP: u64 = 10_000_000;

/// The favourability of the first parent starts at 0.95.
pub const MAX_P1_FAVOURABILITY: u64 = 950_000_000;

/// The favourability of the first parent never goes below 0.55.
pub const MIN_P1_FAVOURABILITY: u64 = 550_000_000;

/// The state that the breeding operators share.
pub struct Breeder {
    temperature: Schedule,
    favourability: Schedule,
    generation: usize,
    current_config_id: usize,
    gates: HyperParameterGates,
}

/// The mathematical value of a `Breeder`.
pub struct BreederView {
    pub temperature: Schedule,
    pub favourability: Schedule,
    pub generation: usize,
    pub current_config_id: usize,
    pub gates: HyperParameterGates,
}

impl View for Breeder {
    type V = BreederView;

    closed spec fn view(&self) -> BreederView {
        BreederView {
            temperature: self.temperature,
            favourability: self.favourability,
            generation: self.generation,
            current_config_id: self.current_config_id,
            gates: self.gates,
        }
    }
}

/// `count + 1`, or `count` where that is the largest number there is.
pub open spec fn counted_up(count: usize) -> usize {
    if count < usize::MAX {
        (count + 1) as usize
    } else {
        count
    }
}

impl BreederView {
    /// Both schedules are well formed, the temperature stays positive and the
    /// favourability is a share of one.
    pub open spec fn wf(self) -> bool {
        &&& self.temperature.wf()
        &&& self.favourability.wf()
        &&& self.temperature.min > 0
        &&& self.favourability.max <= ONE as u64
    }

    /// The state after one more child was bred.
    pub open spec fn bred(self) -> BreederView {
        BreederView { current_config_id: counted_up(self.current_config_id), ..self }
    }
}

/// The breeder at the start: both schedules at their maxima, nothing counted,
/// all gates open.
pub open spec fn fresh_breeder(temp_drop: u64, fave_drop: u64) -> BreederView {
    BreederView {
        temperature: Schedule {
            max: MAX_ANNEALING_TEMP,
            ceiling: MAX_ANNEALING_TEMP,
            current: MAX_ANNEALING_TEMP,
            min: MIN_ANNEALING_TEMP,
            step: temp_drop,
        },
        favourability: Schedule {
            max: MAX_P1_FAVOURABILITY,
            ceiling: MAX_P1_FAVOURABILITY,
            current: MAX_P1_FAVOURABILITY,
            min: MIN_P1_FAVOURABILITY,
            step: fave_drop,
        },
        generation: 0,
        current_config_id: 0,
        gates: HyperParameterGates {
            learning_rate: true,
            bias: true,
            momentum: true,
            upper_weight_limit: true,
            lower_weight_limit: true,
        },
    }
}

/// Whether every layer of `after` has the weight limits that it has in
/// `before`.
pub open spec fn ranges_kept(before: NeuralNetSettingsView, after: NeuralNetSettingsView) -> bool {
    &&& after.layers.len() == before.layers.len()
    &&& forall|j: int|
        0 <= j < after.layers.len() ==> (#[trigger] after.layers[j]).weight_range
            == before.layers[j].weight_range
}

/// Every draw of a layered matrix of draws is below `bound`.
pub open spec fn draws_below(draws: Seq<Seq<Seq<Mutation>>>, bound: int) -> bool {
    forall|j: int, k: int, l: int|
        0 <= j < draws.len() && 0 <= k < draws[j].len() && 0 <= l < draws[j][k].len() ==> (
        #[trigger] draws[j][k][l]).magnitude < bound
}

/// Whether there is one draw for every weight of a configuration.
pub open spec fn draws_fit(draws: Seq<Seq<Seq<Mutation>>>, settings: NeuralNetSettingsView) -> bool {
    &&& draws.len() == settings.layers.len()
    &&& forall|j: int|
        0 <= j < draws.len() ==> (#[trigger] draws[j]).len() == settings.layers[j].layer_weights->0.len()
    &&& forall|j: int, k: int|
        0 <= j < draws.len() && 0 <= k < draws[j].len() ==> (#[trigger] draws[j][k]).len()
            == settings.layers[j].layer_weights->0[k].len()
}

/// Whether `draws` holds one draw below `bound` for every weight of `seed`.
pub open spec fn shaped_draws(draws: Seq<Seq<Seq<Mutation>>>, seed: NeuralNetSettingsView, bound: int) -> bool {
    draws_fit(draws, seed) && draws_below(draws, bound)
}

/// Whether `draws` holds one draw below `bound` for every layer of `seed`.
pub open spec fn layer_draws(draws: Seq<Mutation>, seed: NeuralNetSettingsView, bound: int) -> bool {
    &&& draws.len() == seed.layers.len()
    &&& forall|j: int| 0 <= j < draws.len() ==> (#[trigger] draws[j]).magnitude < bound
}

/// Whether `preferences` holds one preference below one for every row of
/// every weight matrix of `seed`.
pub open spec fn shaped_preferences(preferences: Seq<Seq<u64>>, seed: NeuralNetSettingsView) -> bool {
    &&& preferences_below_one(preferences)
    &&& preferences.len() == seed.layers.len()
    &&& forall|j: int|
        0 <= j < preferences.len() ==> (#[trigger] preferences[j]).len()
            == seed.layers[j].layer_weights->0.len()
}

/// Whether `child` is `seed` after an annealing of its hyperparameters from
/// `parent`, with some draw below `temperature` for every layer.
pub open spec fn sa_hyper_bred(
    seed: NeuralNetSettingsView,
    parent: NeuralNetSettingsView,
    gates: HyperParameterGates,
    temperature: int,
    child: NeuralNetSettingsView,
) -> bool {
    exists|draws: Seq<Mutation>| #[trigger]
        layer_draws(draws, seed, temperature) && child == sa_hyper_child(seed, parent, gates, draws)
}

/// Whether `child` is `seed` after an annealing of its weights from `parent`,
/// with some draw below `temperature` for every weight.
pub open spec fn sa_weights_bred(
    seed: NeuralNetSettingsView,
    parent: NeuralNetSettingsView,
    temperature: int,
    child: NeuralNetSettingsView,
) -> bool {
    exists|draws: Seq<Seq<Seq<Mutation>>>| #[trigger]
        shaped_draws(draws, seed, temperature) && child == sa_weights_child(seed, parent, draws)
}

/// Whether `child` is `seed` after a crossover of its weights by rows, with
/// some preference below one for every row.
pub open spec fn ga_swap_bred(
    seed: NeuralNetSettingsView,
    parent1: NeuralNetSettingsView,
    parent2: NeuralNetSettingsView,
    favoured: int,
    child: NeuralNetSettingsView,
) -> bool {
    exists|preferences: Seq<Seq<u64>>| #[trigger]
        shaped_preferences(preferences, seed) && child == ga_swap_child(
            seed,
            parent1,
            parent2,
            favoured,
            preferences,
        )
}

/// Whether every weight of `child` lies less than `bound` from the weight of
/// `parent` at the same place.
pub open spec fn weights_within(child: NeuralNetSettingsView, parent: NeuralNetSettingsView, bound: int) -> bool {
    forall|j: int, k: int, l: int|
        0 <= j < child.layers.len() && 0 <= k < child.layers[j].layer_weights->0.len() && 0 <= l
            < child.layers[j].layer_weights->0[k].len() ==> -bound < (
        #[trigger] child.layers[j].layer_weights->0[k][l]) - parent.layers[j].layer_weights->0[k][l]
            < bound
}

/// After an annealing with draws below `bound`, every weight of the child
/// lies less than `bound` from the parent's weight at the same place.
pub proof fn lemma_annealed_weights_stay_near(
    seed: NeuralNetSettingsView,
    parent: NeuralNetSettingsView,
    draws: Seq<Seq<Seq<Mutation>>>,
    bound: int,
)
    requires
        shaped_draws(draws, seed, bound),
        forall|j: int| 0 <= j < seed.layers.len() ==> (#[trigger] seed.layers[j]).layer_weights is Some,
    ensures
        weights_within(sa_weights_child(seed, parent, draws), parent, bound),
{
    let child = sa_weights_child(seed, parent, draws);
    assert forall|j: int, k: int, l: int|
        0 <= j < child.layers.len() && 0 <= k < child.layers[j].layer_weights->0.len() && 0 <= l
            < child.layers[j].layer_weights->0[k].len() implies -bound < (
    #[trigger] child.layers[j].layer_weights->0[k][l]) - parent.layers[j].layer_weights->0[k][l]
        < bound by {
        assert(seed.layers[j].layer_weights is Some);
        assert(draws[j].len() == seed.layers[j].layer_weights->0.len());
        assert(draws[j][k].len() == seed.layers[j].layer_weights->0[k].len());
        assert(draws[j][k][l].magnitude < bound);
    }
}

/// Every preference of a layered list of preferences is below one.
pub open spec fn preferences_below_one(preferences: Seq<Seq<u64>>) -> bool {
    forall|j: int, k: int|
        0 <= j < preferences.len() && 0 <= k < preferences[j].len() ==> (#[trigger] preferences[j][k])
            < ONE as u64
}

/// Draws one mutation below `temperature`, in either direction.
fn draw_mutation(temperature: u64) -> (mutation: Mutation)
    requires
        temperature > 0,
    ensures
        mutation.magnitude < temperature,
{
    let magnitude = random_below(temperature);
    let negative = random_below(2) == 0;
    Mutation { magnitude, negative }
}

/// Draws one mutation for every place of a matrix.
fn draw_mutations(shape: &Vec<Vec<i64>>, temperature: u64) -> (draws: Vec<Vec<Mutation>>)
    requires
        temperature > 0,
    ensures
        draws.len() == shape.len(),
        forall|k: int| 0 <= k < shape.len() ==> (#[trigger] draws@[k])@.len() == shape@[k]@.len(),
        forall|k: int, l: int|
            0 <= k < draws.len() && 0 <= l < draws@[k]@.len() ==> (#[trigger] draws@[k]@[l]).magnitude
                < temperature,
{
    let mut draws: Vec<Vec<Mutation>> = Vec::new();
    let mut k: usize = 0;
    while k < shape.len()
        invariant
            k <= shape.len(),
            temperature > 0,
            draws.len() == k,
            forall|i: int| 0 <= i < k ==> (#[trigger] draws@[i])@.len() == shape@[i]@.len(),
            forall|i: int, l: int|
                0 <= i < k && 0 <= l < draws@[i]@.len() ==> (#[trigger] draws@[i]@[l]).magnitude
                    < temperature,
        decreases shape.len() - k,
    {
        let mut row: Vec<Mutation> = Vec::new();
        let mut l: usize = 0;
        while l < shape[k].len()
            invariant
                l <= shape@[k as int]@.len(),
                k < shape.len(),
                temperature > 0,
                row.len() == l,
                forall|c: int| 0 <= c < l ==> (#[trigger] row@[c]).magnitude < temperature,
            decreases shape@[k as int]@.len() - l,
        {
            row.push(draw_mutation(temperature));
            l += 1;
        }
        draws.push(row);
        k += 1;
    }
    draws
}

/// Draws one preference below one for every row of a matrix.
fn draw_preferences(shape: &Vec<Vec<i64>>) -> (preferences: Vec<u64>)
    ensures
        preferences.len() == shape.len(),
        forall|k: int| 0 <= k < preferences.len() ==> (#[trigger] preferences@[k]) < ONE as u64,
{
    let mut preferences: Vec<u64> = Vec::new();
    let mut k: usize = 0;
    while k < shape.len()
        invariant
            k <= shape.len(),
            preferences.len() == k,
            forall|i: int| 0 <= i < k ==> (#[trigger] preferences@[i]) < ONE as u64,
        decreases shape.len() - k,
    {
        preferences.push(random_below(ONE as u64));
        k += 1;
    }
    preferences
}

/// Anneals the matrix of one layer with fresh draws, which it reports.
fn anneal_layer(child: &mut LayerSettings, parent: &LayerSettings, temperature: u64) -> (draws: Ghost<
    Seq<Seq<Mutation>>,
>)
    requires
        temperature > 0,
        layer_fault(old(child)@, parent@, NNetError::SaMissingWeights) is None,
    ensures
        final(child)@ == with_weights(
            old(child)@,
            sa_weights_matrix(old(child)@.layer_weights->0, parent@.layer_weights->0, draws@),
        ),
        draws@.len() == old(child)@.layer_weights->0.len(),
        forall|k: int| 0 <= k < draws@.len() ==> (#[trigger] draws@[k]).len() == old(child)@.layer_weights->0[k].len(),
        forall|k: int, l: int|
            0 <= k < draws@.len() && 0 <= l < draws@[k].len() ==> (#[trigger] draws@[k][l]).magnitude
                < temperature,
{
    match (&mut child.layer_weights, &parent.layer_weights) {
        (Some(rows), Some(parent_rows)) => {
            let draws = draw_mutations(rows, temperature);
            assert(matrix_view(draws).len() == matrix_view(*rows).len());
            assert forall|k: int| 0 <= k < matrix_view(*rows).len() implies matrix_view(draws)[k].len()
                >= #[trigger] matrix_view(*rows)[k].len() by {
                assert(draws@[k]@.len() == rows@[k]@.len());
            }
            let outcome = anneal_weights_from(rows, parent_rows, &draws);
            assert(outcome is Ok);
            Ghost(matrix_view(draws))
        },
        _ => Ghost(Seq::empty()),
    }
}

/// Crosses the matrix of one layer by blending.
fn blend_layer(child: &mut LayerSettings, parent1: &LayerSettings, parent2: &LayerSettings, favoured: u64)
    requires
        favoured <= ONE as u64,
        layer_fault(old(child)@, parent1@, NNetError::GaMissingWeights) is None,
        layer_fault(old(child)@, parent2@, NNetError::GaMissingWeights) is None,
    ensures
        final(child)@ == with_weights(
            old(child)@,
            ga_blend_matrix(
                old(child)@.layer_weights->0,
                parent1@.layer_weights->0,
                parent2@.layer_weights->0,
                favoured as int,
            ),
        ),
{
    match (&mut child.layer_weights, &parent1.layer_weights, &parent2.layer_weights) {
        (Some(rows), Some(rows1), Some(rows2)) => {
            let outcome = blend_weights_from(rows, rows1, rows2, favoured);
            assert(outcome is Ok);
        },
        _ => {},
    }
}

/// Crosses the matrix of one layer by rows with fresh preferences, which it
/// reports.
fn swap_layer(child: &mut LayerSettings, parent1: &LayerSettings, parent2: &LayerSettings, favoured: u64) -> (preferences:
    Ghost<Seq<u64>>)
    requires
        layer_fault(old(child)@, parent1@, NNetError::GaMissingWeights) is None,
        layer_fault(old(child)@, parent2@, NNetError::GaMissingWeights) is None,
    ensures
        final(child)@ == with_weights(
            old(child)@,
            ga_swap_matrix(
                old(child)@.layer_weights->0,
                parent1@.layer_weights->0,
                parent2@.layer_weights->0,
                favoured as int,
                preferences@,
            ),
        ),
        preferences@.len() == old(child)@.layer_weights->0.len(),
        forall|k: int| 0 <= k < preferences@.len() ==> (#[trigger] preferences@[k]) < ONE as u64,
{
    match (&mut child.layer_weights, &parent1.layer_weights, &parent2.layer_weights) {
        (Some(rows), Some(rows1), Some(rows2)) => {
            let preferences = draw_preferences(rows);
            assert(preferences@.len() == matrix_view(*rows).len());
            let outcome = swap_weights_from(rows, rows1, rows2, favoured, &preferences);
            assert(outcome is Ok);
            Ghost(preferences@)
        },
        _ => Ghost(Seq::empty()),
    }
}

impl Breeder {
    /// A breeder whose temperature runs from 1.0 down to 0.01 in steps of
    /// `temp_drop`, whose favourability runs from 0.95 down to 0.55 in steps
    /// of `fave_drop`, and whose gates are all open.
    pub fn new(temp_drop: u64, fave_drop: u64) -> (breeder: Breeder)
        ensures
            breeder@.wf(),
            breeder@ == fresh_breeder(temp_drop, fave_drop),
    {
        Breeder {
            temperature: Schedule::new(MAX_ANNEALING_TEMP, MIN_ANNEALING_TEMP, temp_drop),
            favourability: Schedule::new(MAX_P1_FAVOURABILITY, MIN_P1_FAVOURABILITY, fave_drop),
            generation: 0,
            current_config_id: 0,
            gates: HyperParameterGates {
                learning_rate: true,
                bias: true,
                momentum: true,
                upper_weight_limit: true,
                lower_weight_limit: true,
            },
        }
    }

    /// Counts one more child.
    fn count_child(&mut self)
        ensures
            final(self)@ == old(self)@.bred(),
    {
        if self.current_config_id < usize::MAX {
            self.current_config_id += 1;
        }
    }

    /// Anneals the hyperparameters of every layer of `child` from `parent`:
    /// each layer with one draw below the current temperature, in either
    /// direction. Fails, and changes nothing, where the parent has fewer
    /// layers than the child.
    pub fn child_w_sa_hyper_parameters(&mut self, child: &mut NeuralNetSettings, parent: &NeuralNetSettings) -> (outcome:
        Result<(), NNetError>)
        requires
            old(self)@.wf(),
        ensures
            outcome is Err <==> parent.layers.len() < old(child).layers.len(),
            outcome is Err ==> outcome == Err::<(), NNetError>(NNetError::LayerCountMismatch)
                && *final(child) == *old(child) && final(self)@ == old(self)@,
            outcome is Ok ==> final(child).config_id == old(child).config_id,
            outcome is Ok ==> shape_kept(old(child)@, final(child)@),
            outcome is Ok ==> hyper_parameters_in_order(
                final(child)@,
                old(self)@.gates,
                |j: int| parent@.layers[j].learning_rate >= 0,
                |j: int| parent@.layers[j].momentum >= 0,
            ),
            outcome is Ok ==> final(self)@ == old(self)@.bred() && sa_hyper_bred(
                old(child)@,
                parent@,
                old(self)@.gates,
                old(self)@.temperature.current as int,
                final(child)@,
            ),
    {
        let count = child.layers.len();
        if parent.layers.len() < count {
            return Err(NNetError::LayerCountMismatch);
        }
        let temperature = self.temperature.current;
        let mut draws: Vec<Mutation> = Vec::new();
        let mut j: usize = 0;
        while j < count
            invariant
                j <= count,
                temperature > 0,
                draws.len() == j,
                forall|i: int| 0 <= i < j ==> (#[trigger] draws@[i]).magnitude < temperature,
            decreases count - j,
        {
            draws.push(draw_mutation(temperature));
            j += 1;
        }
        let outcome = sa_hyper_parameters_from(child, parent, self.gates, &draws);
        assert(outcome is Ok);
        self.count_child();
        assert(layer_draws(draws@, old(child)@, temperature as int) && child@ == sa_hyper_child(
            old(child)@,
            parent@,
            old(self)@.gates,
            draws@,
        ));
        Ok(())
    }

    /// Crosses the hyperparameters of every layer of `child` from two
    /// parents, with the current favourability as the share of the first.
    /// Fails, and changes nothing, where a parent has fewer layers than the
    /// child.
    pub fn child_w_ga_hyper_params(
        &mut self,
        child: &mut NeuralNetSettings,
        parent1: &NeuralNetSettings,
        parent2: &NeuralNetSettings,
    ) -> (outcome: Result<(), NNetError>)
        requires
            old(self)@.wf(),
        ensures
            outcome is Err <==> (parent1.layers.len() < old(child).layers.len() || parent2.layers.len()
                < old(child).layers.len()),
            outcome is Err ==> outcome == Err::<(), NNetError>(NNetError::LayerCountMismatch)
                && *final(child) == *old(child) && final(self)@ == old(self)@,
            outcome is Ok ==> final(child).config_id == old(child).config_id,
            outcome is Ok ==> shape_kept(old(child)@, final(child)@),
            outcome is Ok ==> hyper_parameters_in_order(
                final(child)@,
                old(self)@.gates,
                |j: int| parent1@.layers[j].learning_rate >= 0 && parent2@.layers[j].learning_rate >= 0,
                |j: int| parent1@.layers[j].momentum >= 0 && parent2@.layers[j].momentum >= 0,
            ),
            outcome is Ok ==> final(self)@ == old(self)@.bred() && final(child)@ == ga_hyper_child(
                old(child)@,
                parent1@,
                parent2@,
                old(self)@.gates,
                old(self)@.favourability.current as int,
            ),
    {
        let outcome = ga_hyper_parameters_from(child, parent1, parent2, self.gates, self.favourability.current);
        if outcome.is_ok() {
            self.count_child();
        }
        outcome
    }

    /// Anneals every weight of `child` from the weight of `parent` at the same
    /// place, each with a draw of its own below the current temperature, in
    /// either direction. Fails, and changes nothing, where the parent does
    /// not reach every weight of the child.
    pub fn child_w_sa_weights(&mut self, child: &mut NeuralNetSettings, parent: &NeuralNetSettings) -> (outcome:
        Result<(), NNetError>)
        requires
            old(self)@.wf(),
        ensures
            outcome == match weights_fault(old(child)@, parent@, NNetError::SaMissingWeights) {
                Some(fault) => Err::<(), NNetError>(fault),
                None => Ok(()),
            },
            outcome is Err ==> *final(child) == *old(child) && final(self)@ == old(self)@,
            outcome is Ok ==> final(child).config_id == old(child).config_id,
            outcome is Ok ==> shape_kept(old(child)@, final(child)@),
            outcome is Ok ==> ranges_kept(old(child)@, final(child)@),
            outcome is Ok ==> final(self)@ == old(self)@.bred() && sa_weights_bred(
                old(child)@,
                parent@,
                old(self)@.temperature.current as int,
                final(child)@,
            ),
            outcome is Ok ==> weights_within(final(child)@, parent@, old(self)@.temperature.current as int),
    {
        if let Some(fault) = find_weights_fault(child, parent, NNetError::SaMissingWeights) {
            return Err(fault);
        }
        let count = child.layers.len();
        let temperature = self.temperature.current;
        let ghost mut draws: Seq<Seq<Seq<Mutation>>> = Seq::empty();
        let mut j: usize = 0;
        while j < count
            invariant
                j <= count,
                temperature > 0,
                count == old(child).layers.len(),
                count <= parent.layers.len(),
                child.layers.len() == count,
                child.query_id == old(child).query_id,
                child.config_id == old(child).config_id,
                child.accuracy == old(child).accuracy,
                child.input_size == old(child).input_size,
                weights_fault(old(child)@, parent@, NNetError::SaMissingWeights) is None,
                draws.len() == j,
                draws_below(draws, temperature as int),
                forall|i: int|
                    0 <= i < j ==> (#[trigger] draws[i]).len() == old(child)@.layers[i].layer_weights->0.len(),
                forall|i: int, k: int|
                    0 <= i < j && 0 <= k < draws[i].len() ==> (#[trigger] draws[i][k]).len() == old(
                        child,
                    )@.layers[i].layer_weights->0[k].len(),
                forall|i: int|
                    0 <= i < j ==> (#[trigger] child.layers@[i])@ == with_weights(
                        old(child).layers@[i]@,
                        sa_weights_matrix(
                            old(child).layers@[i]@.layer_weights->0,
                            parent.layers@[i]@.layer_weights->0,
                            draws[i],
                        ),
                    ),
                forall|i: int| j <= i < count ==> #[trigger] child.layers@[i] == old(child).layers@[i],
            decreases count - j,
        {
            proof {
                lemma_no_fault_at(old(child)@.layers, parent@.layers, NNetError::SaMissingWeights, 0, j as int);
            }
            let layer_draws = anneal_layer(&mut child.layers[j], &parent.layers[j], temperature);
            proof {
                draws = draws.push(layer_draws@);
            }
            j += 1;
        }
        self.count_child();
        assert(child@.layers =~= sa_weights_child(old(child)@, parent@, draws).layers);
        proof {
            lemma_new_weights_keep_shape(old(child)@, child@, parent@, NNetError::SaMissingWeights);
            assert forall|i: int| 0 <= i < old(child)@.layers.len() implies (
            #[trigger] old(child)@.layers[i]).layer_weights is Some by {
                lemma_no_fault_at(old(child)@.layers, parent@.layers, NNetError::SaMissingWeights, 0, i);
            }
            assert(shaped_draws(draws, old(child)@, temperature as int));
            assert(child@ == sa_weights_child(old(child)@, parent@, draws));
            lemma_annealed_weights_stay_near(old(child)@, parent@, draws, temperature as int);
        }
        Ok(())
    }

    /// Crosses every weight of `child` from two parents by blending the
    /// parents' weights at the same place, with the current favourability as
    /// the share of the first. Fails, and changes nothing, where a parent
    /// does not reach every weight of the child.
    pub fn child_w_ga_weights(
        &mut self,
        child: &mut NeuralNetSettings,
        parent1: &NeuralNetSettings,
        parent2: &NeuralNetSettings,
    ) -> (outcome: Result<(), NNetError>)
        requires
            old(self)@.wf(),
        ensures
            outcome == match or_else(
                weights_fault(old(child)@, parent1@, NNetError::GaMissingWeights),
                weights_fault(old(child)@, parent2@, NNetError::GaMissingWeights),
            ) {
                Some(fault) => Err::<(), NNetError>(fault),
                None => Ok(()),
            },
            outcome is Err ==> *final(child) == *old(child) && final(self)@ == old(self)@,
            outcome is Ok ==> final(child).config_id == old(child).config_id,
            outcome is Ok ==> shape_kept(old(child)@, final(child)@),
            outcome is Ok ==> ranges_kept(old(child)@, final(child)@),
            outcome is Ok ==> final(self)@ == old(self)@.bred() && final(child)@ == ga_blend_child(
                old(child)@,
                parent1@,
                parent2@,
                old(self)@.favourability.current as int,
            ),
    {
        if let Some(fault) = find_weights_fault(child, parent1, NNetError::GaMissingWeights) {
            return Err(fault);
        }
        if let Some(fault) = find_weights_fault(child, parent2, NNetError::GaMissingWeights) {
            return Err(fault);
        }
        let count = child.layers.len();
        let favoured = self.favourability.current;
        let mut j: usize = 0;
        while j < count
            invariant
                j <= count,
                favoured <= ONE as u64,
                count == old(child).layers.len(),
                count <= parent1.layers.len(),
                count <= parent2.layers.len(),
                child.layers.len() == count,
                child.query_id == old(child).query_id,
                child.config_id == old(child).config_id,
                child.accuracy == old(child).accuracy,
                child.input_size == old(child).input_size,
                weights_fault(old(child)@, parent1@, NNetError::GaMissingWeights) is None,
                weights_fault(old(child)@, parent2@, NNetError::GaMissingWeights) is None,
                forall|i: int|
                    0 <= i < j ==> (#[trigger] child.layers@[i])@ == with_weights(
                        old(child).layers@[i]@,
                        ga_blend_matrix(
                            old(child).layers@[i]@.layer_weights->0,
                            parent1.layers@[i]@.layer_weights->0,
                            parent2.layers@[i]@.layer_weights->0,
                            favoured as int,
                        ),
                    ),
                forall|i: int| j <= i < count ==> #[trigger] child.layers@[i] == old(child).layers@[i],
            decreases count - j,
        {
            proof {
                lemma_no_fault_at(old(child)@.layers, parent1@.layers, NNetError::GaMissingWeights, 0, j as int);
                lemma_no_fault_at(old(child)@.layers, parent2@.layers, NNetError::GaMissingWeights, 0, j as int);
            }
            blend_layer(&mut child.layers[j], &parent1.layers[j], &parent2.layers[j], favoured);
            j += 1;
        }
        self.count_child();
        assert(child@.layers =~= ga_blend_child(old(child)@, parent1@, parent2@, favoured as int).layers);
        proof {
            lemma_new_weights_keep_shape(old(child)@, child@, parent1@, NNetError::GaMissingWeights);
        }
        Ok(())
    }

    /// Crosses every weight of `child` from two parents by whole rows: each
    /// row comes from the first parent where a preference drawn for it, below
    /// one, is below the current favourability, and from the second parent
    /// otherwise. Fails, and changes nothing, where a parent does not reach
    /// every weight of the child.
    pub fn child_w_ga_weights_swap(
        &mut self,
        child: &mut NeuralNetSettings,
        parent1: &NeuralNetSettings,
        parent2: &NeuralNetSettings,
    ) -> (outcome: Result<(), NNetError>)
        requires
            old(self)@.wf(),
        ensures
            outcome == match or_else(
                weights_fault(old(child)@, parent1@, NNetError::GaMissingWeights),
                weights_fault(old(child)@, parent2@, NNetError::GaMissingWeights),
            ) {
                Some(fault) => Err::<(), NNetError>(fault),
                None => Ok(()),
            },
            outcome is Err ==> *final(child) == *old(child) && final(self)@ == old(self)@,
            outcome is Ok ==> final(child).config_id == old(child).config_id,
            outcome is Ok ==> shape_kept(old(child)@, final(child)@),
            outcome is Ok ==> ranges_kept(old(child)@, final(child)@),
            outcome is Ok ==> final(self)@ == old(self)@.bred() && ga_swap_bred(
                old(child)@,
                parent1@,
                parent2@,
                old(self)@.favourability.current as int,
                final(child)@,
            ),
    {
        if let Some(fault) = find_weights_fault(child, parent1, NNetError::GaMissingWeights) {
            return Err(fault);
        }
        if let Some(fault) = find_weights_fault(child, parent2, NNetError::GaMissingWeights) {
            return Err(fault);
        }
        let count = child.layers.len();
        let favoured = self.favourability.current;
        let ghost mut preferences: Seq<Seq<u64>> = Seq::empty();
        let mut j: usize = 0;
        while j < count
            invariant
                j <= count,
                count == old(child).layers.len(),
                count <= parent1.layers.len(),
                count <= parent2.layers.len(),
                child.layers.len() == count,
                child.query_id == old(child).query_id,
                child.config_id == old(child).config_id,
                child.accuracy == old(child).accuracy,
                child.input_size == old(child).input_size,
                weights_fault(old(child)@, parent1@, NNetError::GaMissingWeights) is None,
                weights_fault(old(child)@, parent2@, NNetError::GaMissingWeights) is None,
                preferences.len() == j,
                preferences_below_one(preferences),
                forall|i: int|
                    0 <= i < j ==> (#[trigger] preferences[i]).len() == old(
                        child,
                    )@.layers[i].layer_weights->0.len(),
                forall|i: int|
                    0 <= i < j ==> (#[trigger] child.layers@[i])@ == with_weights(
                        old(child).layers@[i]@,
                        ga_swap_matrix(
                            old(child).layers@[i]@.layer_weights->0,
                            parent1.layers@[i]@.layer_weights->0,
                            parent2.layers@[i]@.layer_weights->0,
                            favoured as int,
                            preferences[i],
                        ),
                    ),
                forall|i: int| j <= i < count ==> #[trigger] child.layers@[i] == old(child).layers@[i],
            decreases count - j,
        {
            proof {
                lemma_no_fault_at(old(child)@.layers, parent1@.layers, NNetError::GaMissingWeights, 0, j as int);
                lemma_no_fault_at(old(child)@.layers, parent2@.layers, NNetError::GaMissingWeights, 0, j as int);
            }
            let layer_preferences = swap_layer(&mut child.layers[j], &parent1.layers[j], &parent2.layers[j], favoured);
            proof {
                preferences = preferences.push(layer_preferences@);
            }
            j += 1;
        }
        self.count_child();
        assert(child@.layers =~= ga_swap_child(old(child)@, parent1@, parent2@, favoured as int, preferences).layers);
        proof {
            assert forall|i: int, k: int|
                0 <= i < child@.layers.len() && 0 <= k < old(child)@.layers[i].layer_weights->0.len() implies (
            #[trigger] child@.layers[i].layer_weights->0[k]).len() == old(
                child,
            )@.layers[i].layer_weights->0[k].len() by {
                lemma_no_fault_at(old(child)@.layers, parent1@.layers, NNetError::GaMissingWeights, 0, i);
                lemma_no_fault_at(old(child)@.layers, parent2@.layers, NNetError::GaMissingWeights, 0, i);
                let then = old(child)@.layers[i].layer_weights->0;
                assert(parent1@.layers[i].layer_weights->0[k].len() >= then[k].len());
                assert(parent2@.layers[i].layer_weights->0[k].len() >= then[k].len());
            }
            lemma_new_weights_keep_shape(old(child)@, child@, parent1@, NNetError::GaMissingWeights);
            assert(shaped_preferences(preferences, old(child)@));
            assert(child@ == ga_swap_child(old(child)@, parent1@, parent2@, favoured as int, preferences));
        }
        Ok(())
    }

    /// Lowers the favourability by one step, but not below its floor.
    pub fn drop_p1_favourability(&mut self)
        requires
            old(self)@.wf(),
        ensures
            final(self)@ == (BreederView {
                favourability: old(self)@.favourability.dropped(),
                ..old(self)@
            }),
            final(self)@.wf(),
    {
        self.favourability.drop();
    }

    /// Lowers the ceiling of the favourability by one step, but not below its
    /// floor, and puts the favourability at that ceiling.
    pub fn reset_p1_fav_to_adjusted_max(&mut self)
        requires
            old(self)@.wf(),
        ensures
            final(self)@ == (BreederView {
                favourability: old(self)@.favourability.ratcheted(),
                ..old(self)@
            }),
            final(self)@.wf(),
    {
        self.favourability.reset_to_adjusted_max();
    }

    /// Whether the favourability is at its floor.
    pub fn min_current_p1_fav_reached(&self) -> (reached: bool)
        ensures
            reached == (self@.favourability.current <= self@.favourability.min),
    {
        self.favourability.min_reached()
    }

    /// Whether the ceiling of the favourability is at its floor.
    pub fn min_ga_mutations_reached(&self) -> (reached: bool)
        ensures
            reached == (self@.favourability.ceiling <= self@.favourability.min),
    {
        self.favourability.min_ceiling_reached()
    }

    /// Lowers the temperature by one step, but not below its floor.
    pub fn drop_temp(&mut self)
        requires
            old(self)@.wf(),
        ensures
            final(self)@ == (BreederView { temperature: old(self)@.temperature.dropped(), ..old(self)@ }),
            final(self)@.wf(),
    {
        self.temperature.drop();
    }

    /// Lowers the ceiling of the temperature by one step, but not below its
    /// floor, and puts the temperature at that ceiling.
    pub fn reset_temp_to_adjusted_max(&mut self)
        requires
            old(self)@.wf(),
        ensures
            final(self)@ == (BreederView {
                temperature: old(self)@.temperature.ratcheted(),
                ..old(self)@
            }),
            final(self)@.wf(),
    {
        self.temperature.reset_to_adjusted_max();
    }

    /// Whether the temperature is at its floor.
    pub fn min_temp_reached(&self) -> (reached: bool)
        ensures
            reached == (self@.temperature.current <= self@.temperature.min),
    {
        self.temperature.min_reached()
    }

    /// Whether the ceiling of the temperature is at its floor.
    pub fn min_sa_mutations_reached(&self) -> (reached: bool)
        ensures
            reached == (self@.temperature.ceiling <= self@.temperature.min),
    {
        self.temperature.min_ceiling_reached()
    }

    /// Puts both schedules, ceilings and values, back at their maxima.
    pub fn total_reset(&mut self)
        requires
            old(self)@.wf(),
        ensures
            final(self)@ == (BreederView {
                temperature: old(self)@.temperature.restored(),
                favourability: old(self)@.favourability.restored(),
                ..old(self)@
            }),
            final(self)@.wf(),
    {
        self.temperature.total_reset();
        self.favourability.total_reset();
    }

    /// Counts one more generation.
    pub fn inc_generation_count(&mut self)
        ensures
            final(self)@ == (BreederView { generation: counted_up(old(self)@.generation), ..old(self)@ }),
    {
        if self.generation < usize::MAX {
            self.generation += 1;
        }
    }

    /// The number of generations counted.
    pub fn generation_count(&self) -> (count: usize)
        ensures
            count == self@.generation,
    {
        self.generation
    }

    /// The number of children bred.
    pub fn current_config_id(&self) -> (count: usize)
        ensures
            count == self@.current_config_id,
    {
        self.current_config_id
    }

    /// The current annealing temperature.
    pub fn current_annealing_temp(&self) -> (temperature: u64)
        ensures
            temperature == self@.temperature.current,
    {
        self.temperature.current
    }

    /// The current favourability of the first parent.
    pub fn current_p1_favourability(&self) -> (favourability: u64)
        ensures
            favourability == self@.favourability.current,
    {
        self.favourability.current
    }

    /// Which hyperparameters the operators may change.
    pub fn gates(&self) -> (gates: HyperParameterGates)
        ensures
            gates == self@.gates,
    {
        self.gates
    }

    /// Opens and closes the gates of the hyperparameters.
    pub fn set_gates(&mut self, gates: HyperParameterGates)
        ensures
            final(self)@ == (BreederView { gates, ..old(self)@ }),
    {
        self.gates = gates;
    }
}

} // verus!
