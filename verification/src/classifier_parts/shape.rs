//! The shape of the configurations that are alive in a run: every one of them
//! has the layers of the configuration that the run started from, and in
//! every layer a weight matrix that fits and an open range of weights.

use vstd::prelude::*;
use crate::classifier_parts::operators::{
    first_fault, kept_open, layer_fault, lemma_no_fault_at, matrix_fault, ranges_open, weights_fault,
};
use crate::classifier_parts::reseed::{all_weighted, redrawn, seeded};
use crate::classifier_parts::selection::{
    drained, expanded, first_beaten, first_best, last_best, lemma_first_beaten, lemma_first_best,
    lemma_first_with_id, lemma_last_best, noted, noted_all, promoted, Pools, TrainerResult,
};
use crate::data_and_config::neural_net_config_parts::{LayerSettingsView, NeuralNetSettingsView};
use crate::neural_network_parts::neural_network::width_at;
use crate::neural_network_parts::nnet_errors::NNetError;

verus! {

/// Whether a layer holds a weight matrix with one row for each of its units
/// and `width` weights in every row.
pub open spec fn layer_fits(layer: LayerSettingsView, width: usize) -> bool {
    &&& layer.layer_weights is Some
    &&& layer.layer_weights->0.len() == layer.output_units
    &&& forall|k: int| 0 <= k < layer.output_units ==> (#[trigger] layer.layer_weights->0[k]).len() == width
}

/// Whether a configuration has the input and the units of `template`, layer
/// by layer, and holds in every layer a weight matrix that fits them and an
/// open range of weights.
pub open spec fn fits(template: NeuralNetSettingsView, settings: NeuralNetSettingsView) -> bool {
    &&& ranges_open(settings)
    &&& settings.input_size == template.input_size
    &&& settings.layers.len() == template.layers.len()
    &&& forall|i: int|
        0 <= i < settings.layers.len() ==> (#[trigger] settings.layers[i]).output_units
            == template.layers[i].output_units && layer_fits(settings.layers[i], width_at(template, i))
}

/// Whether every configuration of a pool fits the template.
pub open spec fn all_fit(template: NeuralNetSettingsView, pool: Seq<NeuralNetSettingsView>) -> bool {
    forall|c: int| 0 <= c < pool.len() ==> fits(template, #[trigger] pool[c])
}

/// Whether every configuration of the three pools fits the template.
pub open spec fn pools_fit(template: NeuralNetSettingsView, pools: Pools) -> bool {
    all_fit(template, pools.elite) && all_fit(template, pools.candidates) && all_fit(
        template,
        pools.recycled,
    )
}

/// Whether `after` has the input, the units and the sizes of the weight
/// matrices of `before`, layer by layer.
pub open spec fn shape_kept(before: NeuralNetSettingsView, after: NeuralNetSettingsView) -> bool {
    &&& after.input_size == before.input_size
    &&& after.layers.len() == before.layers.len()
    &&& forall|i: int|
        0 <= i < after.layers.len() ==> {
            let now = #[trigger] after.layers[i];
            let then = before.layers[i];
            &&& now.output_units == then.output_units
            &&& now.layer_weights is Some == then.layer_weights is Some
            &&& now.layer_weights is Some ==> now.layer_weights->0.len() == then.layer_weights->0.len()
                && forall|k: int|
                0 <= k < now.layer_weights->0.len() ==> (#[trigger] now.layer_weights->0[k]).len()
                    == then.layer_weights->0[k].len()
        }
}

/// A child whose layers each got a weight matrix with the sizes of the one
/// that they had, and kept all else, keeps its shape.
pub proof fn lemma_new_weights_keep_shape(
    before: NeuralNetSettingsView,
    after: NeuralNetSettingsView,
    parent: NeuralNetSettingsView,
    missing: NNetError,
)
    requires
        weights_fault(before, parent, missing) is None,
        after.input_size == before.input_size,
        after.layers.len() == before.layers.len(),
        forall|i: int|
            0 <= i < before.layers.len() ==> {
                let now = #[trigger] after.layers[i];
                let then = before.layers[i];
                &&& now.layer_weights is Some
                &&& now.output_units == then.output_units
                &&& now.layer_weights->0.len() == then.layer_weights->0.len()
                &&& forall|k: int|
                    0 <= k < then.layer_weights->0.len() ==> (#[trigger] now.layer_weights->0[k]).len()
                        == then.layer_weights->0[k].len()
            },
    ensures
        shape_kept(before, after),
{
    assert forall|i: int| 0 <= i < after.layers.len() implies {
        let now = #[trigger] after.layers[i];
        let then = before.layers[i];
        &&& now.output_units == then.output_units
        &&& now.layer_weights is Some == then.layer_weights is Some
        &&& now.layer_weights is Some ==> now.layer_weights->0.len() == then.layer_weights->0.len()
            && forall|k: int|
            0 <= k < now.layer_weights->0.len() ==> (#[trigger] now.layer_weights->0[k]).len()
                == then.layer_weights->0[k].len()
    } by {
        lemma_no_fault_at(before.layers, parent.layers, missing, 0, i);
    }
}

/// A configuration that keeps the shape of one that fits the template, and
/// whose ranges of weights are open, fits it too.
pub proof fn lemma_kept_shape_fits(
    template: NeuralNetSettingsView,
    before: NeuralNetSettingsView,
    after: NeuralNetSettingsView,
)
    requires
        fits(template, before),
        shape_kept(before, after),
        ranges_open(after),
    ensures
        fits(template, after),
{
    assert forall|i: int| 0 <= i < after.layers.len() implies (#[trigger] after.layers[i]).output_units
        == template.layers[i].output_units && layer_fits(after.layers[i], width_at(template, i)) by {
        let now = after.layers[i];
        let then = before.layers[i];
        assert(layer_fits(then, width_at(template, i)));
        assert forall|k: int| 0 <= k < now.output_units implies (#[trigger] now.layer_weights->0[k]).len()
            == width_at(template, i) by {
            assert(then.layer_weights->0[k].len() == width_at(template, i));
        }
    }
}

/// A configuration with open ranges and fresh weights fits itself.
pub proof fn lemma_seeded_fits(before: NeuralNetSettingsView, after: NeuralNetSettingsView)
    requires
        seeded(before, after),
        ranges_open(before),
    ensures
        fits(after, after),
{
    assert forall|j: int| 0 <= j < after.layers.len() implies kept_open(
        (#[trigger] after.layers[j]).weight_range,
    ) by {
        assert(crate::classifier_parts::reseed::layer_seeded(
            before.layers[j],
            after.layers[j],
            width_at(before, j),
        ));
        assert(kept_open(before.layers[j].weight_range));
    }
    assert forall|i: int| 0 <= i < after.layers.len() implies (#[trigger] after.layers[i]).output_units
        == after.layers[i].output_units && layer_fits(after.layers[i], width_at(after, i)) by {
        assert(crate::classifier_parts::reseed::layer_seeded(
            before.layers[i],
            after.layers[i],
            width_at(before, i),
        ));
        if i > 0 {
            assert(crate::classifier_parts::reseed::layer_seeded(
                before.layers[i - 1],
                after.layers[i - 1],
                width_at(before, i - 1),
            ));
        }
    }
}

/// Weights drawn anew leave the shape and the ranges of weights as they
/// were.
pub proof fn lemma_redrawn_keeps_shape(before: NeuralNetSettingsView, after: NeuralNetSettingsView)
    requires
        redrawn(before, after),
    ensures
        shape_kept(before, after),
        ranges_open(before) ==> ranges_open(after),
{
    if ranges_open(before) {
        assert forall|j: int| 0 <= j < after.layers.len() implies kept_open(
            (#[trigger] after.layers[j]).weight_range,
        ) by {
            assert(crate::classifier_parts::reseed::layer_redrawn(before.layers[j], after.layers[j]));
            assert(kept_open(before.layers[j].weight_range));
        }
    }
    assert forall|i: int| 0 <= i < after.layers.len() implies {
        let now = #[trigger] after.layers[i];
        let then = before.layers[i];
        &&& now.output_units == then.output_units
        &&& now.layer_weights is Some == then.layer_weights is Some
        &&& now.layer_weights is Some ==> now.layer_weights->0.len() == then.layer_weights->0.len()
            && forall|k: int|
            0 <= k < now.layer_weights->0.len() ==> (#[trigger] now.layer_weights->0[k]).len()
                == then.layer_weights->0[k].len()
    } by {
        assert(crate::classifier_parts::reseed::layer_redrawn(before.layers[i], after.layers[i]));
    }
}

/// A pool of configurations that fit a template holds a weight matrix in
/// every layer.
pub proof fn lemma_fitting_pool_is_weighted(template: NeuralNetSettingsView, pool: Seq<NeuralNetSettingsView>)
    requires
        all_fit(template, pool),
    ensures
        all_weighted(pool),
{
    assert forall|c: int, i: int| 0 <= c < pool.len() && 0 <= i < pool[c].layers.len() implies (
    #[trigger] pool[c].layers[i]).layer_weights is Some by {
        assert(fits(template, pool[c]));
    }
}

/// A parent that fits the template serves every weight of a child that fits
/// it.
pub proof fn lemma_fitting_parent_serves(
    template: NeuralNetSettingsView,
    child: NeuralNetSettingsView,
    parent: NeuralNetSettingsView,
    missing: NNetError,
)
    requires
        fits(template, child),
        fits(template, parent),
    ensures
        weights_fault(child, parent, missing) is None,
{
    lemma_no_first_fault(template, child, parent, missing, 0);
}

/// Where child and parent fit the template, no layer at or after `from` is
/// faulty.
pub proof fn lemma_no_first_fault(
    template: NeuralNetSettingsView,
    child: NeuralNetSettingsView,
    parent: NeuralNetSettingsView,
    missing: NNetError,
    from: int,
)
    requires
        fits(template, child),
        fits(template, parent),
        0 <= from,
    ensures
        first_fault(child.layers, parent.layers, missing, from) is None,
    decreases child.layers.len() - from,
{
    if from < child.layers.len() {
        let ours = child.layers[from];
        let theirs = parent.layers[from];
        assert(layer_fits(ours, width_at(template, from)));
        assert(layer_fits(theirs, width_at(template, from)));
        assert(matrix_fault(ours.layer_weights->0, theirs.layer_weights->0) is None) by {
            assert forall|k: int| 0 <= k < ours.layer_weights->0.len() implies !(
            theirs.layer_weights->0[k].len() < ours.layer_weights->0[k].len()) by {
                assert(ours.layer_weights->0[k].len() == width_at(template, from));
                assert(theirs.layer_weights->0[k].len() == width_at(template, from));
            }
        }
        assert(layer_fault(ours, theirs, missing) is None);
        lemma_no_first_fault(template, child, parent, missing, from + 1);
    }
}

/// Noting a result changes the shape of no configuration.
pub proof fn lemma_noted_all_keeps_fit(
    template: NeuralNetSettingsView,
    pool: Seq<NeuralNetSettingsView>,
    results: Seq<TrainerResult>,
    count: nat,
)
    requires
        all_fit(template, pool),
    ensures
        all_fit(template, noted_all(pool, results, count)),
    decreases count,
{
    if count > 0 {
        let before = noted_all(pool, results, (count - 1) as nat);
        lemma_noted_all_keeps_fit(template, pool, results, (count - 1) as nat);
        lemma_first_with_id(before, results[count - 1].trainee_id, 0);
        let after = noted(before, results[count - 1]);
        assert forall|c: int| 0 <= c < after.len() implies fits(template, #[trigger] after[c]) by {
            assert(fits(template, before[c]));
            assert(after[c].layers == before[c].layers);
            assert(ranges_open(before[c]));
        }
    }
}

/// Topping the elite up moves configurations and changes none.
pub proof fn lemma_expanded_keeps_fit(
    template: NeuralNetSettingsView,
    elite: Seq<NeuralNetSettingsView>,
    candidates: Seq<NeuralNetSettingsView>,
    winners: nat,
)
    requires
        all_fit(template, elite),
        all_fit(template, candidates),
    ensures
        all_fit(template, expanded(elite, candidates, winners).0),
        all_fit(template, expanded(elite, candidates, winners).1),
    decreases candidates.len(),
{
    if elite.len() < winners && candidates.len() > 0 {
        let best = last_best(candidates, candidates.len() as int);
        lemma_last_best(candidates, candidates.len() as int);
        let more = elite.push(candidates[best]);
        let fewer = candidates.remove(best);
        assert forall|c: int| 0 <= c < more.len() implies fits(template, #[trigger] more[c]) by {
            if c < elite.len() {
                assert(more[c] == elite[c]);
            } else {
                assert(more[c] == candidates[best]);
            }
        }
        assert forall|c: int| 0 <= c < fewer.len() implies fits(template, #[trigger] fewer[c]) by {
            assert(fewer[c] == candidates[if c < best {
                c
            } else {
                c + 1
            }]);
        }
        lemma_expanded_keeps_fit(template, more, fewer, winners);
    }
}

/// Letting candidates take the places of members of the elite moves
/// configurations and changes none.
pub proof fn lemma_promoted_keeps_fit(template: NeuralNetSettingsView, pools: Pools, upto: int)
    requires
        pools_fit(template, pools),
    ensures
        pools_fit(template, promoted(pools, upto)),
    decreases upto,
{
    if 0 < upto <= pools.candidates.len() {
        let candidate = pools.candidates[upto - 1];
        lemma_first_beaten(pools.elite, candidate.accuracy, 0);
        match first_beaten(pools.elite, candidate.accuracy, 0) {
            Some(j) => {
                let next = Pools {
                    elite: pools.elite.remove(j).push(candidate),
                    candidates: pools.candidates.remove(upto - 1),
                    recycled: pools.recycled.push(pools.elite[j]),
                };
                assert forall|c: int| 0 <= c < next.elite.len() implies fits(
                    template,
                    #[trigger] next.elite[c],
                ) by {
                    if c < next.elite.len() - 1 {
                        assert(next.elite[c] == pools.elite[if c < j {
                            c
                        } else {
                            c + 1
                        }]);
                    }
                }
                assert forall|c: int| 0 <= c < next.candidates.len() implies fits(
                    template,
                    #[trigger] next.candidates[c],
                ) by {
                    assert(next.candidates[c] == pools.candidates[if c < upto - 1 {
                        c
                    } else {
                        c + 1
                    }]);
                }
                assert forall|c: int| 0 <= c < next.recycled.len() implies fits(
                    template,
                    #[trigger] next.recycled[c],
                ) by {
                    if c < pools.recycled.len() {
                        assert(next.recycled[c] == pools.recycled[c]);
                    }
                }
                lemma_promoted_keeps_fit(template, next, upto - 1);
            },
            None => {
                lemma_promoted_keeps_fit(template, pools, upto - 1);
            },
        }
    }
}

/// The selection at the end of a round moves configurations and changes
/// their accuracies only.
pub proof fn lemma_selection_keeps_fit(
    template: NeuralNetSettingsView,
    pools: Pools,
    results: Seq<TrainerResult>,
    winners: nat,
)
    requires
        pools_fit(template, pools),
    ensures
        ({
            let noted = noted_all(pools.candidates, results, results.len());
            let topped = expanded(pools.elite, noted, winners);
            let after = promoted(
                Pools { elite: topped.0, candidates: topped.1, recycled: pools.recycled },
                topped.1.len() as int,
            );
            all_fit(template, after.elite) && all_fit(template, after.recycled + after.candidates.reverse())
        }),
{
    let noted = noted_all(pools.candidates, results, results.len());
    let topped = expanded(pools.elite, noted, winners);
    let middle = Pools { elite: topped.0, candidates: topped.1, recycled: pools.recycled };
    let after = promoted(middle, topped.1.len() as int);
    lemma_noted_all_keeps_fit(template, pools.candidates, results, results.len());
    lemma_expanded_keeps_fit(template, pools.elite, noted, winners);
    lemma_promoted_keeps_fit(template, middle, topped.1.len() as int);
    let last = after.recycled + after.candidates.reverse();
    assert forall|c: int| 0 <= c < last.len() implies fits(template, #[trigger] last[c]) by {
        if c < after.recycled.len() {
            assert(last[c] == after.recycled[c]);
        } else {
            let k = c - after.recycled.len();
            assert(last[c] == after.candidates[after.candidates.len() - 1 - k]);
        }
    }
}

/// Draining the elite moves configurations and changes none.
pub proof fn lemma_drained_keeps_fit(
    template: NeuralNetSettingsView,
    elite: Seq<NeuralNetSettingsView>,
    output: Seq<NeuralNetSettingsView>,
    min_acceptable: u64,
    wanted: nat,
)
    requires
        all_fit(template, elite),
        all_fit(template, output),
    ensures
        all_fit(template, drained(elite, output, min_acceptable, wanted).0),
        all_fit(template, drained(elite, output, min_acceptable, wanted).1),
    decreases elite.len(),
{
    if elite.len() > 0 {
        let best = first_best(elite, elite.len() as int);
        lemma_first_best(elite, elite.len() as int);
        let winner = elite[best];
        let rest = elite.remove(best);
        let more = output.push(winner);
        assert forall|c: int| 0 <= c < rest.len() implies fits(template, #[trigger] rest[c]) by {
            assert(rest[c] == elite[if c < best {
                c
            } else {
                c + 1
            }]);
        }
        assert forall|c: int| 0 <= c < more.len() implies fits(template, #[trigger] more[c]) by {
            if c < output.len() {
                assert(more[c] == output[c]);
            }
        }
        if winner.accuracy < min_acceptable {
            lemma_drained_keeps_fit(template, rest, output, min_acceptable, wanted);
        } else if output.len() + 1 >= wanted {
        } else {
            lemma_drained_keeps_fit(template, rest, more, min_acceptable, wanted);
        }
    }
}

} // verus!
