//! Where the candidates of a round come from: which configuration was taken
//! for each child, from which members of the elite it was bred, with which
//! operator, and when no child can be taken any more.

use vstd::prelude::*;
use crate::classifier_parts::breeder::{
    ga_swap_bred, layer_draws, sa_hyper_bred, sa_weights_bred, shaped_draws, shaped_preferences,
};
use crate::classifier_parts::operators::{
    ga_blend_child, ga_hyper_child, ga_swap_child, lemma_ga_hyper_keeps_range_open,
    lemma_ga_hyper_keeps_rates_non_negative, lemma_sa_hyper_keeps_range_open,
    lemma_sa_hyper_keeps_rates_non_negative, lemma_weight_operators_keep_ranges, sa_hyper_child,
    sa_weights_child, HyperParameterGates, Mutation,
};
use crate::fixed_point::ONE;
use crate::classifier_parts::schedule::Schedule;
use crate::data_and_config::neural_net_config_parts::NeuralNetSettingsView;

verus! {

/// The operators by which a child is bred.
#[derive(Clone, Copy, Debug, PartialEq, Eq, Structural)]
pub enum Operator {
    /// Annealing of hyperparameters.
    SaHyper,
    /// Annealing of weights.
    SaWeights,
    /// Crossover of hyperparameters.
    GaHyper,
    /// Crossover of weights by blending.
    GaBlend,
    /// Crossover of weights by rows.
    GaSwap,
}

/// What the operators read besides the configurations: the gates, the
/// temperature and the favourability.
pub struct Climate {
    pub gates: HyperParameterGates,
    pub temperature: u64,
    pub favoured: u64,
}

/// Whether `child` is what `operator` makes of `seed` and the parents
/// `first` and `second`. An annealing reads `first` only.
pub open spec fn bred_by(
    operator: Operator,
    seed: NeuralNetSettingsView,
    first: NeuralNetSettingsView,
    second: NeuralNetSettingsView,
    climate: Climate,
    child: NeuralNetSettingsView,
) -> bool {
    match operator {
        Operator::SaHyper => sa_hyper_bred(seed, first, climate.gates, climate.temperature as int, child),
        Operator::SaWeights => sa_weights_bred(seed, first, climate.temperature as int, child),
        Operator::GaHyper => child == ga_hyper_child(
            seed,
            first,
            second,
            climate.gates,
            climate.favoured as int,
        ),
        Operator::GaBlend => child == ga_blend_child(seed, first, second, climate.favoured as int),
        Operator::GaSwap => ga_swap_bred(seed, first, second, climate.favoured as int, child),
    }
}

impl Operator {
    /// Whether the operator works on the weights; the others work on the
    /// hyperparameters.
    pub open spec fn on_weights(self) -> bool {
        self == Operator::SaWeights || self == Operator::GaBlend || self == Operator::GaSwap
    }
}

/// After any operator, the lower weight limit of every layer of the child is
/// below its upper limit. Two cases are left out, in which no operator can
/// see to it: an operator on hyperparameters has brought the lower limit to
/// the largest number there is, above which no upper limit fits; or an
/// operator on weights, which leaves the limits alone, was given a
/// configuration whose limits had met or crossed.
pub proof fn lemma_bred_keeps_ranges_open(
    operator: Operator,
    seed: NeuralNetSettingsView,
    first: NeuralNetSettingsView,
    second: NeuralNetSettingsView,
    climate: Climate,
    child: NeuralNetSettingsView,
    j: int,
)
    requires
        bred_by(operator, seed, first, second, climate, child),
        0 <= j < child.layers.len(),
        !operator.on_weights() ==> child.layers[j].weight_range.low < i64::MAX,
        operator.on_weights() ==> seed.layers[j].weight_range.low < seed.layers[j].weight_range.high,
    ensures
        child.layers[j].weight_range.low < child.layers[j].weight_range.high,
{
    match operator {
        Operator::SaHyper => {
            let draws = choose|draws: Seq<Mutation>| #[trigger]
                layer_draws(draws, seed, climate.temperature as int) && child == sa_hyper_child(
                    seed,
                    first,
                    climate.gates,
                    draws,
                );
            lemma_sa_hyper_keeps_range_open(seed, first, climate.gates, draws, j);
        },
        Operator::SaWeights => {
            let draws = choose|draws: Seq<Seq<Seq<Mutation>>>| #[trigger]
                shaped_draws(draws, seed, climate.temperature as int) && child == sa_weights_child(
                    seed,
                    first,
                    draws,
                );
            lemma_weight_operators_keep_ranges(seed, first, second, climate.favoured as int, draws, Seq::empty(), j);
        },
        Operator::GaHyper => {
            lemma_ga_hyper_keeps_range_open(seed, first, second, climate.gates, climate.favoured as int, j);
        },
        Operator::GaBlend => {
            lemma_weight_operators_keep_ranges(
                seed,
                first,
                second,
                climate.favoured as int,
                Seq::empty(),
                Seq::empty(),
                j,
            );
        },
        Operator::GaSwap => {
            let preferences = choose|preferences: Seq<Seq<u64>>| #[trigger]
                shaped_preferences(preferences, seed) && child == ga_swap_child(
                    seed,
                    first,
                    second,
                    climate.favoured as int,
                    preferences,
                );
            lemma_weight_operators_keep_ranges(
                seed,
                first,
                second,
                climate.favoured as int,
                Seq::empty(),
                preferences,
                j,
            );
        },
    }
}

/// No operator makes a learning rate or a momentum negative. An operator on
/// hyperparameters leaves a value whose gate is open at zero or above where
/// every parent that it reads has it there: the one parent of an annealing,
/// both parents of a crossover. A value whose gate is closed, and every
/// value under an operator on weights, stays as the child was seeded with
/// it.
pub proof fn lemma_bred_keeps_rates_non_negative(
    operator: Operator,
    seed: NeuralNetSettingsView,
    first: NeuralNetSettingsView,
    second: NeuralNetSettingsView,
    climate: Climate,
    child: NeuralNetSettingsView,
    j: int,
)
    requires
        bred_by(operator, seed, first, second, climate, child),
        0 <= j < child.layers.len(),
        climate.favoured <= ONE,
    ensures
        (if operator.on_weights() || !climate.gates.learning_rate {
            seed.layers[j].learning_rate >= 0
        } else {
            first.layers[j].learning_rate >= 0 && (operator == Operator::GaHyper
                ==> second.layers[j].learning_rate >= 0)
        }) ==> child.layers[j].learning_rate >= 0,
        (if operator.on_weights() || !climate.gates.momentum {
            seed.layers[j].momentum >= 0
        } else {
            first.layers[j].momentum >= 0 && (operator == Operator::GaHyper ==> second.layers[j].momentum
                >= 0)
        }) ==> child.layers[j].momentum >= 0,
{
    match operator {
        Operator::SaHyper => {
            let draws = choose|draws: Seq<Mutation>| #[trigger]
                layer_draws(draws, seed, climate.temperature as int) && child == sa_hyper_child(
                    seed,
                    first,
                    climate.gates,
                    draws,
                );
            lemma_sa_hyper_keeps_rates_non_negative(seed, first, climate.gates, draws, j);
        },
        Operator::GaHyper => {
            lemma_ga_hyper_keeps_rates_non_negative(
                seed,
                first,
                second,
                climate.gates,
                climate.favoured as int,
                j,
            );
        },
        _ => {},
    }
}

/// How many of `children` need a fresh identifier when `waiting`
/// configurations wait to be recycled.
pub open spec fn fresh_needed(waiting: int, children: int) -> int {
    if children > waiting {
        children - waiting
    } else {
        0
    }
}

/// Whether `children` children can be taken: there is an identifier for
/// every one that is not recycled.
pub open spec fn can_take(waiting: int, id_sequence: int, children: int) -> bool {
    id_sequence + fresh_needed(waiting, children) <= usize::MAX
}

/// The configuration that is taken for the child number `k`: the recycled
/// serve first, the last of them before the others, and then copies of the
/// template are numbered on from `id_sequence`.
pub open spec fn seed_at(
    recycled: Seq<NeuralNetSettingsView>,
    template: NeuralNetSettingsView,
    id_sequence: usize,
    k: int,
) -> NeuralNetSettingsView {
    if k < recycled.len() {
        recycled[recycled.len() - 1 - k]
    } else {
        NeuralNetSettingsView { config_id: (id_sequence + (k - recycled.len())) as usize, ..template }
    }
}

/// The recycled that are left once `k` children were taken.
pub open spec fn left_after(recycled: Seq<NeuralNetSettingsView>, k: int) -> Seq<NeuralNetSettingsView> {
    recycled.take(
        if k >= recycled.len() {
            0
        } else {
            recycled.len() - k
        },
    )
}

/// Whether `now` and `id_now` are the recycled and the sequence of
/// identifiers once `k` children were taken from `recycled` and
/// `id_sequence`.
pub open spec fn taken(
    recycled: Seq<NeuralNetSettingsView>,
    id_sequence: usize,
    k: int,
    now: Seq<NeuralNetSettingsView>,
    id_now: usize,
) -> bool {
    &&& can_take(recycled.len() as int, id_sequence as int, k)
    &&& now == left_after(recycled, k)
    &&& id_now == id_sequence + fresh_needed(recycled.len() as int, k)
}

/// Taking one more child after `k`: it can be taken where `k + 1` can, it is
/// the child number `k`, and it leaves what `k + 1` children leave.
pub proof fn lemma_taken_one_more(
    recycled: Seq<NeuralNetSettingsView>,
    template: NeuralNetSettingsView,
    id_sequence: usize,
    k: int,
    now: Seq<NeuralNetSettingsView>,
    id_now: usize,
)
    requires
        0 <= k,
        taken(recycled, id_sequence, k, now, id_now),
    ensures
        can_take(now.len() as int, id_now as int, 1) <==> can_take(
            recycled.len() as int,
            id_sequence as int,
            k + 1,
        ),
        seed_at(now, template, id_now, 0) == seed_at(recycled, template, id_sequence, k),
        can_take(recycled.len() as int, id_sequence as int, k + 1) ==> taken(
            recycled,
            id_sequence,
            k + 1,
            left_after(now, 1),
            (id_now + fresh_needed(now.len() as int, 1)) as usize,
        ),
        !can_take(now.len() as int, id_now as int, 1) ==> now.len() == 0 && id_now == usize::MAX,
{
    assert(left_after(now, 1) =~= left_after(recycled, k + 1));
}

/// Where some number of children cannot be taken, no greater number can.
pub proof fn lemma_cannot_take_more(waiting: int, id_sequence: int, fewer: int, more: int)
    requires
        fewer <= more,
        !can_take(waiting, id_sequence, fewer),
    ensures
        !can_take(waiting, id_sequence, more),
{
}

/// The place among the children of an annealing of the child that is bred
/// from the member `i` after `d` drops, in an elite of `n`.
pub open spec fn anneal_place(n: int, d: int, i: int) -> int {
    d * n + i
}

/// A child of an earlier temperature, or of an earlier member at the same
/// temperature, has an earlier place; and every place is below the number of
/// children.
pub proof fn lemma_anneal_places(n: int, d1: int, i1: int, d2: int, i2: int)
    requires
        0 <= d1,
        0 <= i1 < n,
        0 <= i2 <= n,
        d1 < d2 || (d1 == d2 && i1 < i2),
    ensures
        0 <= anneal_place(n, d1, i1) < anneal_place(n, d2, i2),
{
    assert(d1 * n + i1 < d2 * n + i2 && d1 * n + i1 >= 0) by (nonlinear_arith)
        requires
            0 <= d1,
            0 <= i1 < n,
            0 <= i2 <= n,
            d1 < d2 || (d1 == d2 && i1 < i2),
    ;
}

/// The rank of the member `j` among the partners of the member `i`.
pub open spec fn partner_rank(i: int, j: int) -> int {
    if j < i {
        j
    } else {
        j - 1
    }
}

/// The place among the children of a crossover of the first child of the
/// pair `(i, j)`, in an elite of `n` with `per_pair` children for each pair.
pub open spec fn cross_place(n: int, per_pair: int, i: int, j: int) -> int {
    i * (n - 1) * per_pair + partner_rank(i, j) * per_pair
}

/// The children of an earlier pair have earlier places.
pub proof fn lemma_cross_places(n: int, per_pair: int, i1: int, j1: int, i2: int, j2: int)
    requires
        1 <= per_pair,
        0 <= i1 < n,
        0 <= j1 < n,
        i1 != j1,
        0 <= i2 < n,
        0 <= j2 <= n,
        i2 != j2 || j2 == n,
        i1 < i2 || (i1 == i2 && j1 < j2),
    ensures
        0 <= cross_place(n, per_pair, i1, j1),
        cross_place(n, per_pair, i1, j1) + per_pair <= i2 * (n - 1) * per_pair + (if j2 > i2 {
            j2 - 1
        } else {
            j2
        }) * per_pair,
{
    let first = i1 * (n - 1) + partner_rank(i1, j1);
    let second = i2 * (n - 1) + (if j2 > i2 {
        j2 - 1
    } else {
        j2
    });
    assert(0 <= first && first + 1 <= second) by (nonlinear_arith)
        requires
            first == i1 * (n - 1) + partner_rank(i1, j1),
            second == i2 * (n - 1) + (if j2 > i2 {
                j2 - 1
            } else {
                j2
            }),
            0 <= partner_rank(i1, j1) <= n - 2,
            0 <= i1 < n,
            0 <= i2 < n,
            0 <= j2 <= n,
            i1 < i2 || (i1 == i2 && partner_rank(i1, j1) < (if j2 > i2 {
                j2 - 1
            } else {
                j2
            })),
    ;
    assert(first * per_pair == cross_place(n, per_pair, i1, j1)) by (nonlinear_arith)
        requires
            first == i1 * (n - 1) + partner_rank(i1, j1),
            cross_place(n, per_pair, i1, j1) == i1 * (n - 1) * per_pair + partner_rank(i1, j1) * per_pair,
    ;
    assert(second * per_pair == i2 * (n - 1) * per_pair + (if j2 > i2 {
        j2 - 1
    } else {
        j2
    }) * per_pair) by (nonlinear_arith)
        requires
            second == i2 * (n - 1) + (if j2 > i2 {
                j2 - 1
            } else {
                j2
            }),
    ;
    assert(first * per_pair + per_pair <= second * per_pair) by (nonlinear_arith)
        requires
            first + 1 <= second,
            per_pair >= 1,
    ;
}

/// The children of every pair have their places among the children of all
/// pairs.
pub proof fn lemma_cross_place_within(n: int, per_pair: int, i: int, j: int)
    requires
        1 <= per_pair,
        0 <= i < n,
        0 <= j < n,
        i != j,
    ensures
        0 <= cross_place(n, per_pair, i, j),
        cross_place(n, per_pair, i, j) + per_pair <= n * (n - 1) * per_pair,
{
    let place = i * (n - 1) + partner_rank(i, j);
    assert(0 <= place && place + 1 <= n * (n - 1)) by (nonlinear_arith)
        requires
            place == i * (n - 1) + partner_rank(i, j),
            0 <= partner_rank(i, j) <= n - 2,
            0 <= i < n,
    ;
    assert(place * per_pair == cross_place(n, per_pair, i, j)) by (nonlinear_arith)
        requires
            place == i * (n - 1) + partner_rank(i, j),
            cross_place(n, per_pair, i, j) == i * (n - 1) * per_pair + partner_rank(i, j) * per_pair,
    ;
    assert(place * per_pair + per_pair <= n * (n - 1) * per_pair && place * per_pair >= 0) by (nonlinear_arith)
        requires
            0 <= place,
            place + 1 <= n * (n - 1),
            per_pair >= 1,
    ;
}

/// What the annealing of a round starts from.
pub struct Start {
    /// The candidates that were there.
    pub candidates: Seq<NeuralNetSettingsView>,
    /// The recycled that were there.
    pub recycled: Seq<NeuralNetSettingsView>,
    /// The template of the run.
    pub template: NeuralNetSettingsView,
    /// The sequence of identifiers as it stood.
    pub id_sequence: usize,
    /// The elite.
    pub elite: Seq<NeuralNetSettingsView>,
    /// The gates of the breeder.
    pub gates: HyperParameterGates,
    /// The temperature as it stood.
    pub temperature: Schedule,
    /// The favourability as it stood.
    pub favoured: u64,
}

/// Whether the candidate that `candidates` holds for the member `i` after
/// `d` drops of the temperature is what the annealing, of weights or of
/// hyperparameters, makes of the configuration taken for it and that member
/// at that temperature.
pub open spec fn annealed_at(
    candidates: Seq<NeuralNetSettingsView>,
    start: Start,
    weights: bool,
    d: int,
    i: int,
) -> bool {
    let place = anneal_place(start.elite.len() as int, d, i);
    bred_by(
        if weights {
            Operator::SaWeights
        } else {
            Operator::SaHyper
        },
        seed_at(start.recycled, start.template, start.id_sequence, place),
        start.elite[i],
        start.elite[i],
        Climate {
            gates: start.gates,
            temperature: start.temperature.dropped_times(d as nat).current,
            favoured: start.favoured,
        },
        candidates[start.candidates.len() + place],
    )
}

/// Whether the candidates that `candidates` holds for the pair `(i, j)` of
/// members are what the crossover makes of the configurations taken for
/// them and the two members: one child by blending, and for weights a second
/// one by rows.
pub open spec fn crossed_at(
    candidates: Seq<NeuralNetSettingsView>,
    start: Start,
    weights: bool,
    i: int,
    j: int,
) -> bool {
    let per_pair: int = if weights {
        2
    } else {
        1
    };
    let place = cross_place(start.elite.len() as int, per_pair, i, j);
    let climate = Climate {
        gates: start.gates,
        temperature: start.temperature.current,
        favoured: start.favoured,
    };
    &&& bred_by(
        if weights {
            Operator::GaBlend
        } else {
            Operator::GaHyper
        },
        seed_at(start.recycled, start.template, start.id_sequence, place),
        start.elite[i],
        start.elite[j],
        climate,
        candidates[start.candidates.len() + place],
    )
    &&& weights ==> bred_by(
        Operator::GaSwap,
        seed_at(start.recycled, start.template, start.id_sequence, place + 1),
        start.elite[i],
        start.elite[j],
        climate,
        candidates[start.candidates.len() + place + 1],
    )
}

} // verus!
