//! Selection among candidates: who joins the elite, who is displaced, who is
//! recycled, and who is handed out in the end.

use vstd::prelude::*;
use crate::data_and_config::neural_net_config_parts::{NeuralNetSettings, NeuralNetSettingsView};
use crate::fixed_point::ONE;

verus! {

/// What a trainer reports of its test: the configuration it was bound to, and
/// the accuracy it reached.
#[derive(Clone, Copy, Debug, PartialEq, Eq, Structural)]
pub struct TrainerResult {
    pub trainee_id: usize,
    pub accuracy: u64,
}

/// The configurations of a pool as mathematical values.
pub open spec fn pool_view(pool: Vec<NeuralNetSettings>) -> Seq<NeuralNetSettingsView> {
    Seq::new(pool@.len(), |i: int| pool@[i]@)
}

/// The first position at or after `from` whose configuration has the
/// identifier `id`.
pub open spec fn first_with_id(pool: Seq<NeuralNetSettingsView>, id: usize, from: int) -> Option<int>
    decreases pool.len() - from,
{
    if from < 0 || from >= pool.len() {
        None
    } else if pool[from].config_id == id {
        Some(from)
    } else {
        first_with_id(pool, id, from + 1)
    }
}

/// The pool after one result was noted: the first configuration with the
/// result's identifier has the result's accuracy.
pub open spec fn noted(pool: Seq<NeuralNetSettingsView>, result: TrainerResult) -> Seq<
    NeuralNetSettingsView,
> {
    match first_with_id(pool, result.trainee_id, 0) {
        Some(j) => pool.update(j, NeuralNetSettingsView { accuracy: result.accuracy, ..pool[j] }),
        None => pool,
    }
}

/// The pool after the first `count` results were noted, in order.
pub open spec fn noted_all(pool: Seq<NeuralNetSettingsView>, results: Seq<TrainerResult>, count: nat) -> Seq<
    NeuralNetSettingsView,
>
    decreases count,
{
    if count == 0 {
        pool
    } else {
        noted(noted_all(pool, results, (count - 1) as nat), results[count - 1])
    }
}

/// What `first_with_id` finds is a position of the pool with that identifier.
pub proof fn lemma_first_with_id(pool: Seq<NeuralNetSettingsView>, id: usize, from: int)
    requires
        0 <= from,
    ensures
        first_with_id(pool, id, from) matches Some(j) ==> from <= j < pool.len() && pool[j].config_id == id,
    decreases pool.len() - from,
{
    if from < pool.len() && pool[from].config_id != id {
        lemma_first_with_id(pool, id, from + 1);
    }
}

/// Notes one result in a pool.
fn note_result(pool: &mut Vec<NeuralNetSettings>, result: TrainerResult)
    ensures
        pool_view(*final(pool)) == noted(pool_view(*old(pool)), result),
{
    let mut j: usize = 0;
    while j < pool.len()
        invariant
            j <= pool.len(),
            *pool == *old(pool),
            first_with_id(pool_view(*pool), result.trainee_id, 0) == first_with_id(
                pool_view(*pool),
                result.trainee_id,
                j as int,
            ),
        decreases pool.len() - j,
    {
        if pool[j].config_id == result.trainee_id {
            pool[j].accuracy = result.accuracy;
            assert(pool_view(*pool) =~= noted(pool_view(*old(pool)), result));
            return ;
        }
        j += 1;
    }
}

/// Copies the accuracy of every result onto the first candidate with the
/// result's identifier, result after result.
pub fn copy_trainer_accuracy_to_settings(
    candidate_settings: &mut Vec<NeuralNetSettings>,
    results: &Vec<TrainerResult>,
)
    ensures
        pool_view(*final(candidate_settings)) == noted_all(
            pool_view(*old(candidate_settings)),
            results@,
            results@.len(),
        ),
{
    let mut i: usize = 0;
    while i < results.len()
        invariant
            i <= results.len(),
            pool_view(*candidate_settings) == noted_all(pool_view(*old(candidate_settings)), results@, i as nat),
        decreases results.len() - i,
    {
        note_result(candidate_settings, results[i]);
        i += 1;
    }
}

/// The position of the greatest accuracy among the first `upto`
/// configurations of a pool; of the last of them where several have it.
pub open spec fn last_best(pool: Seq<NeuralNetSettingsView>, upto: int) -> int
    decreases upto,
{
    if upto <= 1 {
        0
    } else {
        let before = last_best(pool, upto - 1);
        if pool[upto - 1].accuracy >= pool[before].accuracy {
            upto - 1
        } else {
            before
        }
    }
}

/// `last_best` finds a position whose accuracy none of the others exceeds.
pub proof fn lemma_last_best(pool: Seq<NeuralNetSettingsView>, upto: int)
    requires
        1 <= upto <= pool.len(),
    ensures
        0 <= last_best(pool, upto) < upto,
        forall|i: int| 0 <= i < upto ==> (#[trigger] pool[i]).accuracy <= pool[last_best(pool, upto)].accuracy,
    decreases upto,
{
    if upto > 1 {
        lemma_last_best(pool, upto - 1);
    }
}

/// Finds the last position with the greatest accuracy.
pub fn find_best(pool: &Vec<NeuralNetSettings>) -> (best: usize)
    requires
        pool.len() > 0,
    ensures
        best == last_best(pool_view(*pool), pool.len() as int),
        best < pool.len(),
        forall|i: int| 0 <= i < pool.len() ==> (#[trigger] pool@[i]).accuracy <= pool@[best as int].accuracy,
{
    let mut best: usize = 0;
    let mut i: usize = 1;
    while i < pool.len()
        invariant
            1 <= i <= pool.len(),
            best == last_best(pool_view(*pool), i as int),
            best < i,
        decreases pool.len() - i,
    {
        if pool[i].accuracy >= pool[best].accuracy {
            best = i;
        }
        i += 1;
    }
    proof {
        lemma_last_best(pool_view(*pool), pool.len() as int);
        assert forall|i: int| 0 <= i < pool.len() implies (#[trigger] pool@[i]).accuracy <= pool@[best as int].accuracy by {
            assert(pool_view(*pool)[i].accuracy == pool@[i].accuracy);
        }
    }
    best
}

/// The elite and the candidates after the elite was topped up to `winners`:
/// while it is short of them and candidates are left, the best candidate
/// joins it.
pub open spec fn expanded(
    elite: Seq<NeuralNetSettingsView>,
    candidates: Seq<NeuralNetSettingsView>,
    winners: nat,
) -> (Seq<NeuralNetSettingsView>, Seq<NeuralNetSettingsView>)
    decreases candidates.len(),
{
    if elite.len() >= winners || candidates.len() == 0 {
        (elite, candidates)
    } else {
        let best = last_best(candidates, candidates.len() as int);
        if 0 <= best < candidates.len() {
            expanded(elite.push(candidates[best]), candidates.remove(best), winners)
        } else {
            (elite, candidates)
        }
    }
}

/// Tops the elite up to `winners_per_round` with the best of the candidates.
pub fn expand_most_accurate_settings(
    most_accurate_settings: &mut Vec<NeuralNetSettings>,
    candidate_settings: &mut Vec<NeuralNetSettings>,
    winners_per_round: usize,
)
    ensures
        (pool_view(*final(most_accurate_settings)), pool_view(*final(candidate_settings))) == expanded(
            pool_view(*old(most_accurate_settings)),
            pool_view(*old(candidate_settings)),
            winners_per_round as nat,
        ),
{
    while most_accurate_settings.len() < winners_per_round && candidate_settings.len() > 0
        invariant
            expanded(
                pool_view(*most_accurate_settings),
                pool_view(*candidate_settings),
                winners_per_round as nat,
            ) == expanded(
                pool_view(*old(most_accurate_settings)),
                pool_view(*old(candidate_settings)),
                winners_per_round as nat,
            ),
        decreases candidate_settings.len(),
    {
        let ghost elite_before = pool_view(*most_accurate_settings);
        let ghost candidates_before = pool_view(*candidate_settings);
        let best = find_best(candidate_settings);
        let winner = candidate_settings.remove(best);
        most_accurate_settings.push(winner);
        assert(pool_view(*candidate_settings) =~= candidates_before.remove(best as int));
        assert(pool_view(*most_accurate_settings) =~= elite_before.push(candidates_before[best as int]));
    }
}

/// The first position at or after `from` of an elite whose accuracy is below
/// `accuracy`.
pub open spec fn first_beaten(elite: Seq<NeuralNetSettingsView>, accuracy: u64, from: int) -> Option<int>
    decreases elite.len() - from,
{
    if from < 0 || from >= elite.len() {
        None
    } else if accuracy > elite[from].accuracy {
        Some(from)
    } else {
        first_beaten(elite, accuracy, from + 1)
    }
}

/// What `first_beaten` finds is a position of the elite with a lower
/// accuracy; it finds none only where no accuracy is lower.
pub proof fn lemma_first_beaten(elite: Seq<NeuralNetSettingsView>, accuracy: u64, from: int)
    requires
        0 <= from,
    ensures
        match first_beaten(elite, accuracy, from) {
            Some(j) => from <= j < elite.len() && elite[j].accuracy < accuracy,
            None => forall|i: int| from <= i < elite.len() ==> (#[trigger] elite[i]).accuracy >= accuracy,
        },
    decreases elite.len() - from,
{
    if from < elite.len() && accuracy <= elite[from].accuracy {
        lemma_first_beaten(elite, accuracy, from + 1);
    }
}

/// The three pools of a round.
pub struct Pools {
    pub elite: Seq<NeuralNetSettingsView>,
    pub candidates: Seq<NeuralNetSettingsView>,
    pub recycled: Seq<NeuralNetSettingsView>,
}

/// The pools after the candidates before `upto` had their turn, the last of
/// them first: a candidate that beats a member of the elite takes the place
/// of the first it beats, which is recycled.
pub open spec fn promoted(pools: Pools, upto: int) -> Pools
    decreases upto,
{
    if upto <= 0 || upto > pools.candidates.len() {
        pools
    } else {
        let candidate = pools.candidates[upto - 1];
        match first_beaten(pools.elite, candidate.accuracy, 0) {
            Some(j) => if 0 <= j < pools.elite.len() {
                promoted(
                    Pools {
                        elite: pools.elite.remove(j).push(candidate),
                        candidates: pools.candidates.remove(upto - 1),
                        recycled: pools.recycled.push(pools.elite[j]),
                    },
                    upto - 1,
                )
            } else {
                pools
            },
            None => promoted(pools, upto - 1),
        }
    }
}

/// Finds the first member of the elite with an accuracy below `accuracy`.
fn find_first_beaten(elite: &Vec<NeuralNetSettings>, accuracy: u64) -> (found: Option<usize>)
    ensures
        match found {
            Some(j) => {
                &&& first_beaten(pool_view(*elite), accuracy, 0) == Some(j as int)
                &&& j < elite.len()
                &&& elite@[j as int].accuracy < accuracy
            },
            None => first_beaten(pool_view(*elite), accuracy, 0) is None,
        },
{
    let mut j: usize = 0;
    while j < elite.len()
        invariant
            j <= elite.len(),
            first_beaten(pool_view(*elite), accuracy, 0) == first_beaten(pool_view(*elite), accuracy, j as int),
        decreases elite.len() - j,
    {
        if accuracy > elite[j].accuracy {
            return Some(j);
        }
        j += 1;
    }
    None
}

/// Lets every candidate, the last first, take the place of the first member
/// of the elite that it beats; the displaced are recycled.
pub fn promote_candidates_to_most_accurate(
    most_accurate_settings: &mut Vec<NeuralNetSettings>,
    candidate_settings: &mut Vec<NeuralNetSettings>,
    recycled_settings: &mut Vec<NeuralNetSettings>,
)
    ensures
        (Pools {
            elite: pool_view(*final(most_accurate_settings)),
            candidates: pool_view(*final(candidate_settings)),
            recycled: pool_view(*final(recycled_settings)),
        }) == promoted(
            Pools {
                elite: pool_view(*old(most_accurate_settings)),
                candidates: pool_view(*old(candidate_settings)),
                recycled: pool_view(*old(recycled_settings)),
            },
            old(candidate_settings).len() as int,
        ),
{
    let mut i: usize = candidate_settings.len();
    while i > 0
        invariant
            i <= candidate_settings.len(),
            promoted(
                Pools {
                    elite: pool_view(*most_accurate_settings),
                    candidates: pool_view(*candidate_settings),
                    recycled: pool_view(*recycled_settings),
                },
                i as int,
            ) == promoted(
                Pools {
                    elite: pool_view(*old(most_accurate_settings)),
                    candidates: pool_view(*old(candidate_settings)),
                    recycled: pool_view(*old(recycled_settings)),
                },
                old(candidate_settings).len() as int,
            ),
        decreases i,
    {
        let ghost before = Pools {
            elite: pool_view(*most_accurate_settings),
            candidates: pool_view(*candidate_settings),
            recycled: pool_view(*recycled_settings),
        };
        if let Some(j) = find_first_beaten(most_accurate_settings, candidate_settings[i - 1].accuracy) {
            let displaced = most_accurate_settings.remove(j);
            recycled_settings.push(displaced);
            let candidate = candidate_settings.remove(i - 1);
            most_accurate_settings.push(candidate);
            assert(pool_view(*most_accurate_settings) =~= before.elite.remove(j as int).push(
                before.candidates[i - 1],
            ));
            assert(pool_view(*candidate_settings) =~= before.candidates.remove(i - 1));
            assert(pool_view(*recycled_settings) =~= before.recycled.push(before.elite[j as int]));
        }
        i -= 1;
    }
}

/// Moves every candidate to the recycled, the last first.
pub fn recycle_settings(candidate_settings: &mut Vec<NeuralNetSettings>, recycled_settings: &mut Vec<NeuralNetSettings>)
    ensures
        final(candidate_settings).len() == 0,
        pool_view(*final(recycled_settings)) == pool_view(*old(recycled_settings)) + pool_view(
            *old(candidate_settings),
        ).reverse(),
{
    let ghost total = pool_view(*old(candidate_settings));
    while candidate_settings.len() > 0
        invariant
            candidate_settings.len() <= total.len(),
            pool_view(*candidate_settings) == total.take(candidate_settings.len() as int),
            pool_view(*recycled_settings) == pool_view(*old(recycled_settings)) + total.skip(
                candidate_settings.len() as int,
            ).reverse(),
        decreases candidate_settings.len(),
    {
        let ghost candidates_before = pool_view(*candidate_settings);
        let ghost recycled_before = pool_view(*recycled_settings);
        let ghost n = candidate_settings.len() as int;
        match candidate_settings.pop() {
            Some(candidate) => {
                recycled_settings.push(candidate);
                assert(candidates_before[n - 1] == total.take(n)[n - 1]);
                assert(pool_view(*candidate_settings) =~= total.take(n - 1));
                assert(pool_view(*recycled_settings) =~= recycled_before.push(total[n - 1]));
                assert(total.skip(n - 1).reverse() =~= total.skip(n).reverse().push(total[n - 1]));
            },
            None => {},
        }
    }
    assert(total.skip(0) =~= total);
}

/// The greatest of `floor` and the accuracies of the first `upto`
/// configurations of a pool.
pub open spec fn top_score(pool: Seq<NeuralNetSettingsView>, floor: u64, upto: int) -> u64
    decreases upto,
{
    if upto <= 0 {
        floor
    } else {
        let before = top_score(pool, floor, upto - 1);
        if pool[upto - 1].accuracy > before {
            pool[upto - 1].accuracy
        } else {
            before
        }
    }
}

/// `top_score` is `floor` or an accuracy of the pool, and none of them
/// exceeds it.
pub proof fn lemma_top_score(pool: Seq<NeuralNetSettingsView>, floor: u64, upto: int)
    requires
        0 <= upto <= pool.len(),
    ensures
        top_score(pool, floor, upto) >= floor,
        forall|i: int| 0 <= i < upto ==> (#[trigger] pool[i]).accuracy <= top_score(pool, floor, upto),
        top_score(pool, floor, upto) == floor || exists|i: int|
            0 <= i < upto && (#[trigger] pool[i]).accuracy == top_score(pool, floor, upto),
    decreases upto,
{
    if upto > 0 {
        lemma_top_score(pool, floor, upto - 1);
    }
}

/// The running best after a round: the greatest of what it was and the
/// accuracies of the elite.
pub fn set_top_score(most_accurate_settings: &Vec<NeuralNetSettings>, max_accuracy: u64) -> (best: u64)
    ensures
        best == top_score(pool_view(*most_accurate_settings), max_accuracy, most_accurate_settings.len() as int),
        best >= max_accuracy,
        forall|i: int| 0 <= i < most_accurate_settings.len() ==> (#[trigger] most_accurate_settings@[i]).accuracy <= best,
{
    let mut best = max_accuracy;
    let mut i: usize = 0;
    while i < most_accurate_settings.len()
        invariant
            i <= most_accurate_settings.len(),
            best == top_score(pool_view(*most_accurate_settings), max_accuracy, i as int),
        decreases most_accurate_settings.len() - i,
    {
        if most_accurate_settings[i].accuracy > best {
            best = most_accurate_settings[i].accuracy;
        }
        i += 1;
    }
    proof {
        lemma_top_score(pool_view(*most_accurate_settings), max_accuracy, most_accurate_settings.len() as int);
        assert forall|i: int| 0 <= i < most_accurate_settings.len() implies (
        #[trigger] most_accurate_settings@[i]).accuracy <= best by {
            assert(pool_view(*most_accurate_settings)[i].accuracy == most_accurate_settings@[i].accuracy);
        }
    }
    best
}

/// The gain in accuracy, as a fixed-point percentage, below which a phase
/// counts as stalled once the running best is `max_accuracy`. The higher the
/// best, the smaller the gain that is asked for: 0.2 up to 90, 0.1 up to 92,
/// 0.08 up to 94, 0.04 below 98, 0.01 up to 99, 0.001 up to 99.4, 0.0005 up to
/// 99.6, 0.0001 up to 99.8, and 0.00005 above.
pub open spec fn threshold_for(max_accuracy: u64) -> u64 {
    if max_accuracy <= 90 * ONE {
        200_000_000
    } else if max_accuracy <= 92 * ONE {
        100_000_000
    } else if max_accuracy <= 94 * ONE {
        80_000_000
    } else if max_accuracy < 98 * ONE {
        40_000_000
    } else if max_accuracy <= 99 * ONE {
        10_000_000
    } else if max_accuracy <= 99_400_000_000 {
        1_000_000
    } else if max_accuracy <= 99_600_000_000 {
        500_000
    } else if max_accuracy <= 99_800_000_000 {
        100_000
    } else {
        50_000
    }
}

/// Computes `threshold_for(max_accuracy)`.
pub fn max_inc_threshold(max_accuracy: u64) -> (threshold: u64)
    ensures
        threshold == threshold_for(max_accuracy),
{
    if max_accuracy <= 90_000_000_000 {
        200_000_000
    } else if max_accuracy <= 92_000_000_000 {
        100_000_000
    } else if max_accuracy <= 94_000_000_000 {
        80_000_000
    } else if max_accuracy < 98_000_000_000 {
        40_000_000
    } else if max_accuracy <= 99_000_000_000 {
        10_000_000
    } else if max_accuracy <= 99_400_000_000 {
        1_000_000
    } else if max_accuracy <= 99_600_000_000 {
        500_000
    } else if max_accuracy <= 99_800_000_000 {
        100_000
    } else {
        50_000
    }
}

/// The threshold never grows as the running best climbs.
pub proof fn lemma_threshold_shrinks(lower: u64, higher: u64)
    requires
        lower <= higher,
    ensures
        threshold_for(higher) <= threshold_for(lower),
{
}

/// Whether the running best has gained less over `prev_accuracy` than the
/// threshold for it asks.
pub fn min_accuracy_inc_not_reached(prev_accuracy: u64, max_accuracy: u64) -> (stalled: bool)
    ensures
        stalled == (max_accuracy - prev_accuracy < threshold_for(max_accuracy)),
{
    let threshold = max_inc_threshold(max_accuracy);
    if max_accuracy < prev_accuracy {
        true
    } else {
        max_accuracy - prev_accuracy < threshold
    }
}

/// Whether the running best has reached the accuracy that was asked for.
pub fn acceptable_accuracy_reached(max_accuracy: u64, min_acceptable_accuracy: u64) -> (reached: bool)
    ensures
        reached == (max_accuracy >= min_acceptable_accuracy),
{
    max_accuracy >= min_acceptable_accuracy
}

/// The first position whose accuracy none of the first `upto` configurations
/// of a pool exceeds, where one of them is above zero; the first position
/// where none is.
pub open spec fn first_best(pool: Seq<NeuralNetSettingsView>, upto: int) -> int
    decreases upto,
{
    if upto <= 1 {
        0
    } else {
        let before = first_best(pool, upto - 1);
        if pool[upto - 1].accuracy > pool[before].accuracy {
            upto - 1
        } else {
            before
        }
    }
}

/// `first_best` finds a position whose accuracy none of the others exceeds.
pub proof fn lemma_first_best(pool: Seq<NeuralNetSettingsView>, upto: int)
    requires
        1 <= upto <= pool.len(),
    ensures
        0 <= first_best(pool, upto) < upto,
        forall|i: int| 0 <= i < upto ==> (#[trigger] pool[i]).accuracy <= pool[first_best(pool, upto)].accuracy,
    decreases upto,
{
    if upto > 1 {
        lemma_first_best(pool, upto - 1);
    }
}

/// The elite and the output after the elite was drained into the output: the
/// best of the elite leaves it, one after the other; one below
/// `min_acceptable` is dropped, any other joins the output, and the draining
/// ends once the output then holds `wanted` at least.
pub open spec fn drained(
    elite: Seq<NeuralNetSettingsView>,
    output: Seq<NeuralNetSettingsView>,
    min_acceptable: u64,
    wanted: nat,
) -> (Seq<NeuralNetSettingsView>, Seq<NeuralNetSettingsView>)
    decreases elite.len(),
{
    if elite.len() == 0 {
        (elite, output)
    } else {
        let best = first_best(elite, elite.len() as int);
        if 0 <= best < elite.len() {
            let winner = elite[best];
            let rest = elite.remove(best);
            if winner.accuracy < min_acceptable {
                drained(rest, output, min_acceptable, wanted)
            } else if output.len() + 1 >= wanted {
                (rest, output.push(winner))
            } else {
                drained(rest, output.push(winner), min_acceptable, wanted)
            }
        } else {
            (elite, output)
        }
    }
}

/// Drains the elite into `tuned_settings`, best first, dropping what is below
/// `min_acceptable_accuracy`, until `tuned_settings` holds
/// `final_number_of_nnet_settings` or the elite is empty.
pub fn collect_final_settings(
    most_accurate_settings: &mut Vec<NeuralNetSettings>,
    tuned_settings: &mut Vec<NeuralNetSettings>,
    min_acceptable_accuracy: u64,
    final_number_of_nnet_settings: usize,
)
    ensures
        (pool_view(*final(most_accurate_settings)), pool_view(*final(tuned_settings))) == drained(
            pool_view(*old(most_accurate_settings)),
            pool_view(*old(tuned_settings)),
            min_acceptable_accuracy,
            final_number_of_nnet_settings as nat,
        ),
{
    while most_accurate_settings.len() > 0
        invariant_except_break
            drained(
                pool_view(*most_accurate_settings),
                pool_view(*tuned_settings),
                min_acceptable_accuracy,
                final_number_of_nnet_settings as nat,
            ) == drained(
                pool_view(*old(most_accurate_settings)),
                pool_view(*old(tuned_settings)),
                min_acceptable_accuracy,
                final_number_of_nnet_settings as nat,
            ),
        ensures
            (pool_view(*most_accurate_settings), pool_view(*tuned_settings)) == drained(
                pool_view(*old(most_accurate_settings)),
                pool_view(*old(tuned_settings)),
                min_acceptable_accuracy,
                final_number_of_nnet_settings as nat,
            ),
        decreases most_accurate_settings.len(),
    {
        let ghost elite_before = pool_view(*most_accurate_settings);
        let ghost output_before = pool_view(*tuned_settings);
        let mut high_score_idx: usize = 0;
        let mut i: usize = 1;
        while i < most_accurate_settings.len()
            invariant
                1 <= i <= most_accurate_settings.len(),
                high_score_idx == first_best(pool_view(*most_accurate_settings), i as int),
                high_score_idx < i,
            decreases most_accurate_settings.len() - i,
        {
            if most_accurate_settings[i].accuracy > most_accurate_settings[high_score_idx].accuracy {
                high_score_idx = i;
            }
            i += 1;
        }
        let winner = most_accurate_settings.remove(high_score_idx);
        assert(pool_view(*most_accurate_settings) =~= elite_before.remove(high_score_idx as int));
        if winner.accuracy < min_acceptable_accuracy {
            continue ;
        }
        tuned_settings.push(winner);
        assert(pool_view(*tuned_settings) =~= output_before.push(elite_before[high_score_idx as int]));
        if tuned_settings.len() >= final_number_of_nnet_settings {
            break ;
        }
    }
}

} // verus!
