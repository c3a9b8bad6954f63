//! The identifiers of the configurations that are alive in a run: selection
//! moves configurations between the pools, and neither loses an identifier
//! nor makes one up.

use vstd::prelude::*;
use vstd::multiset::Multiset;
use crate::classifier_parts::selection::{
    drained, expanded, first_beaten, first_best, first_with_id, last_best, lemma_first_beaten,
    lemma_first_best,
    lemma_first_with_id, lemma_last_best, noted, noted_all, promoted, Pools, TrainerResult,
};
use crate::data_and_config::neural_net_config_parts::NeuralNetSettingsView;

verus! {

/// The identifiers of the configurations of a pool, in order.
pub open spec fn ids_of(pool: Seq<NeuralNetSettingsView>) -> Seq<usize> {
    Seq::new(pool.len(), |i: int| pool[i].config_id)
}

/// How often each identifier occurs in a pool.
pub open spec fn id_counts(pool: Seq<NeuralNetSettingsView>) -> Multiset<usize> {
    ids_of(pool).to_multiset()
}

/// How often each identifier occurs in the three pools together.
pub open spec fn live_ids(pools: Pools) -> Multiset<usize> {
    id_counts(pools.elite).add(id_counts(pools.candidates)).add(id_counts(pools.recycled))
}

/// No identifier occurs twice, and every one that occurs is below `bound`.
pub open spec fn unique_below(ids: Multiset<usize>, bound: usize) -> bool {
    forall|id: usize| #[trigger] ids.count(id) <= 1 && (ids.count(id) > 0 ==> id < bound)
}

/// A configuration that joins a pool adds its identifier.
pub proof fn lemma_push_counts(pool: Seq<NeuralNetSettingsView>, joined: NeuralNetSettingsView)
    ensures
        id_counts(pool.push(joined)) == id_counts(pool).insert(joined.config_id),
{
    broadcast use vstd::seq_lib::group_to_multiset_ensures;

    assert(ids_of(pool.push(joined)) =~= ids_of(pool).push(joined.config_id));
}

/// A configuration that leaves a pool takes its identifier with it.
pub proof fn lemma_remove_counts(pool: Seq<NeuralNetSettingsView>, i: int)
    requires
        0 <= i < pool.len(),
    ensures
        id_counts(pool.remove(i)) == id_counts(pool).remove(pool[i].config_id),
        id_counts(pool).count(pool[i].config_id) > 0,
{
    broadcast use vstd::seq_lib::group_to_multiset_ensures;

    assert(ids_of(pool.remove(i)) =~= ids_of(pool).remove(i));
    assert(ids_of(pool)[i] == pool[i].config_id);
    assert(ids_of(pool).contains(pool[i].config_id));
}

/// Two pools put together hold the identifiers of both.
pub proof fn lemma_concat_counts(first: Seq<NeuralNetSettingsView>, second: Seq<NeuralNetSettingsView>)
    ensures
        id_counts(first + second) == id_counts(first).add(id_counts(second)),
{
    assert(ids_of(first + second) =~= ids_of(first) + ids_of(second));
    vstd::seq_lib::lemma_multiset_commutative(ids_of(first), ids_of(second));
}

/// A pool in reverse holds the same identifiers.
pub proof fn lemma_reverse_counts(pool: Seq<NeuralNetSettingsView>)
    ensures
        id_counts(pool.reverse()) == id_counts(pool),
{
    assert(ids_of(pool.reverse()) =~= ids_of(pool).reverse());
    ids_of(pool).lemma_reverse_to_multiset();
}

/// Noting a result changes no identifier.
pub proof fn lemma_noted_keeps_ids(pool: Seq<NeuralNetSettingsView>, result: TrainerResult)
    ensures
        ids_of(noted(pool, result)) == ids_of(pool),
        noted(pool, result).len() == pool.len(),
{
    lemma_first_with_id(pool, result.trainee_id, 0);
    assert(ids_of(noted(pool, result)) =~= ids_of(pool));
}

/// Noting results changes no identifier.
pub proof fn lemma_noted_all_keeps_ids(pool: Seq<NeuralNetSettingsView>, results: Seq<TrainerResult>, count: nat)
    ensures
        ids_of(noted_all(pool, results, count)) == ids_of(pool),
        noted_all(pool, results, count).len() == pool.len(),
    decreases count,
{
    if count > 0 {
        lemma_noted_all_keeps_ids(pool, results, (count - 1) as nat);
        lemma_noted_keeps_ids(noted_all(pool, results, (count - 1) as nat), results[count - 1]);
    }
}

/// Whether one of the first `count` results reports on the configuration
/// with the identifier `id`.
pub open spec fn reported_among(results: Seq<TrainerResult>, count: nat, id: usize) -> bool {
    exists|r: int| 0 <= r < count && (#[trigger] results[r]).trainee_id == id
}

/// In a pool without two configurations of one identifier, every
/// configuration that the results report on has, once they are noted, the
/// accuracy of a result that reports on it: none keeps an accuracy from
/// before.
pub proof fn lemma_noted_all_reports(
    pool: Seq<NeuralNetSettingsView>,
    results: Seq<TrainerResult>,
    count: nat,
    j: int,
)
    requires
        count <= results.len(),
        0 <= j < pool.len(),
        forall|a: int, b: int|
            0 <= a < pool.len() && 0 <= b < pool.len() && a != b ==> (#[trigger] pool[a]).config_id != (
            #[trigger] pool[b]).config_id,
        reported_among(results, count, pool[j].config_id),
    ensures
        exists|r: int|
            0 <= r < count && (#[trigger] results[r]).trainee_id == pool[j].config_id && noted_all(
                pool,
                results,
                count,
            )[j].accuracy == results[r].accuracy,
    decreases count,
{
    let before = noted_all(pool, results, (count - 1) as nat);
    let last = results[count - 1];
    lemma_noted_all_keeps_ids(pool, results, (count - 1) as nat);
    lemma_first_with_id(before, last.trainee_id, 0);
    assert forall|c: int| 0 <= c < pool.len() implies (#[trigger] before[c]).config_id == pool[c].config_id by {
        assert(ids_of(before)[c] == ids_of(pool)[c]);
    }
    if last.trainee_id == pool[j].config_id {
        lemma_first_with_id_finds(before, last.trainee_id, 0, j);
        assert(noted_all(pool, results, count)[j].accuracy == last.accuracy);
    } else {
        let r = choose|r: int| 0 <= r < count && (#[trigger] results[r]).trainee_id == pool[j].config_id;
        assert(r < count - 1);
        assert(reported_among(results, (count - 1) as nat, pool[j].config_id));
        lemma_noted_all_reports(pool, results, (count - 1) as nat, j);
        assert(noted_all(pool, results, count)[j] == before[j]);
    }
}

/// Where a position at or after `from` holds the identifier, `first_with_id`
/// finds a position.
pub proof fn lemma_first_with_id_finds(pool: Seq<NeuralNetSettingsView>, id: usize, from: int, j: int)
    requires
        0 <= from <= j < pool.len(),
        pool[j].config_id == id,
    ensures
        first_with_id(pool, id, from) is Some,
    decreases j - from,
{
    if pool[from].config_id != id {
        lemma_first_with_id_finds(pool, id, from + 1, j);
    }
}

/// Topping the elite up moves identifiers from the candidates to the elite.
pub proof fn lemma_expanded_keeps_ids(
    elite: Seq<NeuralNetSettingsView>,
    candidates: Seq<NeuralNetSettingsView>,
    winners: nat,
)
    ensures
        id_counts(expanded(elite, candidates, winners).0).add(
            id_counts(expanded(elite, candidates, winners).1),
        ) == id_counts(elite).add(id_counts(candidates)),
    decreases candidates.len(),
{
    broadcast use vstd::multiset::group_multiset_axioms;

    if elite.len() < winners && candidates.len() > 0 {
        let best = last_best(candidates, candidates.len() as int);
        lemma_last_best(candidates, candidates.len() as int);
        lemma_push_counts(elite, candidates[best]);
        lemma_remove_counts(candidates, best);
        lemma_expanded_keeps_ids(elite.push(candidates[best]), candidates.remove(best), winners);
        assert(id_counts(elite.push(candidates[best])).add(id_counts(candidates.remove(best)))
            =~= id_counts(elite).add(id_counts(candidates)));
    }
}

/// Letting candidates take the places of members of the elite moves
/// identifiers between the pools.
pub proof fn lemma_promoted_keeps_ids(pools: Pools, upto: int)
    ensures
        live_ids(promoted(pools, upto)) == live_ids(pools),
    decreases upto,
{
    broadcast use vstd::multiset::group_multiset_axioms;

    if 0 < upto <= pools.candidates.len() {
        let candidate = pools.candidates[upto - 1];
        lemma_first_beaten(pools.elite, candidate.accuracy, 0);
        match first_beaten(pools.elite, candidate.accuracy, 0) {
            Some(j) => {
                let next = Pools {
                    elite: pools.elite.remove(j).push(candidate),
                    candidates: pools.candidates.remove(upto - 1),
                    recycled: pools.recycled.push(pools.elite[j]),
                };
                lemma_remove_counts(pools.elite, j);
                lemma_push_counts(pools.elite.remove(j), candidate);
                lemma_remove_counts(pools.candidates, upto - 1);
                lemma_push_counts(pools.recycled, pools.elite[j]);
                assert(live_ids(next) =~= live_ids(pools));
                lemma_promoted_keeps_ids(next, upto - 1);
            },
            None => {
                lemma_promoted_keeps_ids(pools, upto - 1);
            },
        }
    }
}

/// After the candidates had their turns, none of those that are left beats a
/// member of the elite.
pub proof fn lemma_promoted_leaves_no_better_candidate(pools: Pools, upto: int)
    requires
        0 <= upto <= pools.candidates.len(),
        forall|k: int, e: int|
            upto <= k < pools.candidates.len() && 0 <= e < pools.elite.len() ==> (
            #[trigger] pools.candidates[k]).accuracy <= (#[trigger] pools.elite[e]).accuracy,
    ensures
        forall|k: int, e: int|
            0 <= k < promoted(pools, upto).candidates.len() && 0 <= e < promoted(pools, upto).elite.len()
                ==> (#[trigger] promoted(pools, upto).candidates[k]).accuracy <= (#[trigger] promoted(
                pools,
                upto,
            ).elite[e]).accuracy,
    decreases upto,
{
    if upto > 0 {
        let candidate = pools.candidates[upto - 1];
        lemma_first_beaten(pools.elite, candidate.accuracy, 0);
        match first_beaten(pools.elite, candidate.accuracy, 0) {
            Some(j) => {
                let next = Pools {
                    elite: pools.elite.remove(j).push(candidate),
                    candidates: pools.candidates.remove(upto - 1),
                    recycled: pools.recycled.push(pools.elite[j]),
                };
                assert forall|k: int, e: int|
                    upto - 1 <= k < next.candidates.len() && 0 <= e < next.elite.len() implies (
                #[trigger] next.candidates[k]).accuracy <= (#[trigger] next.elite[e]).accuracy by {
                    assert(next.candidates[k] == pools.candidates[k + 1]);
                    assert(pools.candidates[k + 1].accuracy <= pools.elite[j].accuracy);
                    if e < next.elite.len() - 1 {
                        let from = if e < j {
                            e
                        } else {
                            e + 1
                        };
                        assert(next.elite[e] == pools.elite[from]);
                        assert(pools.candidates[k + 1].accuracy <= pools.elite[from].accuracy);
                    }
                }
                lemma_promoted_leaves_no_better_candidate(next, upto - 1);
                assert(promoted(pools, upto) == promoted(next, upto - 1));
            },
            None => {
                assert(promoted(pools, upto) == promoted(pools, upto - 1));
                assert forall|k: int, e: int|
                    upto - 1 <= k < pools.candidates.len() && 0 <= e < pools.elite.len() implies (
                #[trigger] pools.candidates[k]).accuracy <= (#[trigger] pools.elite[e]).accuracy by {
                    if k == upto - 1 {
                        assert(pools.elite[e].accuracy >= candidate.accuracy);
                    }
                }
                lemma_promoted_leaves_no_better_candidate(pools, upto - 1);
            },
        }
    }
}

/// Draining the elite moves identifiers from the elite to the output or
/// drops them; it makes none up.
pub proof fn lemma_drained_makes_no_ids(
    elite: Seq<NeuralNetSettingsView>,
    output: Seq<NeuralNetSettingsView>,
    min_acceptable: u64,
    wanted: nat,
)
    ensures
        id_counts(drained(elite, output, min_acceptable, wanted).0).add(
            id_counts(drained(elite, output, min_acceptable, wanted).1),
        ).subset_of(id_counts(elite).add(id_counts(output))),
    decreases elite.len(),
{
    broadcast use vstd::multiset::group_multiset_axioms;

    if elite.len() > 0 {
        let best = first_best(elite, elite.len() as int);
        lemma_first_best(elite, elite.len() as int);
        let winner = elite[best];
        let rest = elite.remove(best);
        lemma_remove_counts(elite, best);
        lemma_push_counts(output, winner);
        if winner.accuracy < min_acceptable {
            lemma_drained_makes_no_ids(rest, output, min_acceptable, wanted);
        } else if output.len() + 1 >= wanted {
        } else {
            lemma_drained_makes_no_ids(rest, output.push(winner), min_acceptable, wanted);
        }
    }
}

/// A child that is taken from the recycled, or made under the next
/// identifier of the sequence, and then joins the candidates leaves the
/// identifiers unique.
pub proof fn lemma_child_joins(pools: Pools, id_sequence: usize, child: NeuralNetSettingsView, recycled: bool)
    requires
        unique_below(live_ids(pools), id_sequence),
        recycled ==> pools.recycled.len() > 0 && pools.recycled.last().config_id == child.config_id,
        !recycled ==> child.config_id == id_sequence && id_sequence < usize::MAX,
    ensures
        unique_below(
            live_ids(
                Pools {
                    elite: pools.elite,
                    candidates: pools.candidates.push(child),
                    recycled: if recycled {
                        pools.recycled.drop_last()
                    } else {
                        pools.recycled
                    },
                },
            ),
            if recycled {
                id_sequence
            } else {
                (id_sequence + 1) as usize
            },
        ),
{
    broadcast use vstd::multiset::group_multiset_axioms;

    lemma_push_counts(pools.candidates, child);
    if recycled {
        let last = pools.recycled.len() - 1;
        lemma_remove_counts(pools.recycled, last);
        assert(pools.recycled.drop_last() =~= pools.recycled.remove(last));
    }
    let after = Pools {
        elite: pools.elite,
        candidates: pools.candidates.push(child),
        recycled: if recycled {
            pools.recycled.drop_last()
        } else {
            pools.recycled
        },
    };
    assert forall|id: usize| #[trigger] live_ids(after).count(id) <= 1 && (live_ids(after).count(id) > 0
        ==> id < (if recycled {
        id_sequence as int
    } else {
        id_sequence + 1
    })) by {
        assert(live_ids(pools).count(id) <= 1);
        assert(live_ids(pools).count(id) > 0 ==> id < id_sequence);
    }
}

/// The selection at the end of a round moves identifiers between the pools
/// and neither loses one nor makes one up.
pub proof fn lemma_selection_keeps_ids(
    pools: Pools,
    results: Seq<TrainerResult>,
    winners: nat,
)
    ensures
        ({
            let noted = noted_all(pools.candidates, results, results.len());
            let topped = expanded(pools.elite, noted, winners);
            let after = promoted(
                Pools { elite: topped.0, candidates: topped.1, recycled: pools.recycled },
                topped.1.len() as int,
            );
            live_ids(
                Pools {
                    elite: after.elite,
                    candidates: Seq::empty(),
                    recycled: after.recycled + after.candidates.reverse(),
                },
            ) == live_ids(pools)
        }),
{
    broadcast use vstd::multiset::group_multiset_axioms;

    let noted = noted_all(pools.candidates, results, results.len());
    let topped = expanded(pools.elite, noted, winners);
    let middle = Pools { elite: topped.0, candidates: topped.1, recycled: pools.recycled };
    let after = promoted(middle, topped.1.len() as int);
    let last = Pools {
        elite: after.elite,
        candidates: Seq::empty(),
        recycled: after.recycled + after.candidates.reverse(),
    };
    lemma_noted_all_keeps_ids(pools.candidates, results, results.len());
    lemma_expanded_keeps_ids(pools.elite, noted, winners);
    lemma_promoted_keeps_ids(middle, topped.1.len() as int);
    lemma_concat_counts(after.recycled, after.candidates.reverse());
    lemma_reverse_counts(after.candidates);
    assert(id_counts(Seq::<NeuralNetSettingsView>::empty()) =~= Multiset::<usize>::empty()) by {
        broadcast use vstd::seq_lib::group_to_multiset_ensures;

        assert(ids_of(Seq::<NeuralNetSettingsView>::empty()).len() == 0);
        vstd::multiset::lemma_multiset_empty_len(id_counts(Seq::<NeuralNetSettingsView>::empty()));
    }
    assert(live_ids(last) =~= live_ids(after));
    assert(live_ids(middle) =~= live_ids(pools));
}

/// Pools that hold the same identifiers in the same places count them alike.
pub proof fn lemma_same_ids_same_counts(first: Seq<NeuralNetSettingsView>, second: Seq<NeuralNetSettingsView>)
    requires
        first.len() == second.len(),
        forall|i: int| 0 <= i < first.len() ==> (#[trigger] first[i]).config_id == second[i].config_id,
    ensures
        id_counts(first) == id_counts(second),
{
    assert(ids_of(first) =~= ids_of(second));
}

} // verus!
