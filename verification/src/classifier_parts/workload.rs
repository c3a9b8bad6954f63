//! The trainers of a round: which trainer serves which candidate, and which
//! worker runs which trainers.

use vstd::prelude::*;
use crate::classifier_parts::selection::{pool_view, TrainerResult};
use crate::data_and_config::neural_net_config_parts::{NeuralNetSettings, NeuralNetSettingsView};
use crate::neural_network_parts::nnet_errors::NNetError;

verus! {

/// A trainer bound to a candidate. Trainers are known by their number; a
/// fresh one has not served before.
#[derive(Clone, Copy, Debug, PartialEq, Eq, Structural)]
pub struct TrainerBinding {
    pub trainer: usize,
    pub config_id: usize,
    pub fresh: bool,
}

/// How many workers share a round: the lesser of the number asked for and the
/// number of processors at hand, but two at least.
pub open spec fn workers_for(cpus_to_use: usize, available: usize) -> usize {
    let lesser = if cpus_to_use < available {
        cpus_to_use
    } else {
        available
    };
    if lesser < 2 {
        2
    } else {
        lesser
    }
}

/// Computes `workers_for(cpus_to_use, available)`.
pub fn worker_count(cpus_to_use: usize, available: usize) -> (workers: usize)
    ensures
        workers == workers_for(cpus_to_use, available),
        workers >= 2,
{
    let lesser = if cpus_to_use < available {
        cpus_to_use
    } else {
        available
    };
    if lesser < 2 {
        2
    } else {
        lesser
    }
}

/// Whether the place `place` of the worker `worker` is filled when `count`
/// trainers are dealt to `workers` workers in turn.
pub open spec fn is_dealt(place: int, worker: int, workers: int, count: int) -> bool {
    place * workers + worker < count
}

/// Deals the trainers to `workers` workers in turn, the last trainer first:
/// the trainer dealt as number `t` goes to the worker `t % workers`. No
/// trainer is left behind, and none is dealt twice.
pub fn create_workload(candidate_trainers: &mut Vec<TrainerBinding>, workers: usize) -> (workload: Vec<
    Vec<TrainerBinding>,
>)
    requires
        workers >= 1,
    ensures
        final(candidate_trainers).len() == 0,
        workload.len() == workers,
        forall|worker: int, place: int|
            0 <= worker < workers && 0 <= place ==> (#[trigger] is_dealt(
                place,
                worker,
                workers as int,
                old(candidate_trainers).len() as int,
            ) <==> place < workload@[worker]@.len()),
        forall|worker: int, place: int|
            0 <= worker < workers && 0 <= place < workload@[worker]@.len() ==> #[trigger] workload@[worker]@[place]
                == old(candidate_trainers)@[old(candidate_trainers).len() - 1 - (place * workers + worker)],
{
    let ghost total = candidate_trainers@;
    let ghost n = total.len() as int;
    let mut workload: Vec<Vec<TrainerBinding>> = Vec::new();
    let mut made: usize = 0;
    while made < workers
        invariant
            made <= workers,
            workload.len() == made,
            forall|w: int| 0 <= w < made ==> (#[trigger] workload@[w])@.len() == 0,
        decreases workers - made,
    {
        workload.push(Vec::new());
        made += 1;
    }
    let mut turn: usize = 0;
    let ghost mut row: int = 0;
    while candidate_trainers.len() > 0
        invariant
            workers >= 1,
            workload.len() == workers,
            0 <= turn < workers,
            0 <= row,
            candidate_trainers@ == total.take(candidate_trainers.len() as int),
            candidate_trainers.len() <= n,
            n == total.len(),
            row * workers + turn == n - candidate_trainers.len(),
            forall|w: int|
                0 <= w < workers ==> (#[trigger] workload@[w])@.len() == if w < turn {
                    row + 1
                } else {
                    row
                },
            forall|w: int, p: int|
                0 <= w < workers && 0 <= p < workload@[w]@.len() ==> #[trigger] workload@[w]@[p] == total[n
                    - 1 - (p * workers + w)],
        decreases candidate_trainers.len(),
    {
        let ghost left = candidate_trainers.len() as int;
        let ghost before = workload@;
        let binding = candidate_trainers.pop().unwrap();
        assert(binding == total[left - 1]);
        assert(candidate_trainers@ =~= total.take(left - 1));
        workload[turn].push(binding);
        proof {
            assert(workload@[turn as int]@ == before[turn as int]@.push(binding));
            assert forall|w: int| 0 <= w < workers && w != turn implies #[trigger] workload@[w] == before[w] by {}
            assert forall|w: int, p: int|
                0 <= w < workers && 0 <= p < workload@[w]@.len() implies #[trigger] workload@[w]@[p]
                == total[n - 1 - (p * workers + w)] by {
                if w == turn {
                    if p == row {
                        assert(workload@[w]@[p] == binding);
                    } else {
                        assert(workload@[w]@[p] == before[w]@[p]);
                    }
                } else {
                    assert(workload@[w] == before[w]);
                    assert(workload@[w]@[p] == before[w]@[p]);
                }
            }
        }
        turn += 1;
        if turn == workers {
            turn = 0;
            proof {
                assert((row + 1) * workers == row * workers + workers) by (nonlinear_arith);
                row = row + 1;
            }
        }
    }
    proof {
        assert forall|worker: int, place: int| 0 <= worker < workers && 0 <= place implies (
        #[trigger] is_dealt(place, worker, workers as int, n) <==> place < workload@[worker]@.len()) by {
            let length = workload@[worker]@.len() as int;
            assert((place * workers + worker < row * workers + turn) <==> (place < row || (place == row
                && worker < turn))) by (nonlinear_arith)
                requires
                    0 <= worker < workers,
                    0 <= turn < workers,
                    0 <= place,
                    0 <= row,
            ;
        }
    }
    workload
}

/// The trainer that serves as number `k` of a round, when `recycled` trainers
/// wait to serve again and `trainer_count` trainers exist: the recycled serve
/// first, the last of them before the others, and then fresh trainers are
/// numbered on from `trainer_count`.
pub open spec fn trainer_for(recycled: Seq<usize>, trainer_count: usize, k: int) -> (usize, bool) {
    if k < recycled.len() {
        (recycled[recycled.len() - 1 - k], false)
    } else {
        ((trainer_count + (k - recycled.len())) as usize, true)
    }
}

/// Binds one trainer to every candidate, in the order of the candidates.
/// Fails, and changes nothing, where more fresh trainers are needed than can
/// be numbered.
pub fn prepare_trainers(
    candidate_settings: &Vec<NeuralNetSettings>,
    candidate_trainers: &mut Vec<TrainerBinding>,
    recycled_trainers: &mut Vec<usize>,
    trainer_count: &mut usize,
) -> (outcome: Result<(), NNetError>)
    ensures
        outcome is Err <==> candidate_settings.len() > old(recycled_trainers).len() && *old(trainer_count)
            + (candidate_settings.len() - old(recycled_trainers).len()) > usize::MAX,
        outcome is Err ==> outcome == Err::<(), NNetError>(NNetError::NoRecycledTrainer)
            && *final(candidate_trainers) == *old(candidate_trainers) && *final(recycled_trainers)
            == *old(recycled_trainers) && *final(trainer_count) == *old(trainer_count),
        outcome is Ok ==> {
            &&& final(candidate_trainers)@.len() == old(candidate_trainers)@.len() + candidate_settings.len()
            &&& forall|k: int|
                0 <= k < old(candidate_trainers)@.len() ==> final(candidate_trainers)@[k] == old(
                    candidate_trainers,
                )@[k]
            &&& forall|k: int|
                0 <= k < candidate_settings.len() ==> #[trigger] final(candidate_trainers)@[old(
                    candidate_trainers,
                )@.len() + k] == (TrainerBinding {
                    trainer: trainer_for(old(recycled_trainers)@, *old(trainer_count), k).0,
                    config_id: candidate_settings@[k].config_id,
                    fresh: trainer_for(old(recycled_trainers)@, *old(trainer_count), k).1,
                })
            &&& final(recycled_trainers)@ == old(recycled_trainers)@.take(
                if candidate_settings.len() > old(recycled_trainers).len() {
                    0
                } else {
                    old(recycled_trainers).len() - candidate_settings.len()
                },
            )
            &&& *final(trainer_count) == if candidate_settings.len() > old(recycled_trainers).len() {
                *old(trainer_count) + (candidate_settings.len() - old(recycled_trainers).len())
            } else {
                *old(trainer_count) as int
            }
        },
{
    let needed = candidate_settings.len();
    let waiting = recycled_trainers.len();
    if needed > waiting && needed - waiting > usize::MAX - *trainer_count {
        return Err(NNetError::NoRecycledTrainer);
    }
    let ghost bound = candidate_trainers@;
    let ghost recycled = recycled_trainers@;
    let ghost count = *trainer_count;
    let mut k: usize = 0;
    while k < needed
        invariant
            k <= needed,
            needed == candidate_settings.len(),
            waiting == recycled.len(),
            needed > waiting ==> count + (needed - waiting) <= usize::MAX,
            candidate_trainers@.len() == bound.len() + k,
            forall|i: int| 0 <= i < bound.len() ==> candidate_trainers@[i] == bound[i],
            forall|i: int|
                0 <= i < k ==> #[trigger] candidate_trainers@[bound.len() + i] == (TrainerBinding {
                    trainer: trainer_for(recycled, count, i).0,
                    config_id: candidate_settings@[i].config_id,
                    fresh: trainer_for(recycled, count, i).1,
                }),
            recycled_trainers@ == recycled.take(
                if k > waiting {
                    0
                } else {
                    waiting - k
                },
            ),
            *trainer_count == if k > waiting {
                count + (k - waiting)
            } else {
                count as int
            },
        decreases needed - k,
    {
        let ghost left = recycled_trainers@.len() as int;
        let (trainer, fresh) = match recycled_trainers.pop() {
            Some(trainer) => {
                assert(recycled_trainers@ =~= recycled.take(left - 1));
                (trainer, false)
            },
            None => {
                let trainer = *trainer_count;
                *trainer_count = trainer + 1;
                (trainer, true)
            },
        };
        candidate_trainers.push(TrainerBinding { trainer, config_id: candidate_settings[k].config_id, fresh });
        k += 1;
    }
    Ok(())
}

/// Moves every trainer of a round to the trainers that wait to serve again,
/// the last first.
pub fn recycle_trainers(candidate_trainers: &mut Vec<TrainerBinding>, recycled_trainers: &mut Vec<usize>)
    ensures
        final(candidate_trainers).len() == 0,
        final(recycled_trainers)@ == old(recycled_trainers)@ + Seq::new(
            old(candidate_trainers)@.len(),
            |k: int| old(candidate_trainers)@[old(candidate_trainers)@.len() - 1 - k].trainer,
        ),
{
    let ghost total = candidate_trainers@;
    let ghost waiting = recycled_trainers@;
    while candidate_trainers.len() > 0
        invariant
            candidate_trainers.len() <= total.len(),
            candidate_trainers@ == total.take(candidate_trainers.len() as int),
            recycled_trainers@ == waiting + Seq::new(
                (total.len() - candidate_trainers.len()) as nat,
                |k: int| total[total.len() - 1 - k].trainer,
            ),
        decreases candidate_trainers.len(),
    {
        let ghost left = candidate_trainers.len() as int;
        let ghost recycled_before = recycled_trainers@;
        match candidate_trainers.pop() {
            Some(binding) => {
                assert(binding == total[left - 1]);
                recycled_trainers.push(binding.trainer);
                assert(candidate_trainers@ =~= total.take(left - 1));
                assert(recycled_trainers@ =~= waiting + Seq::new(
                    (total.len() - (left - 1)) as nat,
                    |k: int| total[total.len() - 1 - k].trainer,
                ));
            },
            None => {},
        }
    }
}

/// Whether a result reports on the configuration with the identifier `id`.
pub open spec fn reported(results: Seq<TrainerResult>, id: usize) -> bool {
    exists|r: int| 0 <= r < results.len() && (#[trigger] results[r]).trainee_id == id
}

/// Whether the results report on the configuration of every trainer.
pub open spec fn covered(trainers: Seq<TrainerBinding>, results: Seq<TrainerResult>) -> bool {
    forall|k: int| 0 <= k < trainers.len() ==> reported(results, (#[trigger] trainers[k]).config_id)
}

/// Finds out whether a result reports on the configuration with the
/// identifier `id`.
pub fn is_reported(results: &Vec<TrainerResult>, id: usize) -> (found: bool)
    ensures
        found == reported(results@, id),
{
    let mut r: usize = 0;
    while r < results.len()
        invariant
            r <= results.len(),
            forall|i: int| 0 <= i < r ==> (#[trigger] results@[i]).trainee_id != id,
        decreases results.len() - r,
    {
        if results[r].trainee_id == id {
            return true;
        }
        r += 1;
    }
    false
}

/// Finds out whether the results report on the configuration of every
/// trainer.
pub fn results_cover(trainers: &Vec<TrainerBinding>, results: &Vec<TrainerResult>) -> (all: bool)
    ensures
        all == covered(trainers@, results@),
{
    let mut k: usize = 0;
    while k < trainers.len()
        invariant
            k <= trainers.len(),
            forall|i: int| 0 <= i < k ==> reported(results@, (#[trigger] trainers@[i]).config_id),
        decreases trainers.len() - k,
    {
        if !is_reported(results, trainers[k].config_id) {
            return false;
        }
        k += 1;
    }
    true
}

/// Takes a configuration for a child: the last of the recycled where there is
/// one, and else a copy of `template` under the next identifier of the
/// sequence. Fails, and changes nothing, where the sequence has run out.
pub fn get_child_settings(
    recycled_settings: &mut Vec<NeuralNetSettings>,
    template: &NeuralNetSettings,
    id_sequence: &mut usize,
) -> (outcome: Result<NeuralNetSettings, NNetError>)
    ensures
        match outcome {
            Ok(child) => if old(recycled_settings).len() > 0 {
                &&& child@ == pool_view(*old(recycled_settings)).last()
                &&& pool_view(*final(recycled_settings)) == pool_view(*old(recycled_settings)).drop_last()
                &&& *final(id_sequence) == *old(id_sequence)
            } else {
                &&& *old(id_sequence) < usize::MAX
                &&& child@ == (NeuralNetSettingsView { config_id: *old(id_sequence), ..template@ })
                &&& final(recycled_settings).len() == 0
                &&& *final(id_sequence) == *old(id_sequence) + 1
            },
            Err(fault) => {
                &&& fault == NNetError::NoRecycledSettings
                &&& old(recycled_settings).len() == 0
                &&& *old(id_sequence) == usize::MAX
                &&& final(recycled_settings).len() == 0
                &&& *final(id_sequence) == *old(id_sequence)
            },
        },
{
    let ghost before = pool_view(*recycled_settings);
    match recycled_settings.pop() {
        Some(child) => {
            assert(pool_view(*recycled_settings) =~= before.drop_last());
            Ok(child)
        },
        None => {
            if *id_sequence == usize::MAX {
                return Err(NNetError::NoRecycledSettings);
            }
            let mut child = template.clone();
            child.config_id = *id_sequence;
            *id_sequence = *id_sequence + 1;
            Ok(child)
        },
    }
}

} // verus!
