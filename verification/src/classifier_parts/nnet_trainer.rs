//! The trainer: one network bound to the rows of a dataset, the order in
//! which it visits the training rows, and the tally of its test.

use vstd::prelude::*;
use crate::classifier_parts::index_manager::{IndexManager, IndexManagerView};
use crate::data_and_config::neural_net_config_parts::NeuralNetSettings;
use crate::fixed_point::ONE;
use crate::neural_network_parts::neural_network::{build_fault, NeuralNetwork, NeuralNetworkView};
use crate::neural_network_parts::nnet_errors::NNetError;

verus! {

/// A network, how often and on which rows to train it, and how it did on the
/// rest.
pub struct NNetTrainer {
    rand_index: IndexManager,
    trainee: NeuralNetwork,
    rounds: usize,
    train_test_boundary: usize,
    correct: usize,
    dataset_length: usize,
    tested: usize,
    recorded: usize,
}

/// The mathematical value of an `NNetTrainer`.
pub struct NNetTrainerView {
    pub rand_index: IndexManagerView,
    pub trainee: NeuralNetworkView,
    pub rounds: usize,
    pub train_test_boundary: usize,
    pub correct: usize,
    pub dataset_length: usize,
    /// How many rows the test under way is to go over.
    pub tested: usize,
    /// How many of them were recorded.
    pub recorded: usize,
}

impl NNetTrainerView {
    /// No more rows are counted as correct than were recorded, and no more
    /// were recorded than the test goes over.
    pub open spec fn tallied(self) -> bool {
        self.correct <= self.recorded <= self.tested
    }
}

impl View for NNetTrainer {
    type V = NNetTrainerView;

    closed spec fn view(&self) -> NNetTrainerView {
        NNetTrainerView {
            rand_index: self.rand_index@,
            trainee: self.trainee@,
            rounds: self.rounds,
            train_test_boundary: self.train_test_boundary,
            correct: self.correct,
            dataset_length: self.dataset_length,
            tested: self.tested,
            recorded: self.recorded,
        }
    }
}

/// The share of `correct` among `tested` as a fixed-point percentage, rounded
/// down; zero where nothing was tested, and the largest number there is where
/// the share does not fit.
pub open spec fn accuracy_of(correct: int, tested: int) -> int {
    if tested <= 0 {
        0
    } else if correct * 100 * ONE / tested > u64::MAX {
        u64::MAX as int
    } else {
        correct * 100 * ONE / tested
    }
}

/// How many rows from the start of a dataset of `dataset_len` rows are for
/// training when the boundary is `boundary`: all of them where the boundary
/// lies beyond the dataset.
pub open spec fn training_rows(boundary: usize, dataset_len: usize) -> usize {
    if boundary > dataset_len {
        dataset_len
    } else {
        boundary
    }
}

/// Where the rows for testing start: at the boundary, or at the first row
/// where the boundary lies beyond the dataset.
pub open spec fn test_start(boundary: usize, dataset_len: usize) -> usize {
    if boundary > dataset_len {
        0
    } else {
        boundary
    }
}

/// How many of the rows from `from` up to `upto` have the prediction that is
/// their label.
pub open spec fn hits(predictions: Seq<usize>, labels: Seq<usize>, from: int, upto: int) -> nat
    decreases upto - from,
{
    if upto <= from {
        0
    } else {
        hits(predictions, labels, from, upto - 1) + (if predictions[upto - 1] == labels[upto - 1] {
            1nat
        } else {
            0nat
        })
    }
}

/// Computes `accuracy_of(correct, tested)`.
pub fn accuracy(correct: usize, tested: usize) -> (percentage: u64)
    ensures
        percentage == accuracy_of(correct as int, tested as int),
{
    if tested == 0 {
        return 0;
    }
    assert(correct * 100 * ONE <= 0xffff_ffff_ffff_ffff * 100 * 1_000_000_000) by (nonlinear_arith)
        requires
            0 <= correct <= 0xffff_ffff_ffff_ffff,
            ONE == 1_000_000_000,
    ;
    let scaled: u128 = (correct as u128) * 100 * (ONE as u128);
    let share: u128 = scaled / (tested as u128);
    if share > u64::MAX as u128 {
        u64::MAX
    } else {
        share as u64
    }
}

impl NNetTrainer {
    /// The sampler and the network are in order.
    pub open spec fn wf(&self) -> bool {
        self@.rand_index.wf() && self.trainee_wf() && self@.tallied()
    }

    /// The network is in order.
    pub closed spec fn trainee_wf(&self) -> bool {
        self.trainee.wf()
    }

    /// A trainer for the network that `settings` describes, with the first
    /// `train_cutoff` rows for training, `rounds` times over. Fails where the
    /// network cannot be built.
    pub fn new(settings: &NeuralNetSettings, train_cutoff: usize, rounds: usize) -> (outcome: Result<
        NNetTrainer,
        NNetError,
    >)
        ensures
            match build_fault(settings@, 0) {
                Some(fault) => outcome == Err::<NNetTrainer, NNetError>(fault),
                None => outcome is Ok,
            },
            outcome matches Ok(trainer) ==> {
                &&& trainer.wf()
                &&& trainer@.trainee.wf()
                &&& trainer@.trainee.built_from(settings@)
                &&& trainer@.rand_index == (IndexManagerView { path: Seq::empty(), current_idx: 0, max_index: 0 })
                &&& trainer@.rounds == rounds
                &&& trainer@.train_test_boundary == train_cutoff
                &&& trainer@.correct == 0
                &&& trainer@.dataset_length == 0
                &&& trainer@.tested == 0
                &&& trainer@.recorded == 0
            },
    {
        let trainee = match NeuralNetwork::new(settings) {
            Ok(trainee) => trainee,
            Err(fault) => {
                return Err(fault);
            },
        };
        Ok(
            NNetTrainer {
                rand_index: IndexManager::new(),
                trainee,
                rounds,
                train_test_boundary: train_cutoff,
                correct: 0,
                dataset_length: 0,
                tested: 0,
                recorded: 0,
            },
        )
    }

    /// Plans the training on a dataset of `dataset_len` rows and returns how
    /// many rows from its start are for training. Where there is one at
    /// least, the sampler is set to that many. The rounds of the training
    /// then go `begin_round`, and `next_row` while `has_next_row`.
    pub fn train(&mut self, dataset_len: usize) -> (rows: usize)
        requires
            old(self).wf(),
        ensures
            final(self).wf(),
            rows == training_rows(old(self)@.train_test_boundary, dataset_len),
            rows <= dataset_len,
            rows >= 1 ==> final(self)@.rand_index.logical_len() == rows,
            final(self)@ == (NNetTrainerView {
                rand_index: if rows >= 1 {
                    old(self)@.rand_index.resized(rows)
                } else {
                    old(self)@.rand_index
                },
                dataset_length: dataset_len,
                ..old(self)@
            }),
    {
        let rows = if self.train_test_boundary > dataset_len {
            dataset_len
        } else {
            self.train_test_boundary
        };
        if rows >= 1 {
            self.rand_index.update_random_path_len(rows);
        }
        self.dataset_length = dataset_len;
        rows
    }

    /// Starts one round of training: the order of the rows is shuffled and
    /// the cursor put at its start.
    pub fn begin_round(&mut self)
        requires
            old(self).wf(),
        ensures
            final(self).wf(),
            exists|draws: Seq<usize>| #[trigger]
                old(self)@.rand_index.accepts(draws) && final(self)@ == (NNetTrainerView {
                    rand_index: old(self)@.rand_index.reshuffled(draws),
                    ..old(self)@
                }),
            final(self)@.rand_index.logical_len() == old(self)@.rand_index.logical_len(),
    {
        self.rand_index.reset();
    }

    /// Whether the round has rows left. A trainer that never had a row to
    /// train on has none.
    pub fn has_next_row(&self) -> (more: bool)
        ensures
            more == (self@.rand_index.current_idx < self@.rand_index.logical_len()),
    {
        self.rand_index.has_next() && self.rand_index.has_path()
    }

    /// The next row of the round, which is a training row.
    pub fn next_row(&mut self) -> (row: usize)
        requires
            old(self).wf(),
            old(self)@.rand_index.current_idx < old(self)@.rand_index.logical_len(),
        ensures
            final(self).wf(),
            row == old(self)@.rand_index.path[old(self)@.rand_index.current_idx as int],
            row < old(self)@.rand_index.logical_len(),
            final(self)@.rand_index.current_idx == old(self)@.rand_index.current_idx + 1,
            final(self)@ == (NNetTrainerView {
                rand_index: IndexManagerView {
                    current_idx: final(self)@.rand_index.current_idx,
                    ..old(self)@.rand_index
                },
                ..old(self)@
            }),
    {
        self.rand_index.next()
    }

    /// Plans the test on a dataset of `dataset_len` rows and returns the row
    /// at which it starts. The tally is cleared, and a boundary beyond the
    /// dataset becomes the first row. The test then goes `record` for every
    /// row from there on.
    pub fn test(&mut self, dataset_len: usize) -> (start: usize)
        ensures
            start == test_start(old(self)@.train_test_boundary, dataset_len),
            start <= dataset_len,
            final(self)@ == (NNetTrainerView {
                correct: 0,
                recorded: 0,
                tested: (dataset_len - start) as usize,
                train_test_boundary: start,
                dataset_length: dataset_len,
                ..old(self)@
            }),
            old(self).wf() ==> final(self).wf(),
    {
        self.correct = 0;
        self.recorded = 0;
        if self.train_test_boundary > dataset_len {
            self.train_test_boundary = 0;
        }
        self.dataset_length = dataset_len;
        self.tested = dataset_len - self.train_test_boundary;
        self.train_test_boundary
    }

    /// Whether rows of the test under way are yet to be recorded.
    pub fn awaits_record(&self) -> (more: bool)
        ensures
            more == (self@.recorded < self@.tested),
    {
        self.recorded < self.tested
    }

    /// Records the prediction for one more row of the test, and counts it as
    /// correct where it is the row's label.
    pub fn record(&mut self, prediction: usize, label: usize)
        requires
            old(self)@.tallied(),
            old(self)@.recorded < old(self)@.tested,
        ensures
            final(self)@ == (NNetTrainerView {
                correct: if prediction == label {
                    (old(self)@.correct + 1) as usize
                } else {
                    old(self)@.correct
                },
                recorded: (old(self)@.recorded + 1) as usize,
                ..old(self)@
            }),
            final(self)@.tallied(),
            old(self).wf() ==> final(self).wf(),
    {
        if prediction == label {
            self.correct += 1;
        }
        self.recorded += 1;
    }

    /// The row at which a test on a dataset of `dataset_len` rows would
    /// start.
    pub fn first_test_row(&self, dataset_len: usize) -> (start: usize)
        ensures
            start == test_start(self@.train_test_boundary, dataset_len),
            start <= dataset_len,
    {
        if self.train_test_boundary > dataset_len {
            0
        } else {
            self.train_test_boundary
        }
    }

    /// Tests on a dataset of which the label of every row and the prediction
    /// of the network for it are given: plans the test, records the rows
    /// from its start on, and returns the share of correct predictions. The
    /// share is a function of the boundary, the predictions and the labels;
    /// the network stays as it was, so that a second test on the same rows
    /// gives the same share.
    pub fn test_with(&mut self, predictions: &Vec<usize>, labels: &Vec<usize>) -> (percentage: u64)
        requires
            old(self).wf(),
            predictions.len() == labels.len(),
        ensures
            final(self).wf(),
            ({
                let start = test_start(old(self)@.train_test_boundary, labels.len());
                let correct = hits(predictions@, labels@, start as int, labels.len() as int);
                &&& correct <= labels.len() - start
                &&& final(self)@ == (NNetTrainerView {
                    correct: correct as usize,
                    recorded: (labels.len() - start) as usize,
                    tested: (labels.len() - start) as usize,
                    train_test_boundary: start,
                    dataset_length: labels.len(),
                    ..old(self)@
                })
                &&& percentage == accuracy_of(correct as int, labels.len() - start)
                &&& percentage <= 100 * ONE
            }),
    {
        let start = self.test(labels.len());
        let mut row: usize = start;
        while row < labels.len()
            invariant
                start <= row <= labels.len(),
                predictions.len() == labels.len(),
                self.wf(),
                self@ == (NNetTrainerView {
                    correct: hits(predictions@, labels@, start as int, row as int) as usize,
                    recorded: (row - start) as usize,
                    tested: (labels.len() - start) as usize,
                    train_test_boundary: start,
                    dataset_length: labels.len(),
                    ..old(self)@
                }),
                hits(predictions@, labels@, start as int, row as int) <= row - start,
            decreases labels.len() - row,
        {
            self.record(predictions[row], labels[row]);
            row += 1;
        }
        self.get_test_result()
    }

    /// The share of correct predictions among the rows that the last test
    /// went over, as a fixed-point percentage; 100 at most.
    pub fn get_test_result(&self) -> (percentage: u64)
        ensures
            percentage == accuracy_of(self@.correct as int, self@.tested as int),
            self@.tallied() ==> percentage <= 100 * ONE,
    {
        proof {
            if self@.tallied() && self@.tested > 0 {
                let correct = self@.correct as int;
                let tested = self@.tested as int;
                assert(correct * 100 * ONE / tested <= 100 * ONE) by (nonlinear_arith)
                    requires
                        0 <= correct <= tested,
                        tested > 0,
                        ONE == 1_000_000_000,
                ;
            }
        }
        accuracy(self.correct, self.tested)
    }

    /// The row at which training ends and testing starts.
    pub fn get_train_test_boundary(&self) -> (boundary: usize)
        ensures
            boundary == self@.train_test_boundary,
    {
        self.train_test_boundary
    }

    /// The identifier of the configuration that the network is bound to.
    pub fn get_trainee_id(&self) -> (id: usize)
        ensures
            id == self@.trainee.config_id,
    {
        self.trainee.get_id()
    }

    /// How often the training goes over its rows.
    pub fn rounds(&self) -> (rounds: usize)
        ensures
            rounds == self@.rounds,
    {
        self.rounds
    }

    /// The network.
    pub fn trainee(&self) -> (trainee: &NeuralNetwork)
        ensures
            trainee@ == self@.trainee,
    {
        &self.trainee
    }

    /// Binds the trainer to another configuration and another boundary,
    /// keeping its network's arrays. Fails, and changes nothing, where the
    /// network cannot take its state from the configuration.
    pub fn update_trainee(&mut self, current_default: &NeuralNetSettings, new_cutoff: usize) -> (outcome:
        Result<(), NNetError>)
        requires
            old(self).wf(),
        ensures
            final(self).wf(),
            outcome == match old(self)@.trainee.update_fault(current_default@) {
                Some(fault) => Err::<(), NNetError>(fault),
                None => Ok(()),
            },
            outcome is Err ==> final(self)@ == old(self)@,
            outcome is Ok ==> {
                &&& final(self)@.trainee.updated_from(old(self)@.trainee, current_default@)
                &&& final(self)@ == (NNetTrainerView {
                    trainee: final(self)@.trainee,
                    train_test_boundary: new_cutoff,
                    ..old(self)@
                })
            },
    {
        match self.trainee.update_state(current_default) {
            Ok(()) => {
                self.train_test_boundary = new_cutoff;
                Ok(())
            },
            Err(fault) => Err(fault),
        }
    }
}

} // verus!
