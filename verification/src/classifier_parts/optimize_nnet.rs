//! The optimisation run: annealing and crossover phases over hyperparameters
//! and weights, each ending in a round of evaluation.
//!
//! The run is a machine that is advanced until it asks for a round to be
//! evaluated. Whoever drives it trains and tests the candidates of the round,
//! reports what the trainers found, and advances it again until it has
//! finished.

use vstd::prelude::*;
use crate::classifier_parts::breeder::{
    counted_up, fresh_breeder, Breeder, BreederView, MAX_ANNEALING_TEMP, MAX_P1_FAVOURABILITY, MIN_ANNEALING_TEMP,
    MIN_P1_FAVOURABILITY,
};
use crate::classifier_parts::identity::{
    id_counts, ids_of, lemma_child_joins, lemma_same_ids_same_counts, lemma_selection_keeps_ids, live_ids,
    unique_below,
};
use crate::classifier_parts::lineage::{
    anneal_place, annealed_at, bred_by, can_take, cross_place, crossed_at, fresh_needed, left_after,
    lemma_anneal_places, lemma_cannot_take_more, lemma_cross_place_within, lemma_cross_places,
    lemma_taken_one_more, seed_at, taken,
    Climate, Operator, Start,
};
use crate::classifier_parts::operators::{ranges_open, ranges_repaired, repair_ranges};
use crate::classifier_parts::progress::{
    lemma_lower_is_transitive, lemma_round_lowers_measure, lemma_step_lowers_measure, lower, measure,
};
use crate::classifier_parts::random_source::available_cores;
use crate::classifier_parts::reseed::{all_weighted, redrawn, reset_weights, seed_weights, seeded};
use crate::classifier_parts::schedule::{drops_needed, Schedule};
use crate::classifier_parts::shape::{
    all_fit, fits, lemma_fitting_parent_serves, lemma_fitting_pool_is_weighted, lemma_kept_shape_fits,
    lemma_redrawn_keeps_shape, lemma_seeded_fits, lemma_selection_keeps_fit, pools_fit,
};
use crate::classifier_parts::selection::{
    acceptable_accuracy_reached, collect_final_settings, copy_trainer_accuracy_to_settings, drained,
    expand_most_accurate_settings, expanded, min_accuracy_inc_not_reached, noted_all, pool_view,
    promote_candidates_to_most_accurate, promoted, recycle_settings, set_top_score, threshold_for,
    top_score, Pools, TrainerResult,
};
use crate::classifier_parts::workload::{
    covered, create_workload, get_child_settings, is_dealt, prepare_trainers, recycle_trainers,
    results_cover, worker_count, TrainerBinding,
};
use crate::data_and_config::neural_net_config_parts::{NeuralNetSettings, NeuralNetSettingsView};
use crate::data_and_config::optimizer_parameters::OptimizerParameters;
use crate::neural_network_parts::nnet_errors::NNetError;

verus! {

/// The message for a configuration asked of an empty pool.
pub fn no_recycled_settings() -> (message: String)
    ensures
        message@ == "Optimize_nnet_settings failed in function get_child_settings"@,
{
    "Optimize_nnet_settings failed in function get_child_settings".to_string()
}

/// The message for an elite set that has nothing to hand to the candidates.
pub fn no_winners_to_add_to_candidate_list() -> (message: String)
    ensures
        message@ == "Optimize_nnet_settings failed in function add_prev_winners_to_candidates"@,
{
    "Optimize_nnet_settings failed in function add_prev_winners_to_candidates".to_string()
}

/// The message for a trainer asked of an empty pool.
pub fn no_recycled_trainer() -> (message: String)
    ensures
        message@ == "No recycled trainer found"@,
{
    "No recycled trainer found".to_string()
}

/// What a round asks of its trainers.
#[derive(Clone, Copy, Debug, PartialEq, Eq, Structural)]
pub enum RoundKind {
    /// Train on the rows before the boundary, then test on the rest.
    Train,
    /// Test on every row, without training.
    Search,
}

/// A round of evaluation: what to do, and which worker runs which trainers.
#[derive(Debug)]
pub struct Round {
    pub kind: RoundKind,
    pub test_train_cutoff_idx: usize,
    pub train_rounds_per_epoch: usize,
    pub workload: Vec<Vec<TrainerBinding>>,
}

/// What the run asks of its driver.
#[derive(Debug)]
pub enum Step {
    /// Evaluate this round and report its results.
    Evaluate(Round),
    /// A round is out: report its results first.
    Waiting,
    /// The run is over.
    Finished,
}

/// Where a run stands.
#[derive(Clone, Copy, Debug, PartialEq, Eq, Structural)]
pub enum Phase {
    /// A configuration epoch is about to start, if one is left.
    ConfigEpochStart,
    /// A training epoch is about to start, if one is left.
    TrainEpochStart,
    /// The tuning of hyperparameters is about to start.
    HyperStart,
    /// The children of an annealing of hyperparameters are back.
    AfterHyperSa,
    /// A crossover of hyperparameters goes on while the favourability is
    /// above its floor.
    HyperGaHead,
    /// The children of a crossover of hyperparameters are back.
    AfterHyperGa,
    /// The crossover of hyperparameters is over.
    HyperGaExit,
    /// The tuning of hyperparameters goes on while a schedule is open.
    HyperLoopHead,
    /// The tuning of weights is about to start.
    WeightsStart,
    /// The children of an annealing of weights are back.
    AfterWeightsSa,
    /// A crossover of weights goes on while the favourability is above its
    /// floor.
    WeightsGaHead,
    /// The children of a crossover of weights are back.
    AfterWeightsGa,
    /// The crossover of weights is over.
    WeightsGaExit,
    /// The tuning of weights goes on while a schedule is open.
    WeightsLoopHead,
    /// A training epoch is over.
    TrainEpochEnd,
    /// A configuration epoch is over.
    ConfigEpochEnd,
    /// The children of an annealing of hyperparameters are out.
    AwaitHyperSa,
    /// The children of a crossover of hyperparameters are out.
    AwaitHyperGa,
    /// The children of an annealing of weights are out.
    AwaitWeightsSa,
    /// The children of a crossover of weights are out.
    AwaitWeightsGa,
    /// The run is over.
    Finished,
    /// The run has failed.
    Failed,
}

impl Phase {
    /// Whether a round is out.
    pub open spec fn awaiting(self) -> bool {
        self == Phase::AwaitHyperSa || self == Phase::AwaitHyperGa || self == Phase::AwaitWeightsSa
            || self == Phase::AwaitWeightsGa
    }

    /// Whether the children of an annealing are out, or have just come back.
    pub open spec fn annealed(self) -> bool {
        self == Phase::AwaitHyperSa || self == Phase::AfterHyperSa || self == Phase::AwaitWeightsSa
            || self == Phase::AfterWeightsSa
    }

    /// Whether the run has come to its end, one way or the other.
    pub open spec fn ended(self) -> bool {
        self == Phase::Finished || self == Phase::Failed
    }

    /// Whether the phase lies within a training epoch.
    pub open spec fn in_train_epoch(self) -> bool {
        !self.ended() && self != Phase::ConfigEpochStart && self != Phase::TrainEpochStart && self
            != Phase::ConfigEpochEnd
    }

    /// Whether the phase belongs to the tuning of weights.
    pub open spec fn tunes_weights(self) -> bool {
        self == Phase::WeightsStart || self == Phase::WeightsLoopHead || self == Phase::AwaitWeightsSa
            || self == Phase::AfterWeightsSa || self == Phase::WeightsGaHead || self
            == Phase::AwaitWeightsGa || self == Phase::AfterWeightsGa || self == Phase::WeightsGaExit
    }

    /// What the round asks for that is sent out on the way to this phase.
    pub open spec fn kind(self) -> RoundKind {
        if self == Phase::AwaitHyperSa || self == Phase::AwaitHyperGa {
            RoundKind::Train
        } else {
            RoundKind::Search
        }
    }
}

/// A run of the optimiser.
pub struct Optimizer {
    template: NeuralNetSettings,
    test_train_cutoff_idx: usize,
    train_rounds_per_epoch: usize,
    max_train_epochs: usize,
    max_config_changing_epochs: usize,
    final_number_of_nnet_settings: usize,
    winners_per_round: usize,
    min_acceptable_accuracy: u64,
    cpus_to_use: usize,
    most_accurate_settings: Vec<NeuralNetSettings>,
    candidate_settings: Vec<NeuralNetSettings>,
    recycled_settings: Vec<NeuralNetSettings>,
    candidate_trainers: Vec<TrainerBinding>,
    recycled_trainers: Vec<usize>,
    trainer_count: usize,
    breeder: Breeder,
    max_accuracy: u64,
    reset_weights: bool,
    id_sequence: usize,
    phase: Phase,
    config_epoch: usize,
    train_epoch: usize,
    tries: usize,
    prev_accuracy: u64,
    epoch_start_accuracy: u64,
    failure: Option<NNetError>,
}

/// The mathematical value of an `Optimizer`.
pub struct OptimizerView {
    pub template: NeuralNetSettingsView,
    pub test_train_cutoff_idx: usize,
    pub train_rounds_per_epoch: usize,
    pub max_train_epochs: usize,
    pub max_config_changing_epochs: usize,
    pub final_number_of_nnet_settings: usize,
    pub winners_per_round: usize,
    pub min_acceptable_accuracy: u64,
    pub cpus_to_use: usize,
    pub elite: Seq<NeuralNetSettingsView>,
    pub candidates: Seq<NeuralNetSettingsView>,
    pub recycled: Seq<NeuralNetSettingsView>,
    pub candidate_trainers: Seq<TrainerBinding>,
    pub recycled_trainers: Seq<usize>,
    pub trainer_count: usize,
    pub breeder: BreederView,
    pub max_accuracy: u64,
    pub reset_weights: bool,
    pub id_sequence: usize,
    pub phase: Phase,
    pub config_epoch: usize,
    pub train_epoch: usize,
    pub tries: usize,
    pub prev_accuracy: u64,
    pub epoch_start_accuracy: u64,
    pub failure: Option<NNetError>,
}

impl View for Optimizer {
    type V = OptimizerView;

    closed spec fn view(&self) -> OptimizerView {
        OptimizerView {
            template: self.template@,
            test_train_cutoff_idx: self.test_train_cutoff_idx,
            train_rounds_per_epoch: self.train_rounds_per_epoch,
            max_train_epochs: self.max_train_epochs,
            max_config_changing_epochs: self.max_config_changing_epochs,
            final_number_of_nnet_settings: self.final_number_of_nnet_settings,
            winners_per_round: self.winners_per_round,
            min_acceptable_accuracy: self.min_acceptable_accuracy,
            cpus_to_use: self.cpus_to_use,
            elite: pool_view(self.most_accurate_settings),
            candidates: pool_view(self.candidate_settings),
            recycled: pool_view(self.recycled_settings),
            candidate_trainers: self.candidate_trainers@,
            recycled_trainers: self.recycled_trainers@,
            trainer_count: self.trainer_count,
            breeder: self.breeder@,
            max_accuracy: self.max_accuracy,
            reset_weights: self.reset_weights,
            id_sequence: self.id_sequence,
            phase: self.phase,
            config_epoch: self.config_epoch,
            train_epoch: self.train_epoch,
            tries: self.tries,
            prev_accuracy: self.prev_accuracy,
            epoch_start_accuracy: self.epoch_start_accuracy,
            failure: self.failure,
        }
    }
}

/// Whether every candidate has its trainer: as many trainers as candidates,
/// each bound to the candidate at its place.
pub open spec fn each_bound(candidates: Seq<NeuralNetSettingsView>, trainers: Seq<TrainerBinding>) -> bool {
    &&& trainers.len() == candidates.len()
    &&& forall|k: int| 0 <= k < trainers.len() ==> (#[trigger] trainers[k]).config_id == candidates[k].config_id
}

/// Whether a workload deals out every one of `trainers`, and none twice.
pub open spec fn deals_out(workload: Seq<Vec<TrainerBinding>>, trainers: Seq<TrainerBinding>) -> bool {
    &&& workload.len() >= 2
    &&& forall|worker: int, place: int|
        0 <= worker < workload.len() && 0 <= place ==> (#[trigger] is_dealt(
            place,
            worker,
            workload.len() as int,
            trainers.len() as int,
        ) <==> place < workload[worker]@.len())
    &&& forall|worker: int, place: int|
        0 <= worker < workload.len() && 0 <= place < workload[worker]@.len() ==> #[trigger] workload[worker]@[place]
            == trainers[trainers.len() - 1 - (place * workload.len() + worker)]
}

impl OptimizerView {
    /// The schedules are in order and move, the epochs are within their
    /// bounds, and a failure that ended the run is one of the two that can:
    /// no identifier left for a child, or no number left for a trainer.
    pub open spec fn steady(self) -> bool {
        &&& self.failure is Some ==> self.failure == Some(NNetError::NoRecycledSettings) || self.failure
            == Some(NNetError::NoRecycledTrainer)
        &&& self.breeder.wf()
        &&& self.breeder.temperature.step > 0
        &&& self.breeder.favourability.step > 0
        &&& self.config_epoch <= self.max_config_changing_epochs
        &&& self.train_epoch <= self.max_train_epochs
        &&& self.tries <= 3
        &&& self.phase.in_train_epoch() ==> self.config_epoch < self.max_config_changing_epochs
            && self.train_epoch < self.max_train_epochs
        &&& self.phase == Phase::TrainEpochStart || self.phase == Phase::ConfigEpochEnd
            ==> self.config_epoch < self.max_config_changing_epochs
        &&& self.phase == Phase::Failed <==> self.failure is Some
        &&& self.phase.annealed() ==> self.schedules_open()
    }

    /// Whether this is a run as it is set up for `order_form` on a machine
    /// with `cores` processors.
    pub open spec fn set_up_for(self, order_form: OptimizerParameters, cores: usize) -> bool {
        &&& self.phase == Phase::ConfigEpochStart
        &&& self.config_epoch == 0
        &&& self.train_epoch == 0
        &&& self.tries == 0
        &&& self.max_accuracy == 0
        &&& self.id_sequence == 2
        &&& self.trainer_count == 0
        &&& self.reset_weights
        &&& self.failure is None
        &&& self.elite.len() == 1
        &&& self.elite[0] == self.template
        &&& self.candidates.len() == 0
        &&& self.recycled.len() == 0
        &&& self.candidate_trainers.len() == 0
        &&& self.recycled_trainers.len() == 0
        &&& seeded(
            ranges_repaired(
                NeuralNetSettingsView { config_id: 1, ..order_form.current_candidate_configuration@ },
            ),
            self.template,
        )
        &&& self.breeder == fresh_breeder(
            step_for((MAX_ANNEALING_TEMP - MIN_ANNEALING_TEMP) as u64, order_form.temperature_drops),
            step_for(
                (MAX_P1_FAVOURABILITY - MIN_P1_FAVOURABILITY) as u64,
                order_form.heritability_bias_drops,
            ),
        )
        &&& self.winners_per_round == if order_form.winners_per_round < 2 {
            2
        } else {
            order_form.winners_per_round
        }
        &&& self.cpus_to_use == if order_form.cpus_to_use > cores {
            cores
        } else if order_form.cpus_to_use < 1 {
            1
        } else {
            order_form.cpus_to_use
        }
        &&& self.test_train_cutoff_idx == order_form.test_train_cutoff_idx
        &&& self.train_rounds_per_epoch == order_form.train_rounds_per_epoch
        &&& self.max_train_epochs == order_form.max_train_epochs
        &&& self.max_config_changing_epochs == order_form.max_config_changing_epochs
        &&& self.final_number_of_nnet_settings == order_form.final_number_of_nnet_settings
        &&& self.min_acceptable_accuracy == order_form.min_acceptable_accuracy
    }

    /// The three pools of configurations.
    pub open spec fn pools(self) -> Pools {
        Pools { elite: self.elite, candidates: self.candidates, recycled: self.recycled }
    }

    /// No two configurations of the pools have the same identifier, and the
    /// sequence of identifiers is beyond them all.
    pub open spec fn distinct(self) -> bool {
        unique_below(live_ids(self.pools()), self.id_sequence)
    }

    /// Every configuration of the pools has the layers of the configuration
    /// that the run started from, and in each a weight matrix that fits and
    /// an open range of weights.
    pub open spec fn fitting(self) -> bool {
        fits(self.template, self.template) && pools_fit(self.template, self.pools())
    }

    /// The run is steady, its configurations are distinct and fitting unless
    /// it has failed, and trainers are bound to candidates exactly while a
    /// round is out.
    pub open spec fn wf(self) -> bool {
        &&& self.steady()
        &&& self.phase != Phase::Failed ==> self.distinct() && self.fitting()
        &&& self.phase == Phase::Failed ==> self.exhausted()
        &&& self.phase.awaiting() ==> each_bound(self.candidates, self.candidate_trainers)
        &&& !self.phase.awaiting() && !self.phase.ended() ==> self.candidates.len() == 0
            && self.candidate_trainers.len() == 0
    }

    /// Whether the running best has reached the accuracy asked for.
    pub open spec fn acceptable(self) -> bool {
        self.max_accuracy >= self.min_acceptable_accuracy
    }

    /// Whether the running best has gained less over `accuracy` than the
    /// threshold for it asks.
    pub open spec fn stalled_since(self, accuracy: u64) -> bool {
        self.max_accuracy - accuracy < threshold_for(self.max_accuracy)
    }

    /// Whether a schedule of the breeder can still be exercised.
    pub open spec fn schedules_open(self) -> bool {
        !(self.breeder.favourability.ceiling <= self.breeder.favourability.min
            && self.breeder.temperature.ceiling <= self.breeder.temperature.min)
    }

    /// Whether this training epoch is the last of the run.
    pub open spec fn final_round(self) -> bool {
        self.train_epoch >= self.max_train_epochs - 1 && self.config_epoch
            >= self.max_config_changing_epochs - 1
    }

    /// The run with another phase.
    pub open spec fn at(self, phase: Phase) -> OptimizerView {
        OptimizerView { phase, ..self }
    }

    /// The run with its breeder as it is once a generation was sent out.
    pub open spec fn sent(self, breeder: BreederView, phase: Phase) -> OptimizerView {
        OptimizerView {
            breeder: BreederView { generation: counted_up(breeder.generation), ..breeder },
            phase,
            ..self
        }
    }

    /// What one step decides: the phase that follows, and what the step does
    /// to the schedules, to the accuracies it remembers and to the epochs.
    /// Where the step breeds and sends a round out, the pools, the trainers
    /// and the counts of children are as they were here.
    pub open spec fn stepped(self) -> OptimizerView {
        let breeder = self.breeder;
        match self.phase {
            Phase::ConfigEpochStart => if self.config_epoch >= self.max_config_changing_epochs {
                self.at(Phase::Finished)
            } else {
                OptimizerView {
                    reset_weights: true,
                    tries: 0,
                    prev_accuracy: 0,
                    phase: Phase::TrainEpochStart,
                    ..self
                }
            },
            Phase::TrainEpochStart => if self.train_epoch >= self.max_train_epochs {
                self.at(Phase::ConfigEpochEnd)
            } else {
                OptimizerView {
                    winners_per_round: if self.final_round() || self.acceptable() {
                        self.final_number_of_nnet_settings
                    } else {
                        self.winners_per_round
                    },
                    epoch_start_accuracy: self.max_accuracy,
                    phase: Phase::HyperStart,
                    ..self
                }
            },
            Phase::HyperStart => OptimizerView {
                breeder: BreederView {
                    temperature: breeder.temperature.restored(),
                    favourability: breeder.favourability.restored(),
                    ..breeder
                },
                phase: Phase::HyperLoopHead,
                ..self
            },
            Phase::HyperLoopHead => if self.schedules_open() {
                self.sent(
                    BreederView { temperature: at_floor(breeder.temperature), ..breeder },
                    Phase::AwaitHyperSa,
                )
            } else {
                self.at(Phase::WeightsStart)
            },
            Phase::AfterHyperSa => OptimizerView {
                prev_accuracy: self.max_accuracy,
                breeder: BreederView { temperature: breeder.temperature.ratcheted(), ..breeder },
                phase: if self.acceptable() {
                    Phase::WeightsStart
                } else {
                    Phase::HyperGaHead
                },
                ..self
            },
            Phase::HyperGaHead => if breeder.favourability.current > breeder.favourability.min {
                self.sent(
                    BreederView { favourability: breeder.favourability.dropped(), ..breeder },
                    Phase::AwaitHyperGa,
                )
            } else {
                self.at(Phase::HyperGaExit)
            },
            Phase::AfterHyperGa => if self.stalled_since(self.prev_accuracy) {
                self.at(Phase::HyperGaExit)
            } else {
                OptimizerView {
                    prev_accuracy: self.max_accuracy,
                    phase: if self.acceptable() {
                        Phase::WeightsStart
                    } else {
                        Phase::HyperGaHead
                    },
                    ..self
                }
            },
            Phase::HyperGaExit => OptimizerView {
                breeder: BreederView { favourability: breeder.favourability.ratcheted(), ..breeder },
                phase: if self.stalled_since(self.prev_accuracy) || self.acceptable() {
                    Phase::WeightsStart
                } else {
                    Phase::HyperLoopHead
                },
                ..self
            },
            Phase::WeightsStart => OptimizerView {
                breeder: BreederView {
                    temperature: breeder.temperature.restored(),
                    favourability: breeder.favourability.restored(),
                    ..breeder
                },
                phase: Phase::WeightsLoopHead,
                ..self
            },
            Phase::WeightsLoopHead => if self.schedules_open() {
                self.sent(
                    BreederView { temperature: at_floor(breeder.temperature), ..breeder },
                    Phase::AwaitWeightsSa,
                )
            } else {
                self.at(Phase::TrainEpochEnd)
            },
            Phase::AfterWeightsSa => OptimizerView {
                prev_accuracy: self.max_accuracy,
                breeder: BreederView { temperature: breeder.temperature.ratcheted(), ..breeder },
                phase: Phase::WeightsGaHead,
                ..self
            },
            Phase::WeightsGaHead => if breeder.favourability.current > breeder.favourability.min {
                self.sent(
                    BreederView { favourability: breeder.favourability.dropped(), ..breeder },
                    Phase::AwaitWeightsGa,
                )
            } else {
                self.at(Phase::WeightsGaExit)
            },
            Phase::AfterWeightsGa => if self.stalled_since(self.prev_accuracy) {
                self.at(Phase::WeightsGaExit)
            } else {
                OptimizerView {
                    prev_accuracy: self.max_accuracy,
                    phase: Phase::WeightsGaHead,
                    ..self
                }
            },
            Phase::WeightsGaExit => OptimizerView {
                breeder: BreederView { favourability: breeder.favourability.ratcheted(), ..breeder },
                phase: if self.stalled_since(self.prev_accuracy) {
                    Phase::TrainEpochEnd
                } else {
                    Phase::WeightsLoopHead
                },
                ..self
            },
            Phase::TrainEpochEnd => if self.acceptable() {
                self.at(Phase::Finished)
            } else {
                let tries = if self.stalled_since(self.epoch_start_accuracy) && self.tries < 3 {
                    (self.tries + 1) as usize
                } else {
                    self.tries
                };
                if tries >= 3 {
                    OptimizerView { tries, phase: Phase::ConfigEpochEnd, ..self }
                } else {
                    OptimizerView {
                        tries,
                        train_epoch: (self.train_epoch + 1) as usize,
                        phase: Phase::TrainEpochStart,
                        ..self
                    }
                }
            },
            Phase::ConfigEpochEnd => OptimizerView {
                config_epoch: (self.config_epoch + 1) as usize,
                train_epoch: 0,
                phase: Phase::ConfigEpochStart,
                ..self
            },
            _ => self,
        }
    }

    /// How many children the step breeds that leaves this phase: in an
    /// annealing, one from every member of the elite at every temperature on
    /// the way to the floor; in a crossover, one from every ordered pair of
    /// different members of the elite, and for weights two; none in a phase
    /// that sends no round out.
    pub open spec fn children(self) -> nat {
        let temperature = self.breeder.temperature;
        let annealed = (drops_needed(temperature.current - temperature.min, temperature.step as int)
            * self.elite.len()) as nat;
        match self.phase {
            Phase::HyperLoopHead => annealed,
            Phase::WeightsLoopHead => annealed,
            Phase::HyperGaHead => ordered_pairs(self.elite.len()),
            Phase::WeightsGaHead => ordered_pairs(self.elite.len()) * 2,
            _ => 0,
        }
    }

    /// Whether the step that leaves this phase sends a round out.
    pub open spec fn sends(self) -> bool {
        self.stepped().phase.awaiting()
    }

    /// The run after `count` steps that go as `stepped` decides.
    pub open spec fn stepped_times(self, count: nat) -> OptimizerView
        decreases count,
    {
        if count == 0 {
            self
        } else {
            self.stepped_times((count - 1) as nat).stepped()
        }
    }

    /// Whether none of the first `count` steps from here sends a round out.
    pub open spec fn quiet_for(self, count: nat) -> bool {
        forall|k: nat| k < count ==> !(#[trigger] self.stepped_times(k)).sends()
    }

    /// Whether `self` is what the step that leaves `before` makes of it where
    /// it breeds its round and sends it out: the step sends a round, there
    /// is an identifier for every child and a number for every trainer, the
    /// candidates are the children bred from `before`, and all else is as
    /// the step decides.
    pub open spec fn round_sent_from(self, before: OptimizerView) -> bool {
        &&& before.sends()
        &&& before.can_breed()
        &&& before.can_bind()
        &&& self.bred_from(before)
        &&& self.sent_out_from(before)
        &&& self.candidates.len() == before.children()
    }

    /// Whether the step that leaves this phase is to send a round out and
    /// cannot: an identifier is wanting for a child, or a number for a
    /// trainer.
    pub open spec fn stuck(self) -> bool {
        self.sends() && !(self.can_breed() && self.can_bind())
    }

    /// Whether there is an identifier for every child that the step breeds
    /// and that is not recycled.
    pub open spec fn can_breed(self) -> bool {
        can_take(self.recycled.len() as int, self.id_sequence as int, self.children() as int)
    }

    /// Whether there is a number for every trainer that the children of the
    /// step need and that has not served before.
    pub open spec fn can_bind(self) -> bool {
        self.children() <= self.recycled_trainers.len() || self.trainer_count + (self.children()
            - self.recycled_trainers.len()) <= usize::MAX
    }

    /// What the breeding of the step starts from.
    pub open spec fn start(self) -> Start {
        Start {
            candidates: self.candidates,
            recycled: self.recycled,
            template: self.template,
            id_sequence: self.id_sequence,
            elite: self.elite,
            gates: self.breeder.gates,
            temperature: self.breeder.temperature,
            favoured: self.breeder.favourability.current,
        }
    }

    /// Whether the candidates of `self` are the children that the step
    /// breeds from `before`: in an annealing, for every temperature on the
    /// way to the floor and every member of the elite, what the annealing
    /// makes of the configuration taken and that member; in a crossover, for
    /// every ordered pair of different members, what the crossover makes of
    /// the configurations taken and the two. The configurations are taken
    /// from the recycled, the last first, and then made as copies of the
    /// template under the next identifiers.
    pub open spec fn bred_from(self, before: OptimizerView) -> bool {
        let temperature = before.breeder.temperature;
        let drops = drops_needed(temperature.current - temperature.min, temperature.step as int);
        let anneals = before.phase == Phase::HyperLoopHead || before.phase == Phase::WeightsLoopHead;
        let crosses = before.phase == Phase::HyperGaHead || before.phase == Phase::WeightsGaHead;
        &&& taken(
            before.recycled,
            before.id_sequence,
            before.children() as int,
            self.recycled,
            self.id_sequence,
        )
        &&& anneals ==> forall|d: int, i: int|
            0 <= d < drops && 0 <= i < before.elite.len() ==> #[trigger] annealed_at(
                self.candidates,
                before.start(),
                before.phase.tunes_weights(),
                d,
                i,
            )
        &&& crosses ==> forall|i: int, j: int|
            0 <= i < before.elite.len() && 0 <= j < before.elite.len() && i != j ==> #[trigger] crossed_at(
                self.candidates,
                before.start(),
                before.phase.tunes_weights(),
                i,
                j,
            )
    }

    /// Whether `self` has the pools, the trainers, the identifiers and the
    /// gates of `before`: everything that breeding reads but the schedules.
    pub open spec fn same_stock(self, before: OptimizerView) -> bool {
        &&& self.elite == before.elite
        &&& self.candidates == before.candidates
        &&& self.recycled == before.recycled
        &&& self.candidate_trainers == before.candidate_trainers
        &&& self.recycled_trainers == before.recycled_trainers
        &&& self.trainer_count == before.trainer_count
        &&& self.id_sequence == before.id_sequence
        &&& self.template == before.template
        &&& self.breeder.gates == before.breeder.gates
    }

    /// Whether the run stands where it cannot go on: no configuration is
    /// left to recycle and no identifier for a fresh one, or more trainers
    /// are needed than wait and no number is left for them.
    pub open spec fn exhausted(self) -> bool {
        ||| self.failure == Some(NNetError::NoRecycledSettings) && self.recycled.len() == 0
            && self.id_sequence == usize::MAX
        ||| self.failure == Some(NNetError::NoRecycledTrainer) && self.candidates.len()
            > self.recycled_trainers.len() && self.trainer_count + (self.candidates.len()
            - self.recycled_trainers.len()) > usize::MAX
    }

    /// The fault on which the step that leaves this phase fails, where it
    /// does.
    pub open spec fn fault(self) -> NNetError {
        if !self.can_breed() {
            NNetError::NoRecycledSettings
        } else {
            NNetError::NoRecycledTrainer
        }
    }

    /// Whether `self` is what `step` leaves of `before` when it has bred and
    /// sent a round out: everything is as the step decides, but the pools of
    /// candidates and recycled, the trainers and the counts of children and
    /// identifiers, which the breeding has changed.
    pub open spec fn sent_out_from(self, before: OptimizerView) -> bool {
        self == (OptimizerView {
            candidates: self.candidates,
            recycled: self.recycled,
            candidate_trainers: self.candidate_trainers,
            recycled_trainers: self.recycled_trainers,
            trainer_count: self.trainer_count,
            id_sequence: self.id_sequence,
            breeder: BreederView {
                current_config_id: self.breeder.current_config_id,
                ..before.stepped().breeder
            },
            ..before.stepped()
        })
    }

    /// Whether the run still serves the request that `before` served.
    pub open spec fn same_request(self, before: OptimizerView) -> bool {
        &&& self.template == before.template
        &&& self.test_train_cutoff_idx == before.test_train_cutoff_idx
        &&& self.train_rounds_per_epoch == before.train_rounds_per_epoch
        &&& self.max_train_epochs == before.max_train_epochs
        &&& self.max_config_changing_epochs == before.max_config_changing_epochs
        &&& self.final_number_of_nnet_settings == before.final_number_of_nnet_settings
        &&& self.min_acceptable_accuracy == before.min_acceptable_accuracy
        &&& self.cpus_to_use == before.cpus_to_use
    }
}

/// Steps that send no round out change nothing of what breeding reads but
/// the schedules.
pub proof fn lemma_steps_keep_stock(run: OptimizerView, count: nat)
    ensures
        run.stepped_times(count).same_stock(run),
    decreases count,
{
    if count > 0 {
        lemma_steps_keep_stock(run, (count - 1) as nat);
    }
}

/// A schedule with its value at the floor.
pub open spec fn at_floor(schedule: Schedule) -> Schedule {
    Schedule { current: schedule.min, ..schedule }
}

/// The first number of drops that takes a schedule to its floor is
/// `ceil((current - min) / step)`.
pub proof fn lemma_first_floor(schedule: Schedule, drops: nat)
    requires
        schedule.wf(),
        schedule.step > 0,
        schedule.dropped_times(drops).current <= schedule.min,
        forall|earlier: nat|
            earlier < drops ==> (#[trigger] schedule.dropped_times(earlier)).current > schedule.min,
    ensures
        drops == drops_needed(schedule.current - schedule.min, schedule.step as int),
        schedule.dropped_times(drops) == at_floor(schedule),
{
    let span: int = schedule.current - schedule.min;
    let step: int = schedule.step as int;
    schedule.lemma_dropped_times(drops);
    if drops == 0 {
        assert(span <= 0);
    } else {
        let earlier = (drops - 1) as nat;
        schedule.lemma_dropped_times(earlier);
        assert(schedule.dropped_times(earlier).current > schedule.min);
        assert(drops * step >= span);
        assert((drops - 1) * step < span);
        assert(drops == (span + step - 1) / step) by (nonlinear_arith)
            requires
                drops * step >= span,
                (drops - 1) * step < span,
                step > 0,
                span > 0,
                drops >= 1,
        ;
    }
}

/// The step by which a schedule must drop to cover `span` in `drops` drops:
/// the span itself where no drops are asked for, and else the span divided by
/// the drops, rounded up.
pub open spec fn step_for(span: u64, drops: usize) -> u64 {
    if drops == 0 {
        span
    } else {
        ((span + drops - 1) / (drops as int)) as u64
    }
}

/// Computes `step_for(span, drops)`.
pub fn schedule_step(span: u64, drops: usize) -> (step: u64)
    requires
        span > 0,
    ensures
        step == step_for(span, drops),
        step > 0,
{
    if drops == 0 {
        span
    } else {
        let total: u128 = span as u128 + drops as u128 - 1;
        let step: u128 = total / (drops as u128);
        assert(1 <= step <= span) by (nonlinear_arith)
            requires
                step == (span + drops - 1) / (drops as int),
                drops >= 1,
                span >= 1,
        ;
        step as u64
    }
}

/// A schedule whose step was made for `drops` drops is at its floor after
/// that many, where one at least was asked for.
pub proof fn lemma_step_covers_span(schedule: Schedule, drops: usize)
    requires
        schedule.wf(),
        drops >= 1,
        schedule.max - schedule.min >= 1,
        schedule.step == step_for((schedule.max - schedule.min) as u64, drops),
    ensures
        schedule.dropped_times(drops as nat).current <= schedule.min,
{
    let span: int = schedule.max - schedule.min;
    let step: int = schedule.step as int;
    let quotient: int = (span + drops - 1) / (drops as int);
    assert(1 <= quotient <= span) by (nonlinear_arith)
        requires
            quotient == (span + drops - 1) / (drops as int),
            drops >= 1,
            span >= 1,
    ;
    assert(step == quotient);
    assert(step * drops >= span && step >= 1) by (nonlinear_arith)
        requires
            step == (span + drops - 1) / (drops as int),
            drops >= 1,
            span >= 1,
    ;
    assert(drops_needed(span, step) <= drops) by (nonlinear_arith)
        requires
            step * drops >= span,
            step >= 1,
            span >= 1,
            drops >= 1,
            drops_needed(span, step) == (span + step - 1) / step,
    ;
    schedule.lemma_floor_reached_in_time(drops as nat);
}

/// Whether no two configurations of three pools have the same identifier,
/// and `id_sequence` is beyond them all.
pub open spec fn distinct_pools(
    elite: Vec<NeuralNetSettings>,
    candidates: Vec<NeuralNetSettings>,
    recycled: Vec<NeuralNetSettings>,
    id_sequence: usize,
) -> bool {
    unique_below(
        live_ids(
            Pools {
                elite: pool_view(elite),
                candidates: pool_view(candidates),
                recycled: pool_view(recycled),
            },
        ),
        id_sequence,
    )
}

/// Whether the template fits itself and every configuration of three pools
/// fits it.
pub open spec fn fitting_pools(
    template: NeuralNetSettings,
    elite: Vec<NeuralNetSettings>,
    candidates: Vec<NeuralNetSettings>,
    recycled: Vec<NeuralNetSettings>,
) -> bool {
    &&& fits(template@, template@)
    &&& all_fit(template@, pool_view(elite))
    &&& all_fit(template@, pool_view(candidates))
    &&& all_fit(template@, pool_view(recycled))
}

/// A child that fits the template and is taken from the recycled, or made as
/// a copy of the template, leaves the pools fitting when it joins the
/// candidates.
pub proof fn lemma_child_fits(
    template: NeuralNetSettingsView,
    candidates: Seq<NeuralNetSettingsView>,
    recycled: Seq<NeuralNetSettingsView>,
    child: NeuralNetSettingsView,
)
    requires
        all_fit(template, candidates),
        all_fit(template, recycled),
        fits(template, child),
    ensures
        all_fit(template, candidates.push(child)),
        recycled.len() > 0 ==> all_fit(template, recycled.drop_last()),
{
    assert forall|c: int| 0 <= c < candidates.push(child).len() implies fits(
        template,
        #[trigger] candidates.push(child)[c],
    ) by {
        if c < candidates.len() {
            assert(candidates.push(child)[c] == candidates[c]);
        }
    }
    if recycled.len() > 0 {
        assert forall|c: int| 0 <= c < recycled.drop_last().len() implies fits(
            template,
            #[trigger] recycled.drop_last()[c],
        ) by {
            assert(recycled.drop_last()[c] == recycled[c]);
        }
    }
}

/// What the operators read of a breeder.
pub open spec fn climate_of(breeder: BreederView) -> Climate {
    Climate {
        gates: breeder.gates,
        temperature: breeder.temperature.current,
        favoured: breeder.favourability.current,
    }
}

/// What the breeding of a round starts from.
pub open spec fn start_from(
    elite: Vec<NeuralNetSettings>,
    candidates: Vec<NeuralNetSettings>,
    recycled: Vec<NeuralNetSettings>,
    template: NeuralNetSettings,
    id_sequence: usize,
    breeder: BreederView,
) -> Start {
    Start {
        candidates: pool_view(candidates),
        recycled: pool_view(recycled),
        template: template@,
        id_sequence,
        elite: pool_view(elite),
        gates: breeder.gates,
        temperature: breeder.temperature,
        favoured: breeder.favourability.current,
    }
}

/// Whether the candidates that were there are still the first of the
/// candidates.
pub open spec fn still_first(before: Seq<NeuralNetSettingsView>, now: Seq<NeuralNetSettingsView>) -> bool {
    &&& before.len() <= now.len()
    &&& forall|r: int| 0 <= r < before.len() ==> #[trigger] now[r] == before[r]
}

/// Takes a configuration for a child, breeds it from the members `first`
/// and `second` of the elite with `operator`, and puts it among the
/// candidates. An annealing reads the member `first` only. Fails, and
/// changes nothing, where no identifier is left for the child.
fn breed_child(
    breeder: &mut Breeder,
    elite: &Vec<NeuralNetSettings>,
    candidates: &mut Vec<NeuralNetSettings>,
    recycled: &mut Vec<NeuralNetSettings>,
    template: &NeuralNetSettings,
    id_sequence: &mut usize,
    first: usize,
    second: usize,
    operator: Operator,
) -> (outcome: Result<(), NNetError>)
    requires
        old(breeder)@.wf(),
        first < elite.len(),
        second < elite.len(),
        distinct_pools(*elite, *old(candidates), *old(recycled), *old(id_sequence)),
        fitting_pools(*template, *elite, *old(candidates), *old(recycled)),
    ensures
        final(breeder)@.wf(),
        final(breeder)@ == (BreederView {
            current_config_id: final(breeder)@.current_config_id,
            ..old(breeder)@
        }),
        outcome is Ok <==> can_take(old(recycled).len() as int, *old(id_sequence) as int, 1),
        outcome matches Err(fault) ==> {
            &&& fault == NNetError::NoRecycledSettings
            &&& pool_view(*final(candidates)) == pool_view(*old(candidates))
            &&& pool_view(*final(recycled)) == pool_view(*old(recycled))
            &&& *final(id_sequence) == *old(id_sequence)
        },
        outcome is Ok ==> {
            &&& final(candidates).len() == old(candidates).len() + 1
            &&& still_first(pool_view(*old(candidates)), pool_view(*final(candidates)))
            &&& bred_by(
                operator,
                seed_at(pool_view(*old(recycled)), template@, *old(id_sequence), 0),
                pool_view(*elite)[first as int],
                pool_view(*elite)[second as int],
                climate_of(old(breeder)@),
                pool_view(*final(candidates))[old(candidates).len() as int],
            )
            &&& pool_view(*final(recycled)) == left_after(pool_view(*old(recycled)), 1)
            &&& *final(id_sequence) == *old(id_sequence) + fresh_needed(old(recycled).len() as int, 1)
            &&& distinct_pools(*elite, *final(candidates), *final(recycled), *final(id_sequence))
            &&& fitting_pools(*template, *elite, *final(candidates), *final(recycled))
        },
{
    let ghost before = Pools {
        elite: pool_view(*elite),
        candidates: pool_view(*candidates),
        recycled: pool_view(*recycled),
    };
    let ghost sequence = *id_sequence;
    let mut child = match get_child_settings(recycled, template, id_sequence) {
        Ok(child) => child,
        Err(fault) => {
            assert(pool_view(*recycled) =~= before.recycled);
            return Err(fault);
        },
    };
    proof {
        assert(fits(template@, pool_view(*elite)[first as int]));
        assert(fits(template@, pool_view(*elite)[second as int]));
        if before.recycled.len() > 0 {
            assert(fits(template@, before.recycled[before.recycled.len() - 1]));
        }
        assert(fits(template@, child@));
        lemma_fitting_parent_serves(template@, child@, elite@[first as int]@, NNetError::SaMissingWeights);
        lemma_fitting_parent_serves(template@, child@, elite@[first as int]@, NNetError::GaMissingWeights);
        lemma_fitting_parent_serves(template@, child@, elite@[second as int]@, NNetError::GaMissingWeights);
    }
    let ghost seed = child@;
    assert(seed == seed_at(before.recycled, template@, sequence, 0));
    let bred = match operator {
        Operator::SaHyper => breeder.child_w_sa_hyper_parameters(&mut child, &elite[first]),
        Operator::SaWeights => breeder.child_w_sa_weights(&mut child, &elite[first]),
        Operator::GaHyper => breeder.child_w_ga_hyper_params(&mut child, &elite[first], &elite[second]),
        Operator::GaBlend => breeder.child_w_ga_weights(&mut child, &elite[first], &elite[second]),
        Operator::GaSwap => breeder.child_w_ga_weights_swap(&mut child, &elite[first], &elite[second]),
    };
    assert(bred is Ok);
    assert(bred_by(
        operator,
        seed,
        elite@[first as int]@,
        elite@[second as int]@,
        climate_of(old(breeder)@),
        child@,
    ));
    candidates.push(child);
    proof {
        let joined = candidates@[candidates.len() - 1]@;
        assert(pool_view(*candidates) =~= before.candidates.push(joined));
        assert(pool_view(*recycled) =~= (if before.recycled.len() > 0 {
            before.recycled.drop_last()
        } else {
            before.recycled
        }));
        assert(pool_view(*recycled) =~= left_after(before.recycled, 1));
        lemma_child_joins(before, sequence, joined, before.recycled.len() > 0);
        lemma_kept_shape_fits(template@, seed, joined);
        lemma_child_fits(template@, before.candidates, before.recycled, joined);
    }
    Ok(())
}

/// A schedule that is above its floor after `drops` drops needs more drops
/// than those to reach it.
pub proof fn lemma_not_at_floor_yet(schedule: Schedule, drops: nat)
    requires
        schedule.wf(),
        schedule.step > 0,
        schedule.dropped_times(drops).current > schedule.min,
    ensures
        drops < drops_needed(schedule.current - schedule.min, schedule.step as int),
{
    schedule.lemma_dropped_times(drops);
    let span: int = schedule.current - schedule.min;
    let step: int = schedule.step as int;
    assert(drops * step < span);
    assert(drops < (span + step - 1) / step) by (nonlinear_arith)
        requires
            drops * step < span,
            step > 0,
            drops >= 0,
    ;
}

/// Breeds children from the elite by annealing until the temperature is at
/// its floor: at each temperature one child from every member of the elite,
/// and then the temperature drops. Fails where no identifier is left for a
/// child.
fn breed_with_sa(
    breeder: &mut Breeder,
    elite: &Vec<NeuralNetSettings>,
    candidates: &mut Vec<NeuralNetSettings>,
    recycled: &mut Vec<NeuralNetSettings>,
    template: &NeuralNetSettings,
    id_sequence: &mut usize,
    weights: bool,
) -> (outcome: Result<(), NNetError>)
    requires
        old(breeder)@.wf(),
        old(breeder)@.temperature.step > 0,
        distinct_pools(*elite, *old(candidates), *old(recycled), *old(id_sequence)),
        fitting_pools(*template, *elite, *old(candidates), *old(recycled)),
    ensures
        final(breeder)@.wf(),
        final(breeder)@.favourability == old(breeder)@.favourability,
        final(breeder)@.temperature.step == old(breeder)@.temperature.step,
        ({
            let start = start_from(
                *elite,
                *old(candidates),
                *old(recycled),
                *template,
                *old(id_sequence),
                old(breeder)@,
            );
            let drops = drops_needed(
                start.temperature.current - start.temperature.min,
                start.temperature.step as int,
            );
            let children = drops * elite.len();
            &&& outcome is Ok <==> can_take(start.recycled.len() as int, start.id_sequence as int, children)
            &&& outcome is Ok ==> {
                &&& final(breeder)@ == (BreederView {
                    temperature: at_floor(start.temperature),
                    current_config_id: final(breeder)@.current_config_id,
                    ..old(breeder)@
                })
                &&& final(candidates).len() == old(candidates).len() + children
                &&& still_first(start.candidates, pool_view(*final(candidates)))
                &&& taken(
                    start.recycled,
                    start.id_sequence,
                    children,
                    pool_view(*final(recycled)),
                    *final(id_sequence),
                )
                &&& forall|d: int, i: int|
                    0 <= d < drops && 0 <= i < elite.len() ==> #[trigger] annealed_at(
                        pool_view(*final(candidates)),
                        start,
                        weights,
                        d,
                        i,
                    )
                &&& distinct_pools(*elite, *final(candidates), *final(recycled), *final(id_sequence))
                &&& fitting_pools(*template, *elite, *final(candidates), *final(recycled))
            }
        }),
        outcome matches Err(fault) ==> fault == NNetError::NoRecycledSettings && final(recycled).len() == 0
            && *final(id_sequence) == usize::MAX,
{
    let ghost start = start_from(*elite, *candidates, *recycled, *template, *id_sequence, breeder@);
    let ghost total = drops_needed(
        start.temperature.current - start.temperature.min,
        start.temperature.step as int,
    );
    let operator = if weights {
        Operator::SaWeights
    } else {
        Operator::SaHyper
    };
    let members = elite.len();
    let ghost mut drops: nat = 0;
    proof {
        assert(pool_view(*recycled) =~= left_after(start.recycled, 0));
        assert(0 * members == 0) by (nonlinear_arith);
    }
    while !breeder.min_temp_reached()
        invariant
            members == elite.len(),
            start == start_from(*elite, *old(candidates), *old(recycled), *template, *old(id_sequence), old(breeder)@),
            total == drops_needed(
                start.temperature.current - start.temperature.min,
                start.temperature.step as int,
            ),
            breeder@.wf(),
            old(breeder)@.wf(),
            start.temperature.wf(),
            start.temperature.step > 0,
            operator == (if weights { Operator::SaWeights } else { Operator::SaHyper }),
            breeder@.temperature.step > 0,
            breeder@ == (BreederView {
                temperature: start.temperature.dropped_times(drops),
                current_config_id: breeder@.current_config_id,
                ..old(breeder)@
            }),
            forall|earlier: nat|
                earlier < drops ==> (#[trigger] start.temperature.dropped_times(earlier)).current
                    > start.temperature.min,
            candidates.len() == start.candidates.len() + drops * members,
            still_first(start.candidates, pool_view(*candidates)),
            taken(start.recycled, start.id_sequence, drops * members, pool_view(*recycled), *id_sequence),
            forall|d: int, i: int|
                0 <= d < drops && 0 <= i < members ==> #[trigger] annealed_at(
                    pool_view(*candidates),
                    start,
                    weights,
                    d,
                    i,
                ),
            distinct_pools(*elite, *candidates, *recycled, *id_sequence),
            fitting_pools(*template, *elite, *candidates, *recycled),
        decreases breeder@.temperature.current - breeder@.temperature.min,
    {
        proof {
            start.temperature.lemma_dropped_times(drops);
        }
        let mut i: usize = 0;
        while i < members
            invariant
                i <= members,
                members == elite.len(),
                start == start_from(
                    *elite,
                    *old(candidates),
                    *old(recycled),
                    *template,
                    *old(id_sequence),
                    old(breeder)@,
                ),
                total == drops_needed(
                    start.temperature.current - start.temperature.min,
                    start.temperature.step as int,
                ),
                breeder@.wf(),
                old(breeder)@.wf(),
                start.temperature.wf(),
                start.temperature.step > 0,
                operator == (if weights { Operator::SaWeights } else { Operator::SaHyper }),
                breeder@.temperature.step > 0,
                breeder@ == (BreederView {
                    temperature: start.temperature.dropped_times(drops),
                    current_config_id: breeder@.current_config_id,
                    ..old(breeder)@
                }),
                start.temperature.dropped_times(drops).current > start.temperature.min,
                candidates.len() == start.candidates.len() + drops * members + i,
                still_first(start.candidates, pool_view(*candidates)),
                taken(
                    start.recycled,
                    start.id_sequence,
                    drops * members + i,
                    pool_view(*recycled),
                    *id_sequence,
                ),
                forall|d: int, e: int|
                    (0 <= d < drops && 0 <= e < members) || (d == drops && 0 <= e < i) ==> #[trigger] annealed_at(
                        pool_view(*candidates),
                        start,
                        weights,
                        d,
                        e,
                    ),
                distinct_pools(*elite, *candidates, *recycled, *id_sequence),
                fitting_pools(*template, *elite, *candidates, *recycled),
            decreases members - i,
        {
            let ghost before = pool_view(*candidates);
            let ghost waiting = pool_view(*recycled);
            let ghost sequence = *id_sequence;
            let ghost count = drops * members + i;
            proof {
                assert(count >= 0) by (nonlinear_arith)
                    requires
                        count == drops * members + i,
                        drops >= 0,
                        members >= 0,
                        i >= 0,
                ;
                lemma_taken_one_more(start.recycled, start.template, start.id_sequence, count, waiting, sequence);
                lemma_not_at_floor_yet(start.temperature, drops);
                assert(count + 1 <= total * members) by (nonlinear_arith)
                    requires
                        count == drops * members + i,
                        drops < total,
                        0 <= i < members,
                ;
            }
            match breed_child(breeder, elite, candidates, recycled, template, id_sequence, i, i, operator) {
                Ok(()) => {},
                Err(fault) => {
                    proof {
                        start.temperature.lemma_dropped_times(drops);
                        lemma_cannot_take_more(
                            start.recycled.len() as int,
                            start.id_sequence as int,
                            count + 1,
                            total * members,
                        );
                    }
                    return Err(fault);
                },
            }
            proof {
                let now = pool_view(*candidates);
                assert forall|d: int, e: int|
                    (0 <= d < drops && 0 <= e < members) || (d == drops && 0 <= e < i + 1) implies #[trigger] annealed_at(
                    now,
                    start,
                    weights,
                    d,
                    e,
                ) by {
                    if d == drops && e == i {
                        assert(anneal_place(members as int, d, e) == count);
                    } else {
                        lemma_anneal_places(members as int, d, e, drops as int, i as int);
                        assert(annealed_at(before, start, weights, d, e));
                        assert(now[start.candidates.len() + anneal_place(members as int, d, e)]
                            == before[start.candidates.len() + anneal_place(members as int, d, e)]);
                    }
                }
                assert forall|r: int| 0 <= r < start.candidates.len() implies #[trigger] now[r]
                    == start.candidates[r] by {
                    assert(before[r] == start.candidates[r]);
                }
            }
            i += 1;
        }
        breeder.drop_temp();
        proof {
            assert((drops + 1) * members == drops * members + members) by (nonlinear_arith);
            lemma_dropped_after(start.temperature, drops);
            drops = drops + 1;
        }
    }
    proof {
        start.temperature.lemma_dropped_times(drops);
        lemma_first_floor(start.temperature, drops);
    }
    Ok(())
}

/// One more drop after `count` drops is `count + 1` drops.
pub proof fn lemma_dropped_after(schedule: Schedule, count: nat)
    ensures
        schedule.dropped_times(count).dropped() == schedule.dropped_times(count + 1),
    decreases count,
{
    if count > 0 {
        lemma_dropped_after(schedule.dropped(), (count - 1) as nat);
        assert(schedule.dropped_times(count) == schedule.dropped().dropped_times((count - 1) as nat));
        assert(schedule.dropped_times(count + 1) == schedule.dropped().dropped_times(count));
    } else {
        assert(schedule.dropped_times(1) == schedule.dropped().dropped_times(0));
    }
}

/// How many ordered pairs of different members an elite of `members` has.
pub open spec fn ordered_pairs(members: nat) -> nat {
    if members == 0 {
        0
    } else {
        (members * (members - 1)) as nat
    }
}

/// Breeds children from every ordered pair of different members of the elite
/// by crossover, and then drops the favourability: one child per pair for
/// hyperparameters, and for weights one by blending and one by rows. Fails
/// where no identifier is left for a child.
fn breed_with_ga(
    breeder: &mut Breeder,
    elite: &Vec<NeuralNetSettings>,
    candidates: &mut Vec<NeuralNetSettings>,
    recycled: &mut Vec<NeuralNetSettings>,
    template: &NeuralNetSettings,
    id_sequence: &mut usize,
    weights: bool,
) -> (outcome: Result<(), NNetError>)
    requires
        old(breeder)@.wf(),
        distinct_pools(*elite, *old(candidates), *old(recycled), *old(id_sequence)),
        fitting_pools(*template, *elite, *old(candidates), *old(recycled)),
    ensures
        final(breeder)@.wf(),
        final(breeder)@.temperature == old(breeder)@.temperature,
        final(breeder)@.favourability.step == old(breeder)@.favourability.step,
        ({
            let start = start_from(
                *elite,
                *old(candidates),
                *old(recycled),
                *template,
                *old(id_sequence),
                old(breeder)@,
            );
            let children = ordered_pairs(elite.len() as nat) * (if weights {
                2nat
            } else {
                1nat
            });
            &&& outcome is Ok <==> can_take(
                start.recycled.len() as int,
                start.id_sequence as int,
                children as int,
            )
            &&& outcome is Ok ==> {
                &&& final(breeder)@ == (BreederView {
                    favourability: old(breeder)@.favourability.dropped(),
                    current_config_id: final(breeder)@.current_config_id,
                    ..old(breeder)@
                })
                &&& final(candidates).len() == old(candidates).len() + children
                &&& still_first(start.candidates, pool_view(*final(candidates)))
                &&& taken(
                    start.recycled,
                    start.id_sequence,
                    children as int,
                    pool_view(*final(recycled)),
                    *final(id_sequence),
                )
                &&& forall|i: int, j: int|
                    0 <= i < elite.len() && 0 <= j < elite.len() && i != j ==> #[trigger] crossed_at(
                        pool_view(*final(candidates)),
                        start,
                        weights,
                        i,
                        j,
                    )
                &&& distinct_pools(*elite, *final(candidates), *final(recycled), *final(id_sequence))
                &&& fitting_pools(*template, *elite, *final(candidates), *final(recycled))
            }
        }),
        outcome matches Err(fault) ==> fault == NNetError::NoRecycledSettings && final(recycled).len() == 0
            && *final(id_sequence) == usize::MAX,
{
    let ghost start = start_from(*elite, *candidates, *recycled, *template, *id_sequence, breeder@);
    let members = elite.len();
    let ghost per_pair: int = if weights {
        2
    } else {
        1
    };
    let ghost total: int = members * (members - 1) * per_pair;
    let mut i: usize = 0;
    proof {
        assert(pool_view(*recycled) =~= left_after(start.recycled, 0));
        assert(0 * (members - 1) * per_pair == 0) by (nonlinear_arith);
    }
    while i < members
        invariant
            i <= members,
            members == elite.len(),
            per_pair == (if weights { 2int } else { 1int }),
            total == members * (members - 1) * per_pair,
            start == start_from(*elite, *old(candidates), *old(recycled), *template, *old(id_sequence), old(breeder)@),
            breeder@.wf(),
            breeder@ == (BreederView { current_config_id: breeder@.current_config_id, ..old(breeder)@ }),
            candidates.len() == start.candidates.len() + i * (members - 1) * per_pair,
            still_first(start.candidates, pool_view(*candidates)),
            taken(
                start.recycled,
                start.id_sequence,
                i * (members - 1) * per_pair,
                pool_view(*recycled),
                *id_sequence,
            ),
            forall|a: int, b: int|
                0 <= a < i && 0 <= b < members && a != b ==> #[trigger] crossed_at(
                    pool_view(*candidates),
                    start,
                    weights,
                    a,
                    b,
                ),
            distinct_pools(*elite, *candidates, *recycled, *id_sequence),
            fitting_pools(*template, *elite, *candidates, *recycled),
        decreases members - i,
    {
        let ghost mut pairs: int = 0;
        let mut j: usize = 0;
        while j < members
            invariant
                j <= members,
                i < members,
                members == elite.len(),
                per_pair == (if weights { 2int } else { 1int }),
                total == members * (members - 1) * per_pair,
                start == start_from(
                    *elite,
                    *old(candidates),
                    *old(recycled),
                    *template,
                    *old(id_sequence),
                    old(breeder)@,
                ),
                breeder@.wf(),
                breeder@ == (BreederView { current_config_id: breeder@.current_config_id, ..old(breeder)@ }),
                pairs == (if j > i { j - 1 } else { j as int }),
                candidates.len() == start.candidates.len() + (i * (members - 1) * per_pair + pairs * per_pair),
                still_first(start.candidates, pool_view(*candidates)),
                taken(
                    start.recycled,
                    start.id_sequence,
                    i * (members - 1) * per_pair + pairs * per_pair,
                    pool_view(*recycled),
                    *id_sequence,
                ),
                forall|a: int, b: int|
                    0 <= a < members && 0 <= b < members && a != b && (a < i || (a == i && b < j))
                        ==> #[trigger] crossed_at(pool_view(*candidates), start, weights, a, b),
                distinct_pools(*elite, *candidates, *recycled, *id_sequence),
                fitting_pools(*template, *elite, *candidates, *recycled),
            decreases members - j,
        {
            if i != j {
                let ghost before = pool_view(*candidates);
                let ghost count = i * (members - 1) * per_pair + pairs * per_pair;
                let operator = if weights {
                    Operator::GaBlend
                } else {
                    Operator::GaHyper
                };
                proof {
                    lemma_cross_place_within(members as int, per_pair, i as int, j as int);
                    assert(count == cross_place(members as int, per_pair, i as int, j as int));
                    lemma_taken_one_more(
                        start.recycled,
                        start.template,
                        start.id_sequence,
                        count,
                        pool_view(*recycled),
                        *id_sequence,
                    );
                }
                match breed_child(breeder, elite, candidates, recycled, template, id_sequence, i, j, operator) {
                    Ok(()) => {},
                    Err(fault) => {
                        proof {
                            lemma_cannot_take_more(
                                start.recycled.len() as int,
                                start.id_sequence as int,
                                count + 1,
                                total,
                            );
                        }
                        return Err(fault);
                    },
                }
                let ghost between = pool_view(*candidates);
                if weights {
                    proof {
                        lemma_taken_one_more(
                            start.recycled,
                            start.template,
                            start.id_sequence,
                            count + 1,
                            pool_view(*recycled),
                            *id_sequence,
                        );
                    }
                    match breed_child(
                        breeder,
                        elite,
                        candidates,
                        recycled,
                        template,
                        id_sequence,
                        i,
                        j,
                        Operator::GaSwap,
                    ) {
                        Ok(()) => {},
                        Err(fault) => {
                            proof {
                                lemma_cannot_take_more(
                                    start.recycled.len() as int,
                                    start.id_sequence as int,
                                    count + 2,
                                    total,
                                );
                            }
                            return Err(fault);
                        },
                    }
                }
                proof {
                    let now = pool_view(*candidates);
                    assert((pairs + 1) * per_pair == pairs * per_pair + per_pair) by (nonlinear_arith);
                    assert forall|r: int| 0 <= r < before.len() implies #[trigger] now[r] == before[r] by {
                        assert(between[r] == before[r]);
                    }
                    assert forall|a: int, b: int|
                        0 <= a < members && 0 <= b < members && a != b && (a < i || (a == i && b < j + 1))
                        implies #[trigger] crossed_at(now, start, weights, a, b) by {
                        if a == i && b == j {
                            assert(now[start.candidates.len() + count] == between[start.candidates.len() + count]);
                        } else {
                            lemma_cross_places(members as int, per_pair, a, b, i as int, j as int);
                            assert(crossed_at(before, start, weights, a, b));
                            let place = cross_place(members as int, per_pair, a, b);
                            assert(now[start.candidates.len() + place] == before[start.candidates.len() + place]);
                            if weights {
                                assert(now[start.candidates.len() + place + 1] == before[start.candidates.len()
                                    + place + 1]);
                            }
                        }
                    }
                    assert forall|r: int| 0 <= r < start.candidates.len() implies #[trigger] now[r]
                        == start.candidates[r] by {
                        assert(before[r] == start.candidates[r]);
                    }
                    pairs = pairs + 1;
                }
            }
            j += 1;
        }
        proof {
            assert((i + 1) * (members - 1) * per_pair == i * (members - 1) * per_pair + (members - 1)
                * per_pair) by (nonlinear_arith);
        }
        i += 1;
    }
    breeder.drop_p1_favourability();
    proof {
        if members > 0 {
            assert(members * (members - 1) >= 0) by (nonlinear_arith)
                requires
                    members >= 1,
            ;
        }
    }
    Ok(())
}

/// A copy of the trainers of a round.
fn copy_bindings(trainers: &Vec<TrainerBinding>) -> (copy: Vec<TrainerBinding>)
    ensures
        copy@ == trainers@,
{
    let mut copy: Vec<TrainerBinding> = Vec::new();
    let mut k: usize = 0;
    while k < trainers.len()
        invariant
            k <= trainers.len(),
            copy@ == trainers@.take(k as int),
        decreases trainers.len() - k,
    {
        copy.push(trainers[k]);
        assert(copy@ =~= trainers@.take(k + 1));
        k += 1;
    }
    assert(trainers@.take(trainers@.len() as int) =~= trainers@);
    copy
}

/// The phase in which a run takes up again once the round of `phase` is
/// reported.
pub open spec fn resumed(phase: Phase) -> Phase {
    match phase {
        Phase::AwaitHyperSa => Phase::AfterHyperSa,
        Phase::AwaitHyperGa => Phase::AfterHyperGa,
        Phase::AwaitWeightsSa => Phase::AfterWeightsSa,
        Phase::AwaitWeightsGa => Phase::AfterWeightsGa,
        other => other,
    }
}

/// The pools after the results of a round were noted on the candidates, the
/// elite was topped up, candidates took the places of members they beat, and
/// the remaining candidates were recycled.
pub open spec fn selected(before: OptimizerView, results: Seq<TrainerResult>) -> Pools {
    let noted = noted_all(before.candidates, results, results.len());
    let topped = expanded(before.elite, noted, before.winners_per_round as nat);
    let after = promoted(
        Pools { elite: topped.0, candidates: topped.1, recycled: before.recycled },
        topped.1.len() as int,
    );
    Pools {
        elite: after.elite,
        candidates: Seq::empty(),
        recycled: after.recycled + after.candidates.reverse(),
    }
}

impl Optimizer {
    /// Sets a run up for a request on this machine: the schedules step so that
    /// they reach their floors in the drops asked for, the requested
    /// candidate gets the identifier 1, has its ranges of weights repaired,
    /// gets fresh weights and is the first member of the elite, two winners per round are kept at least, and the
    /// workers asked for are one at least and no more than the processors at
    /// hand.
    pub fn new(order_form: &OptimizerParameters) -> (run: Optimizer)
        ensures
            run@.wf(),
            exists|cores: usize| #[trigger] run@.set_up_for(*order_form, cores),
    {
        let cores = available_cores();
        Optimizer::with_cores(order_form, cores)
    }

    /// Sets a run up for a request on a machine with `cores` processors.
    pub fn with_cores(order_form: &OptimizerParameters, cores: usize) -> (run: Optimizer)
        ensures
            run@.wf(),
            run@.set_up_for(*order_form, cores),
    {
        let temp_drop = schedule_step(MAX_ANNEALING_TEMP - MIN_ANNEALING_TEMP, order_form.temperature_drops);
        let fave_drop = schedule_step(
            MAX_P1_FAVOURABILITY - MIN_P1_FAVOURABILITY,
            order_form.heritability_bias_drops,
        );
        let mut template = order_form.current_candidate_configuration.clone();
        template.config_id = 1;
        repair_ranges(&mut template);
        seed_weights(&mut template);
        let winners_per_round = if order_form.winners_per_round < 2 {
            2
        } else {
            order_form.winners_per_round
        };
        let cpus_to_use = if order_form.cpus_to_use > cores {
            cores
        } else if order_form.cpus_to_use < 1 {
            1
        } else {
            order_form.cpus_to_use
        };
        let mut most_accurate_settings: Vec<NeuralNetSettings> = Vec::new();
        most_accurate_settings.push(template.clone());
        assert(pool_view(most_accurate_settings) =~= seq![template@]);
        proof {
            lemma_seeded_fits(
                ranges_repaired(
                    NeuralNetSettingsView { config_id: 1, ..order_form.current_candidate_configuration@ },
                ),
                template@,
            );
            broadcast use {vstd::multiset::group_multiset_axioms, vstd::seq_lib::group_to_multiset_ensures};

            let empty = Seq::<NeuralNetSettingsView>::empty();
            let pools = Pools { elite: seq![template@], candidates: empty, recycled: empty };
            assert(ids_of(empty) =~= Seq::<usize>::empty());
            assert(ids_of(seq![template@]) =~= Seq::<usize>::empty().push(1usize));
            assert(id_counts(empty).len() == 0);
            vstd::multiset::lemma_multiset_empty_len(id_counts(empty));
            assert forall|id: usize| #[trigger] live_ids(pools).count(id) <= 1 && (live_ids(pools).count(id) > 0
                ==> id < 2) by {}
        }
        Optimizer {
            template,
            test_train_cutoff_idx: order_form.test_train_cutoff_idx,
            train_rounds_per_epoch: order_form.train_rounds_per_epoch,
            max_train_epochs: order_form.max_train_epochs,
            max_config_changing_epochs: order_form.max_config_changing_epochs,
            final_number_of_nnet_settings: order_form.final_number_of_nnet_settings,
            winners_per_round,
            min_acceptable_accuracy: order_form.min_acceptable_accuracy,
            cpus_to_use,
            most_accurate_settings,
            candidate_settings: Vec::new(),
            recycled_settings: Vec::new(),
            candidate_trainers: Vec::new(),
            recycled_trainers: Vec::new(),
            trainer_count: 0,
            breeder: Breeder::new(temp_drop, fave_drop),
            max_accuracy: 0,
            reset_weights: true,
            id_sequence: 2,
            phase: Phase::ConfigEpochStart,
            config_epoch: 0,
            train_epoch: 0,
            tries: 0,
            prev_accuracy: 0,
            epoch_start_accuracy: 0,
            failure: None,
        }
    }

    /// Ends the run on a fault.
    fn fail(&mut self, fault: NNetError)
        requires
            fault == NNetError::NoRecycledSettings || fault == NNetError::NoRecycledTrainer,
        ensures
            final(self)@ == (OptimizerView { phase: Phase::Failed, failure: Some(fault), ..old(self)@ }),
    {
        self.phase = Phase::Failed;
        self.failure = Some(fault);
    }

    /// Where a configuration epoch would vary the activation functions of the
    /// elite once its training epochs have stalled. It varies nothing.
    pub fn alter_activation_fns_and_optimizers(&mut self)
        ensures
            final(self)@ == old(self)@,
    {
    }

    /// Where a run would add units to the layers of the elite between two
    /// configuration epochs. It adds none.
    pub fn increase_nodes(&mut self)
        ensures
            final(self)@ == old(self)@,
    {
    }

    /// Where a run would take units from the layers of the elite once its
    /// epochs are over. It takes none.
    pub fn trim_nodes(&mut self)
        ensures
            final(self)@ == old(self)@,
    {
    }

    /// Whether a schedule of the breeder can still be exercised: the ceiling
    /// of the temperature or that of the favourability is above its floor.
    fn minimum_not_reached(&self) -> (open_still: bool)
        ensures
            open_still == !(self@.breeder.favourability.ceiling <= self@.breeder.favourability.min
                && self@.breeder.temperature.ceiling <= self@.breeder.temperature.min),
    {
        !(self.breeder.min_ga_mutations_reached() && self.breeder.min_sa_mutations_reached())
    }

    /// Keeps as many winners per round as are wanted in the end, once the
    /// last training epoch of the last configuration epoch has come or the
    /// accuracy asked for is reached.
    fn alter_winners_per_round_if_final_round(&mut self)
        requires
            old(self).max_train_epochs >= 1,
            old(self).max_config_changing_epochs >= 1,
        ensures
            final(self)@ == (OptimizerView {
                winners_per_round: if (old(self)@.train_epoch >= old(self)@.max_train_epochs - 1 && old(
                    self,
                )@.config_epoch >= old(self)@.max_config_changing_epochs - 1) || old(self)@.max_accuracy
                    >= old(self)@.min_acceptable_accuracy {
                    old(self)@.final_number_of_nnet_settings
                } else {
                    old(self)@.winners_per_round
                },
                ..old(self)@
            }),
    {
        if self.train_epoch >= self.max_train_epochs - 1 && self.config_epoch
            >= self.max_config_changing_epochs - 1 {
            self.winners_per_round = self.final_number_of_nnet_settings;
        } else if acceptable_accuracy_reached(self.max_accuracy, self.min_acceptable_accuracy) {
            self.winners_per_round = self.final_number_of_nnet_settings;
        }
    }

    /// Sends the candidates out for a round: counts a generation, binds a
    /// trainer to every candidate and deals the trainers to the workers.
    fn emit(&mut self, kind: RoundKind, waiting: Phase) -> (outcome: Result<Round, NNetError>)
        requires
            old(self)@.steady(),
            old(self)@.distinct(),
            old(self)@.fitting(),
            waiting.annealed() ==> old(self)@.schedules_open(),
            old(self)@.candidate_trainers.len() == 0,
            old(self)@.config_epoch < old(self)@.max_config_changing_epochs,
            old(self)@.train_epoch < old(self)@.max_train_epochs,
            waiting.awaiting(),
            !old(self)@.phase.ended(),
        ensures
            final(self)@.wf(),
            final(self)@.candidates == old(self)@.candidates,
            final(self)@.elite == old(self)@.elite,
            final(self)@.recycled == old(self)@.recycled,
            final(self)@.id_sequence == old(self)@.id_sequence,
            outcome matches Ok(round) ==> {
                &&& final(self)@ == (OptimizerView {
                    candidate_trainers: final(self)@.candidate_trainers,
                    recycled_trainers: final(self)@.recycled_trainers,
                    trainer_count: final(self)@.trainer_count,
                    breeder: BreederView {
                        generation: counted_up(old(self)@.breeder.generation),
                        ..old(self)@.breeder
                    },
                    phase: waiting,
                    ..old(self)@
                })
                &&& each_bound(final(self)@.candidates, final(self)@.candidate_trainers)
                &&& final(self)@.phase == waiting
                &&& round.kind == kind
                &&& round.test_train_cutoff_idx == (if kind == RoundKind::Train {
                    old(self)@.test_train_cutoff_idx
                } else {
                    0
                })
                &&& round.train_rounds_per_epoch == old(self)@.train_rounds_per_epoch
                &&& deals_out(round.workload@, final(self)@.candidate_trainers)
            },
            outcome is Err <==> old(self)@.candidates.len() > old(self)@.recycled_trainers.len() && old(
                self,
            )@.trainer_count + (old(self)@.candidates.len() - old(self)@.recycled_trainers.len())
                > usize::MAX,
            outcome matches Err(fault) ==> fault == NNetError::NoRecycledTrainer && final(self)@.phase
                == Phase::Failed && final(self)@.failure == Some(fault),
            final(self)@.same_request(old(self)@),
    {
        self.breeder.inc_generation_count();
        match prepare_trainers(
            &self.candidate_settings,
            &mut self.candidate_trainers,
            &mut self.recycled_trainers,
            &mut self.trainer_count,
        ) {
            Ok(()) => {},
            Err(fault) => {
                self.fail(fault);
                return Err(fault);
            },
        }
        assert(each_bound(self@.candidates, self@.candidate_trainers)) by {
            assert forall|k: int| 0 <= k < self.candidate_trainers@.len() implies (
            #[trigger] self.candidate_trainers@[k]).config_id == pool_view(self.candidate_settings)[k].config_id by {
                assert(self.candidate_trainers@[0 + k].config_id == self.candidate_settings@[k].config_id);
            }
        }
        let mut dealt = copy_bindings(&self.candidate_trainers);
        let cores = available_cores();
        let workers = worker_count(self.cpus_to_use, cores);
        let ghost count = dealt.len();
        let workload = create_workload(&mut dealt, workers);
        proof {
            let trainers = self.candidate_trainers@;
            assert(count == trainers.len());
            assert forall|worker: int, place: int| 0 <= worker < workload@.len() && 0 <= place implies (
            #[trigger] is_dealt(place, worker, workload@.len() as int, trainers.len() as int)
                <==> place < workload@[worker]@.len()) by {
                assert(is_dealt(place, worker, workers as int, count as int) <==> place
                    < workload@[worker]@.len());
            }
            assert(deals_out(workload@, trainers));
        }
        self.phase = waiting;
        let test_train_cutoff_idx = match kind {
            RoundKind::Train => self.test_train_cutoff_idx,
            RoundKind::Search => 0,
        };
        Ok(
            Round {
                kind,
                test_train_cutoff_idx,
                train_rounds_per_epoch: self.train_rounds_per_epoch,
                workload,
            },
        )
    }

    /// Takes in what the trainers of the round that is out have found: notes
    /// each accuracy on its candidate, tops the elite up with the best
    /// candidates, lets candidates take the places of members they beat,
    /// recycles the rest with all trainers, and raises the running best to the
    /// best of the elite. After a round that trained, the weights of the
    /// recycled are drawn anew where the run says so. Does nothing where no
    /// round is out. The results must report on every candidate of the
    /// round, so that none goes into the selection with an accuracy of
    /// another round.
    pub fn conclude_round(&mut self, results: &Vec<TrainerResult>)
        requires
            old(self)@.wf(),
            covered(old(self)@.candidate_trainers, results@),
        ensures
            final(self)@.wf(),
            final(self)@.same_request(old(self)@),
            !old(self)@.phase.awaiting() ==> final(self)@ == old(self)@,
            old(self)@.phase.awaiting() ==> lower(measure(final(self)@), measure(old(self)@)),
            old(self)@.phase.awaiting() ==> {
                let pools = selected(old(self)@, results@);
                let trains = old(self)@.phase == Phase::AwaitHyperSa || old(self)@.phase
                    == Phase::AwaitHyperGa;
                &&& final(self)@ == (OptimizerView {
                    elite: pools.elite,
                    candidates: Seq::empty(),
                    recycled: final(self)@.recycled,
                    candidate_trainers: Seq::empty(),
                    recycled_trainers: final(self)@.recycled_trainers,
                    max_accuracy: top_score(pools.elite, old(self)@.max_accuracy, pools.elite.len() as int),
                    phase: resumed(old(self)@.phase),
                    ..old(self)@
                })
                &&& final(self)@.recycled_trainers == old(self)@.recycled_trainers + Seq::new(
                    old(self)@.candidate_trainers.len(),
                    |k: int| old(self)@.candidate_trainers[old(self)@.candidate_trainers.len() - 1 - k].trainer,
                )
                &&& if trains && old(self)@.reset_weights {
                    final(self)@.recycled.len() == pools.recycled.len() && forall|c: int|
                        0 <= c < pools.recycled.len() ==> redrawn(
                            pools.recycled[c],
                            #[trigger] final(self)@.recycled[c],
                        )
                } else {
                    final(self)@.recycled == pools.recycled
                }
            },
    {
        let trains = match self.phase {
            Phase::AwaitHyperSa => true,
            Phase::AwaitHyperGa => true,
            Phase::AwaitWeightsSa => false,
            Phase::AwaitWeightsGa => false,
            _ => {
                return ;
            },
        };
        proof {
            lemma_round_lowers_measure(self@);
        }
        copy_trainer_accuracy_to_settings(&mut self.candidate_settings, results);
        expand_most_accurate_settings(
            &mut self.most_accurate_settings,
            &mut self.candidate_settings,
            self.winners_per_round,
        );
        promote_candidates_to_most_accurate(
            &mut self.most_accurate_settings,
            &mut self.candidate_settings,
            &mut self.recycled_settings,
        );
        recycle_settings(&mut self.candidate_settings, &mut self.recycled_settings);
        recycle_trainers(&mut self.candidate_trainers, &mut self.recycled_trainers);
        self.max_accuracy = set_top_score(&self.most_accurate_settings, self.max_accuracy);
        assert(pool_view(self.candidate_settings) =~= Seq::<NeuralNetSettingsView>::empty());
        assert(self.candidate_trainers@ =~= Seq::<TrainerBinding>::empty());
        assert(self.recycled_trainers@ =~= old(self)@.recycled_trainers + Seq::new(
            old(self)@.candidate_trainers.len(),
            |k: int| old(self)@.candidate_trainers[old(self)@.candidate_trainers.len() - 1 - k].trainer,
        ));
        proof {
            lemma_selection_keeps_ids(old(self)@.pools(), results@, old(self)@.winners_per_round as nat);
            lemma_selection_keeps_fit(
                old(self)@.template,
                old(self)@.pools(),
                results@,
                old(self)@.winners_per_round as nat,
            );
            lemma_fitting_pool_is_weighted(self@.template, self@.recycled);
        }
        let ghost chosen = self@.pools();
        if trains && self.reset_weights {
            let redrawing = reset_weights(&mut self.recycled_settings);
            assert(redrawing is Ok);
            proof {
                assert forall|c: int| 0 <= c < chosen.recycled.len() implies (#[trigger] chosen.recycled[c]).config_id
                    == self@.recycled[c].config_id && fits(self@.template, self@.recycled[c]) by {
                    assert(redrawn(chosen.recycled[c], self@.recycled[c]));
                    lemma_redrawn_keeps_shape(chosen.recycled[c], self@.recycled[c]);
                    lemma_kept_shape_fits(self@.template, chosen.recycled[c], self@.recycled[c]);
                }
                lemma_same_ids_same_counts(chosen.recycled, self@.recycled);
            }
        }
        self.phase = match self.phase {
            Phase::AwaitHyperSa => Phase::AfterHyperSa,
            Phase::AwaitHyperGa => Phase::AfterHyperGa,
            Phase::AwaitWeightsSa => Phase::AfterWeightsSa,
            _ => Phase::AfterWeightsGa,
        };
    }

    /// Drains the elite into `order_form.tuned_settings`, best first,
    /// dropping what is below the accuracy asked for, until as many are there
    /// as are wanted in the end.
    pub fn collect_final_settings(&mut self, order_form: &mut OptimizerParameters)
        ensures
            (final(self)@.elite, pool_view(final(order_form).tuned_settings)) == drained(
                old(self)@.elite,
                pool_view(old(order_form).tuned_settings),
                old(self)@.min_acceptable_accuracy,
                old(order_form).final_number_of_nnet_settings as nat,
            ),
            final(self)@ == (OptimizerView { elite: final(self)@.elite, ..old(self)@ }),
    {
        collect_final_settings(
            &mut self.most_accurate_settings,
            &mut order_form.tuned_settings,
            self.min_acceptable_accuracy,
            order_form.final_number_of_nnet_settings,
        );
    }

    /// Whether the results report on every candidate of the round that is
    /// out, as `conclude_round` asks.
    pub fn results_cover(&self, results: &Vec<TrainerResult>) -> (all: bool)
        ensures
            all == covered(self@.candidate_trainers, results@),
    {
        results_cover(&self.candidate_trainers, results)
    }

    /// The candidates of the round that is out, in the order of their
    /// trainers.
    pub fn candidate_settings(&self) -> (candidates: &Vec<NeuralNetSettings>)
        ensures
            pool_view(*candidates) == self@.candidates,
    {
        &self.candidate_settings
    }

    /// The elite.
    pub fn most_accurate_settings(&self) -> (elite: &Vec<NeuralNetSettings>)
        ensures
            pool_view(*elite) == self@.elite,
    {
        &self.most_accurate_settings
    }

    /// The configuration that the run started from, with its fresh weights.
    pub fn template(&self) -> (template: &NeuralNetSettings)
        ensures
            template@ == self@.template,
    {
        &self.template
    }

    /// The best accuracy that a member of the elite has reached.
    pub fn max_accuracy(&self) -> (best: u64)
        ensures
            best == self@.max_accuracy,
    {
        self.max_accuracy
    }

    /// Where the run stands.
    pub fn phase(&self) -> (phase: Phase)
        ensures
            phase == self@.phase,
    {
        self.phase
    }

    /// How many generations were sent out.
    pub fn generation_count(&self) -> (count: usize)
        ensures
            count == self@.breeder.generation,
    {
        self.breeder.generation_count()
    }

    /// Takes the run one phase further: decides which phase follows, moves
    /// the schedules and the epochs, and where the phase calls for it breeds
    /// the children of an annealing or of a crossover and sends them out as a
    /// round. A step that sends no round out succeeds. One that does fails,
    /// and ends the run, exactly where no identifier is left for one of its
    /// children or no number for one of their trainers.
    pub fn step(&mut self) -> (outcome: Result<Option<Round>, NNetError>)
        requires
            old(self)@.wf(),
            !old(self)@.phase.awaiting(),
            !old(self)@.phase.ended(),
        ensures
            final(self)@.wf(),
            outcome matches Ok(Some(round)) ==> {
                &&& final(self)@.phase.awaiting()
                &&& final(self)@.sent_out_from(old(self)@)
                &&& final(self)@.candidates.len() == old(self)@.children()
                &&& each_bound(final(self)@.candidates, final(self)@.candidate_trainers)
                &&& round.kind == final(self)@.phase.kind()
                &&& round.test_train_cutoff_idx == (if round.kind == RoundKind::Train {
                    old(self)@.test_train_cutoff_idx
                } else {
                    0
                })
                &&& round.train_rounds_per_epoch == old(self)@.train_rounds_per_epoch
                &&& deals_out(round.workload@, final(self)@.candidate_trainers)
            },
            outcome matches Ok(None) ==> final(self)@ == old(self)@.stepped() && !final(self)@.phase.awaiting()
                && final(self)@.phase != Phase::Failed,
            outcome is Ok ==> lower(measure(final(self)@), measure(old(self)@)),
            !old(self)@.sends() ==> (outcome matches Ok(None)),
            old(self)@.sends() ==> !(outcome matches Ok(None)) && (outcome is Ok <==> old(self)@.can_breed()
                && old(self)@.can_bind()),
            (outcome matches Ok(Some(_))) ==> final(self)@.bred_from(old(self)@),
            outcome matches Err(fault) ==> fault == old(self)@.fault() && final(self)@.phase == Phase::Failed
                && final(self)@.failure == Some(fault) && final(self)@.exhausted(),
            final(self)@.same_request(old(self)@),
    {
        proof {
            lemma_step_lowers_measure(self@);
        }
        match self.phase {
            Phase::ConfigEpochStart => {
                self.step_between_epochs();
                Ok(None)
            },
            Phase::TrainEpochStart => {
                self.step_between_epochs();
                Ok(None)
            },
            Phase::TrainEpochEnd => {
                self.step_between_epochs();
                Ok(None)
            },
            Phase::ConfigEpochEnd => {
                self.step_between_epochs();
                Ok(None)
            },
            Phase::HyperLoopHead => {
                if self.minimum_not_reached() {
                    self.anneal_and_send(false, RoundKind::Train, Phase::AwaitHyperSa)
                } else {
                    self.phase = Phase::WeightsStart;
                    Ok(None)
                }
            },
            Phase::HyperGaHead => {
                if !self.breeder.min_current_p1_fav_reached() {
                    self.cross_and_send(false, RoundKind::Train, Phase::AwaitHyperGa)
                } else {
                    self.phase = Phase::HyperGaExit;
                    Ok(None)
                }
            },
            Phase::WeightsLoopHead => {
                if self.minimum_not_reached() {
                    self.anneal_and_send(true, RoundKind::Search, Phase::AwaitWeightsSa)
                } else {
                    self.phase = Phase::TrainEpochEnd;
                    Ok(None)
                }
            },
            Phase::WeightsGaHead => {
                if !self.breeder.min_current_p1_fav_reached() {
                    self.cross_and_send(true, RoundKind::Search, Phase::AwaitWeightsGa)
                } else {
                    self.phase = Phase::WeightsGaExit;
                    Ok(None)
                }
            },
            Phase::HyperStart => {
                self.step_over_hyper_parameters();
                Ok(None)
            },
            Phase::AfterHyperSa => {
                self.step_over_hyper_parameters();
                Ok(None)
            },
            Phase::AfterHyperGa => {
                self.step_over_hyper_parameters();
                Ok(None)
            },
            Phase::HyperGaExit => {
                self.step_over_hyper_parameters();
                Ok(None)
            },
            _ => {
                self.step_over_weights();
                Ok(None)
            },
        }
    }

    /// The steps at the start and at the end of the epochs.
    fn step_between_epochs(&mut self)
        requires
            old(self)@.wf(),
            old(self)@.phase == Phase::ConfigEpochStart || old(self)@.phase == Phase::TrainEpochStart
                || old(self)@.phase == Phase::TrainEpochEnd || old(self)@.phase == Phase::ConfigEpochEnd,
        ensures
            final(self)@.wf(),
            final(self)@ == old(self)@.stepped(),
            !final(self)@.phase.awaiting(),
            final(self)@.phase != Phase::Failed,
            final(self)@.same_request(old(self)@),
    {
        match self.phase {
            Phase::ConfigEpochStart => {
                if self.config_epoch >= self.max_config_changing_epochs {
                    self.trim_nodes();
                    self.phase = Phase::Finished;
                } else {
                    self.reset_weights = true;
                    self.tries = 0;
                    self.prev_accuracy = 0;
                    self.phase = Phase::TrainEpochStart;
                }
            },
            Phase::TrainEpochStart => {
                if self.train_epoch >= self.max_train_epochs {
                    self.phase = Phase::ConfigEpochEnd;
                } else {
                    self.alter_winners_per_round_if_final_round();
                    self.epoch_start_accuracy = self.max_accuracy;
                    self.phase = Phase::HyperStart;
                }
            },
            Phase::TrainEpochEnd => {
                if acceptable_accuracy_reached(self.max_accuracy, self.min_acceptable_accuracy) {
                    self.trim_nodes();
                    self.phase = Phase::Finished;
                } else {
                    if min_accuracy_inc_not_reached(self.epoch_start_accuracy, self.max_accuracy) {
                        self.alter_activation_fns_and_optimizers();
                        if self.tries < 3 {
                            self.tries += 1;
                        }
                    }
                    if self.tries >= 3 {
                        self.phase = Phase::ConfigEpochEnd;
                    } else {
                        self.train_epoch += 1;
                        self.phase = Phase::TrainEpochStart;
                    }
                }
            },
            _ => {
                if self.config_epoch < self.max_config_changing_epochs - 1 {
                    self.increase_nodes();
                }
                self.config_epoch += 1;
                self.train_epoch = 0;
                self.phase = Phase::ConfigEpochStart;
            },
        }
    }

    /// The steps of the tuning of hyperparameters that send no round out.
    fn step_over_hyper_parameters(&mut self)
        requires
            old(self)@.wf(),
            old(self)@.phase == Phase::HyperStart || old(self)@.phase == Phase::AfterHyperSa || old(
                self,
            )@.phase == Phase::AfterHyperGa || old(self)@.phase == Phase::HyperGaExit,
        ensures
            final(self)@.wf(),
            final(self)@ == old(self)@.stepped(),
            !final(self)@.phase.awaiting(),
            final(self)@.phase != Phase::Failed,
            final(self)@.same_request(old(self)@),
    {
        match self.phase {
            Phase::HyperStart => {
                self.breeder.total_reset();
                self.phase = Phase::HyperLoopHead;
            },
            Phase::AfterHyperSa => {
                self.prev_accuracy = self.max_accuracy;
                self.breeder.reset_temp_to_adjusted_max();
                if acceptable_accuracy_reached(self.max_accuracy, self.min_acceptable_accuracy) {
                    self.phase = Phase::WeightsStart;
                } else {
                    self.phase = Phase::HyperGaHead;
                }
            },
            Phase::AfterHyperGa => {
                if min_accuracy_inc_not_reached(self.prev_accuracy, self.max_accuracy) {
                    self.phase = Phase::HyperGaExit;
                } else {
                    self.prev_accuracy = self.max_accuracy;
                    if acceptable_accuracy_reached(self.max_accuracy, self.min_acceptable_accuracy) {
                        self.phase = Phase::WeightsStart;
                    } else {
                        self.phase = Phase::HyperGaHead;
                    }
                }
            },
            _ => {
                self.breeder.reset_p1_fav_to_adjusted_max();
                if min_accuracy_inc_not_reached(self.prev_accuracy, self.max_accuracy) {
                    self.phase = Phase::WeightsStart;
                } else if acceptable_accuracy_reached(self.max_accuracy, self.min_acceptable_accuracy) {
                    self.phase = Phase::WeightsStart;
                } else {
                    self.phase = Phase::HyperLoopHead;
                }
            },
        }
    }

    /// The steps of the tuning of weights that send no round out.
    fn step_over_weights(&mut self)
        requires
            old(self)@.wf(),
            old(self)@.phase == Phase::WeightsStart || old(self)@.phase == Phase::AfterWeightsSa || old(
                self,
            )@.phase == Phase::AfterWeightsGa || old(self)@.phase == Phase::WeightsGaExit,
        ensures
            final(self)@.wf(),
            final(self)@ == old(self)@.stepped(),
            !final(self)@.phase.awaiting(),
            final(self)@.phase != Phase::Failed,
            final(self)@.same_request(old(self)@),
    {
        match self.phase {
            Phase::WeightsStart => {
                self.breeder.total_reset();
                self.phase = Phase::WeightsLoopHead;
            },
            Phase::AfterWeightsSa => {
                self.prev_accuracy = self.max_accuracy;
                self.breeder.reset_temp_to_adjusted_max();
                self.phase = Phase::WeightsGaHead;
            },
            Phase::AfterWeightsGa => {
                if min_accuracy_inc_not_reached(self.prev_accuracy, self.max_accuracy) {
                    self.phase = Phase::WeightsGaExit;
                } else {
                    self.prev_accuracy = self.max_accuracy;
                    self.phase = Phase::WeightsGaHead;
                }
            },
            _ => {
                self.breeder.reset_p1_fav_to_adjusted_max();
                if min_accuracy_inc_not_reached(self.prev_accuracy, self.max_accuracy) {
                    self.phase = Phase::TrainEpochEnd;
                } else {
                    self.phase = Phase::WeightsLoopHead;
                }
            },
        }
    }

    /// Breeds the children of an annealing phase and sends them out.
    fn anneal_and_send(&mut self, weights: bool, kind: RoundKind, waiting: Phase) -> (outcome: Result<
        Option<Round>,
        NNetError,
    >)
        requires
            old(self)@.wf(),
            old(self)@.phase == Phase::HyperLoopHead || old(self)@.phase == Phase::WeightsLoopHead,
            waiting.awaiting(),
            kind == waiting.kind(),
            old(self)@.stepped().phase == waiting,
            weights == (waiting == Phase::AwaitWeightsSa || waiting == Phase::AwaitWeightsGa),
        ensures
            final(self)@.wf(),
            outcome matches Ok(found) ==> found matches Some(round) && {
                &&& final(self)@.phase == waiting
                &&& final(self)@.sent_out_from(old(self)@)
                &&& final(self)@.candidates.len() == old(self)@.children()
                &&& each_bound(final(self)@.candidates, final(self)@.candidate_trainers)
                &&& round.kind == kind
                &&& round.test_train_cutoff_idx == (if kind == RoundKind::Train {
                    old(self)@.test_train_cutoff_idx
                } else {
                    0
                })
                &&& round.train_rounds_per_epoch == old(self)@.train_rounds_per_epoch
                &&& deals_out(round.workload@, final(self)@.candidate_trainers)
            },
            outcome is Ok <==> old(self)@.can_breed() && old(self)@.can_bind(),
            outcome is Ok ==> final(self)@.bred_from(old(self)@),
            outcome matches Err(fault) ==> fault == old(self)@.fault() && final(self)@.phase == Phase::Failed
                && final(self)@.failure == Some(fault),
            final(self)@.same_request(old(self)@),
    {
        match breed_with_sa(
            &mut self.breeder,
            &self.most_accurate_settings,
            &mut self.candidate_settings,
            &mut self.recycled_settings,
            &self.template,
            &mut self.id_sequence,
            weights,
        ) {
            Ok(()) => {},
            Err(fault) => {
                self.fail(fault);
                return Err(fault);
            },
        }
        match self.emit(kind, waiting) {
            Ok(round) => Ok(Some(round)),
            Err(fault) => Err(fault),
        }
    }

    /// Breeds the children of one crossover and sends them out.
    fn cross_and_send(&mut self, weights: bool, kind: RoundKind, waiting: Phase) -> (outcome: Result<
        Option<Round>,
        NNetError,
    >)
        requires
            old(self)@.wf(),
            old(self)@.phase == Phase::HyperGaHead || old(self)@.phase == Phase::WeightsGaHead,
            waiting.awaiting(),
            kind == waiting.kind(),
            old(self)@.stepped().phase == waiting,
            weights == (waiting == Phase::AwaitWeightsSa || waiting == Phase::AwaitWeightsGa),
        ensures
            final(self)@.wf(),
            outcome matches Ok(found) ==> found matches Some(round) && {
                &&& final(self)@.phase == waiting
                &&& final(self)@.sent_out_from(old(self)@)
                &&& final(self)@.candidates.len() == old(self)@.children()
                &&& each_bound(final(self)@.candidates, final(self)@.candidate_trainers)
                &&& round.kind == kind
                &&& round.test_train_cutoff_idx == (if kind == RoundKind::Train {
                    old(self)@.test_train_cutoff_idx
                } else {
                    0
                })
                &&& round.train_rounds_per_epoch == old(self)@.train_rounds_per_epoch
                &&& deals_out(round.workload@, final(self)@.candidate_trainers)
            },
            outcome is Ok <==> old(self)@.can_breed() && old(self)@.can_bind(),
            outcome is Ok ==> final(self)@.bred_from(old(self)@),
            outcome matches Err(fault) ==> fault == old(self)@.fault() && final(self)@.phase == Phase::Failed
                && final(self)@.failure == Some(fault),
            final(self)@.same_request(old(self)@),
    {
        match breed_with_ga(
            &mut self.breeder,
            &self.most_accurate_settings,
            &mut self.candidate_settings,
            &mut self.recycled_settings,
            &self.template,
            &mut self.id_sequence,
            weights,
        ) {
            Ok(()) => {},
            Err(fault) => {
                self.fail(fault);
                return Err(fault);
            },
        }
        match self.emit(kind, waiting) {
            Ok(round) => Ok(Some(round)),
            Err(fault) => Err(fault),
        }
    }

    /// Takes the run as far as it goes by itself, step by step: to the next
    /// round, whose candidates are then to be evaluated and reported with
    /// `conclude_round`, or to its end. Only finitely many steps lie between
    /// two rounds. A run whose round is out waits; a run that has failed
    /// fails again. Otherwise the run takes the steps that send no round out,
    /// each as `stepped` decides, up to the first that sends one or to the
    /// end: there it stops, with the round bred from where that step found
    /// it, or with the fault of that step where it lacks an identifier for a
    /// child or a number for a trainer.
    pub fn advance(&mut self) -> (outcome: Result<Step, NNetError>)
        requires
            old(self)@.wf(),
        ensures
            final(self)@.wf(),
            match outcome {
                Ok(Step::Evaluate(round)) => {
                    &&& !old(self)@.phase.awaiting()
                    &&& final(self)@.phase.awaiting()
                    &&& round.kind == final(self)@.phase.kind()
                    &&& round.test_train_cutoff_idx == (if round.kind == RoundKind::Train {
                        old(self)@.test_train_cutoff_idx
                    } else {
                        0
                    })
                    &&& round.train_rounds_per_epoch == old(self)@.train_rounds_per_epoch
                    &&& each_bound(final(self)@.candidates, final(self)@.candidate_trainers)
                    &&& deals_out(round.workload@, final(self)@.candidate_trainers)
                    &&& lower(measure(final(self)@), measure(old(self)@))
                    &&& exists|count: nat|
                        old(self)@.quiet_for(count) && final(self)@.round_sent_from(
                            #[trigger] old(self)@.stepped_times(count),
                        )
                },
                Ok(Step::Waiting) => old(self)@.phase.awaiting() && final(self)@ == old(self)@,
                Ok(Step::Finished) => {
                    &&& final(self)@.phase == Phase::Finished
                    &&& final(self)@ == old(self)@ || lower(measure(final(self)@), measure(old(self)@))
                    &&& final(self)@.same_stock(old(self)@)
                    &&& exists|count: nat|
                        old(self)@.quiet_for(count) && final(self)@ == #[trigger] old(self)@.stepped_times(
                            count,
                        )
                },
                Err(fault) => {
                    &&& final(self)@.phase == Phase::Failed
                    &&& final(self)@.failure == Some(fault)
                    &&& final(self)@.exhausted()
                    &&& old(self)@.phase != Phase::Failed ==> exists|count: nat|
                        old(self)@.quiet_for(count) && (#[trigger] old(self)@.stepped_times(count)).stuck()
                            && fault == old(self)@.stepped_times(count).fault()
                },
            },
            old(self)@.phase == Phase::Finished ==> (outcome matches Ok(Step::Finished)) && final(self)@
                == old(self)@,
            old(self)@.phase.awaiting() ==> (outcome matches Ok(Step::Waiting)),
            old(self)@.phase == Phase::Failed ==> outcome == Err::<Step, NNetError>(old(self)@.failure->0)
                && final(self)@ == old(self)@,
            final(self)@.same_request(old(self)@),
    {
        if let Some(fault) = self.failure {
            return Err(fault);
        }
        match self.phase {
            Phase::AwaitHyperSa => {
                return Ok(Step::Waiting);
            },
            Phase::AwaitHyperGa => {
                return Ok(Step::Waiting);
            },
            Phase::AwaitWeightsSa => {
                return Ok(Step::Waiting);
            },
            Phase::AwaitWeightsGa => {
                return Ok(Step::Waiting);
            },
            _ => {},
        }
        let ghost mut steps: nat = 0;
        loop
            invariant
                self@.wf(),
                !self@.phase.awaiting(),
                self@.phase != Phase::Failed,
                self@.same_request(old(self)@),
                !old(self)@.phase.awaiting(),
                old(self)@.phase != Phase::Failed,
                old(self)@.phase == Phase::Finished ==> self@ == old(self)@,
                self@ == old(self)@.stepped_times(steps),
                old(self)@.quiet_for(steps),
                self@ == old(self)@ || lower(measure(self@), measure(old(self)@)),
            decreases
                    measure(self@).config_left,
                    measure(self@).train_left,
                    measure(self@).stage,
                    measure(self@).room,
                    measure(self@).slack,
                    measure(self@).place,
        {
            if self.phase == Phase::Finished {
                proof {
                    lemma_steps_keep_stock(old(self)@, steps);
                }
                return Ok(Step::Finished);
            }
            let ghost before = self@;
            let taken = self.step();
            proof {
                if taken is Ok && before != old(self)@ {
                    lemma_lower_is_transitive(measure(self@), measure(before), measure(old(self)@));
                }
            }
            match taken {
                Ok(Some(round)) => {
                    assert(self@.round_sent_from(old(self)@.stepped_times(steps)));
                    return Ok(Step::Evaluate(round));
                },
                Ok(None) => {
                    proof {
                        steps = steps + 1;
                    }
                },
                Err(fault) => {
                    assert(old(self)@.stepped_times(steps).stuck());
                    return Err(fault);
                },
            }
        }
    }
}

} // verus!
