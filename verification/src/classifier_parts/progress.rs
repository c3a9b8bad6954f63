//! Why a run comes to its end: every step and every round that is reported
//! lowers a measure that cannot be lowered for ever.

use vstd::prelude::*;
use crate::classifier_parts::optimize_nnet::{resumed, OptimizerView, Phase};
use crate::classifier_parts::schedule::Schedule;

verus! {

/// How far a phase lies from the end of its training epoch, counted in the
/// parts that an epoch goes through one after the other.
pub open spec fn stage(phase: Phase) -> nat {
    match phase {
        Phase::ConfigEpochStart => 7,
        Phase::TrainEpochStart => 6,
        Phase::HyperStart => 5,
        Phase::HyperLoopHead => 4,
        Phase::AwaitHyperSa => 4,
        Phase::AfterHyperSa => 4,
        Phase::HyperGaHead => 4,
        Phase::AwaitHyperGa => 4,
        Phase::AfterHyperGa => 4,
        Phase::HyperGaExit => 4,
        Phase::WeightsStart => 3,
        Phase::WeightsLoopHead => 2,
        Phase::AwaitWeightsSa => 2,
        Phase::AfterWeightsSa => 2,
        Phase::WeightsGaHead => 2,
        Phase::AwaitWeightsGa => 2,
        Phase::AfterWeightsGa => 2,
        Phase::WeightsGaExit => 2,
        Phase::TrainEpochEnd => 1,
        _ => 0,
    }
}

/// Whether a phase belongs to a crossover.
pub open spec fn in_crossover(phase: Phase) -> bool {
    phase == Phase::HyperGaHead || phase == Phase::AwaitHyperGa || phase == Phase::AfterHyperGa || phase
        == Phase::HyperGaExit || phase == Phase::WeightsGaHead || phase == Phase::AwaitWeightsGa || phase
        == Phase::AfterWeightsGa || phase == Phase::WeightsGaExit
}

/// Whether a phase belongs to the rounds of a crossover.
pub open spec fn in_crossover_rounds(phase: Phase) -> bool {
    in_crossover(phase) && phase != Phase::HyperGaExit && phase != Phase::WeightsGaExit
}

/// The place of a phase within a tuning: the later a phase comes on the way
/// from one lowering of a ceiling to the next, the lower its place.
pub open spec fn place(phase: Phase) -> nat {
    match phase {
        Phase::AwaitHyperGa => 6,
        Phase::AwaitWeightsGa => 6,
        Phase::AfterHyperGa => 5,
        Phase::AfterWeightsGa => 5,
        Phase::HyperGaHead => 4,
        Phase::WeightsGaHead => 4,
        Phase::HyperGaExit => 3,
        Phase::WeightsGaExit => 3,
        Phase::HyperLoopHead => 2,
        Phase::WeightsLoopHead => 2,
        Phase::AwaitHyperSa => 1,
        Phase::AwaitWeightsSa => 1,
        _ => 0,
    }
}

/// How far the ceiling of a schedule is above its floor.
pub open spec fn room(schedule: Schedule) -> nat {
    (schedule.ceiling - schedule.min) as nat
}

/// By how much the next reset lowers the ceiling of a schedule.
pub open spec fn lowering(schedule: Schedule) -> nat {
    if schedule.ceiling - schedule.min < schedule.step {
        room(schedule)
    } else {
        schedule.step as nat
    }
}

/// What a run has yet to go through.
pub struct Measure {
    /// The configuration epochs that are left.
    pub config_left: nat,
    /// The training epochs that are left of this configuration epoch.
    pub train_left: nat,
    /// The parts that are left of this training epoch.
    pub stage: nat,
    /// The room that is left to the ceilings of the two schedules, less what
    /// the favourability is to lose at the end of the crossover under way.
    pub room: nat,
    /// How far the favourability is above its floor, in the rounds of a
    /// crossover.
    pub slack: nat,
    /// The place of the phase.
    pub place: nat,
}

/// The measure of a run.
pub open spec fn measure(run: OptimizerView) -> Measure {
    let temperature = run.breeder.temperature;
    let favourability = run.breeder.favourability;
    let tuning = stage(run.phase) == 4 || stage(run.phase) == 2;
    Measure {
        config_left: (run.max_config_changing_epochs - run.config_epoch) as nat,
        train_left: (run.max_train_epochs - run.train_epoch) as nat,
        stage: stage(run.phase),
        room: if !tuning {
            0
        } else if in_crossover(run.phase) {
            (room(temperature) + room(favourability) - lowering(favourability)) as nat
        } else {
            room(temperature) + room(favourability)
        },
        slack: if in_crossover_rounds(run.phase) {
            (favourability.current - favourability.min) as nat
        } else {
            0
        },
        place: place(run.phase),
    }
}

/// Whether `lesser` is lower than `greater`: in the first of their parts in
/// which they differ.
pub open spec fn lower(lesser: Measure, greater: Measure) -> bool {
    ||| lesser.config_left < greater.config_left
    ||| lesser.config_left == greater.config_left && lesser.train_left < greater.train_left
    ||| lesser.config_left == greater.config_left && lesser.train_left == greater.train_left
        && lesser.stage < greater.stage
    ||| lesser.config_left == greater.config_left && lesser.train_left == greater.train_left
        && lesser.stage == greater.stage && lesser.room < greater.room
    ||| lesser.config_left == greater.config_left && lesser.train_left == greater.train_left
        && lesser.stage == greater.stage && lesser.room == greater.room && lesser.slack < greater.slack
    ||| lesser.config_left == greater.config_left && lesser.train_left == greater.train_left
        && lesser.stage == greater.stage && lesser.room == greater.room && lesser.slack == greater.slack
        && lesser.place < greater.place
}

/// What is lower than something lower is lower.
pub proof fn lemma_lower_is_transitive(first: Measure, second: Measure, third: Measure)
    requires
        lower(first, second),
        lower(second, third),
    ensures
        lower(first, third),
{
}

/// Every step lowers the measure of a run, whether it sends a round out or
/// not.
pub proof fn lemma_step_lowers_measure(run: OptimizerView)
    requires
        run.wf(),
        !run.phase.awaiting(),
        !run.phase.ended(),
    ensures
        lower(measure(run.stepped()), measure(run)),
{
    let temperature = run.breeder.temperature;
    let favourability = run.breeder.favourability;
    if run.phase == Phase::AfterHyperSa || run.phase == Phase::AfterWeightsSa {
        assert(run.schedules_open());
        assert(room(temperature.ratcheted()) == room(temperature) - lowering(temperature));
        assert(lowering(temperature) + lowering(favourability) >= 1);
    } else if run.phase == Phase::HyperGaExit || run.phase == Phase::WeightsGaExit {
        assert(room(favourability.ratcheted()) == room(favourability) - lowering(favourability));
    } else if run.phase == Phase::HyperGaHead || run.phase == Phase::WeightsGaHead {
        if favourability.current > favourability.min {
            assert(favourability.dropped().current < favourability.current);
        }
    }
}

/// Every round that is reported lowers the measure of a run.
pub proof fn lemma_round_lowers_measure(run: OptimizerView)
    requires
        run.wf(),
        run.phase.awaiting(),
    ensures
        lower(measure(run.at(resumed(run.phase))), measure(run)),
{
}

} // verus!
