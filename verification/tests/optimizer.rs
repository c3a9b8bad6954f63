use nnet_optimizer::classifier_parts::optimize_nnet::{Optimizer, Phase, Round, RoundKind, Step};
use nnet_optimizer::classifier_parts::selection::TrainerResult;
use nnet_optimizer::data_and_config::dataset::TableInfo;
use nnet_optimizer::data_and_config::neural_net_config_parts::{
    LayerSettings, NeuralNetSettings, WeightRange,
};
use nnet_optimizer::data_and_config::optimizer_parameters::OptimizerParameters;
use nnet_optimizer::data_and_config::test_config::{run_test, TargetObject, Test, TestConfig};
use nnet_optimizer::neural_network_parts::nnet_errors::NNetError;

const ONE: u64 = 1_000_000_000;

fn layer(units: usize) -> LayerSettings {
    LayerSettings {
        activation_function: "sigmoid".to_string(),
        weight_range: WeightRange { low: -1_000_000_000, high: 1_000_000_000 },
        layer_weights: None,
        output_units: units,
        bias: 0,
        learning_rate: 100_000_000,
        momentum: 0,
    }
}

fn request(min_acceptable_accuracy: u64) -> OptimizerParameters {
    OptimizerParameters {
        temperature_drops: 2,
        heritability_bias_drops: 2,
        current_candidate_configuration: NeuralNetSettings {
            query_id: 1,
            config_id: 77,
            accuracy: 0,
            input_size: 2,
            layers: vec![layer(3), layer(2)],
        },
        test_train_cutoff_idx: 3,
        train_rounds_per_epoch: 500,
        max_train_epochs: 2,
        max_config_changing_epochs: 2,
        final_number_of_nnet_settings: 2,
        winners_per_round: 0,
        tuned_settings: Vec::new(),
        min_acceptable_accuracy,
        cpus_to_use: 0,
    }
}

fn bound_ids(round: &Round) -> Vec<usize> {
    let mut found: Vec<usize> =
        round.workload.iter().flat_map(|shard| shard.iter().map(|bound| bound.config_id)).collect();
    found.sort();
    found
}

fn results_for(run: &Optimizer, accuracy_of: &dyn Fn(usize) -> u64) -> Vec<TrainerResult> {
    run.candidate_settings()
        .iter()
        .map(|candidate| TrainerResult { trainee_id: candidate.config_id, accuracy: accuracy_of(candidate.config_id) })
        .collect()
}

#[test]
fn a_run_starts_with_the_requested_candidate_as_its_elite() {
    let run = Optimizer::with_cores(&request(75 * ONE), 4);
    assert_eq!(run.phase(), Phase::ConfigEpochStart);
    assert_eq!(run.max_accuracy(), 0);
    assert_eq!(run.generation_count(), 0);
    let elite = run.most_accurate_settings();
    assert_eq!(elite.len(), 1);
    assert_eq!(elite[0].config_id, 1);
    assert_eq!(elite[0].query_id, 1);
    let first = elite[0].layers[0].layer_weights.as_ref().unwrap();
    assert_eq!(first.len(), 3);
    assert!(first.iter().all(|row| row.len() == 2));
    let second = elite[0].layers[1].layer_weights.as_ref().unwrap();
    assert_eq!(second.len(), 2);
    assert!(second.iter().all(|row| row.len() == 3));
    assert_eq!(run.template().config_id, 1);
    assert!(run.candidate_settings().is_empty());
}

#[test]
fn a_run_made_on_this_machine_starts_the_same_way() {
    let run = Optimizer::new(&request(75 * ONE));
    assert_eq!(run.phase(), Phase::ConfigEpochStart);
    assert_eq!(run.most_accurate_settings().len(), 1);
}

#[test]
fn the_first_round_trains_the_children_of_an_annealing() {
    let mut run = Optimizer::with_cores(&request(75 * ONE), 4);
    let round = match run.advance() {
        Ok(Step::Evaluate(round)) => round,
        other => panic!("no round: {:?}", other),
    };
    assert_eq!(round.kind, RoundKind::Train);
    assert_eq!(round.test_train_cutoff_idx, 3);
    assert_eq!(round.train_rounds_per_epoch, 500);
    // one worker at least is asked for, and two at least share a round
    assert_eq!(round.workload.len(), 2);
    assert_eq!(run.phase(), Phase::AwaitHyperSa);
    assert_eq!(run.generation_count(), 1);
    // two drops take the temperature to its floor, with one child of the only member each
    let candidates = run.candidate_settings();
    assert_eq!(candidates.len(), 2);
    assert_eq!(candidates[0].config_id, 2);
    assert_eq!(candidates[1].config_id, 3);
    assert_eq!(bound_ids(&round), vec![2, 3]);
    for shard in &round.workload {
        for bound in shard {
            assert!(bound.fresh);
            assert!(bound.trainer < 2);
        }
    }
}

#[test]
fn a_run_waits_for_its_round() {
    let mut run = Optimizer::with_cores(&request(75 * ONE), 4);
    run.advance().unwrap();
    assert!(matches!(run.advance(), Ok(Step::Waiting)));
    assert!(matches!(run.advance(), Ok(Step::Waiting)));
    assert_eq!(run.candidate_settings().len(), 2);
}

#[test]
fn reporting_without_a_round_changes_nothing() {
    let mut run = Optimizer::with_cores(&request(75 * ONE), 4);
    run.conclude_round(&vec![TrainerResult { trainee_id: 1, accuracy: 5 }]);
    assert_eq!(run.phase(), Phase::ConfigEpochStart);
    assert_eq!(run.max_accuracy(), 0);
}

#[test]
fn a_round_tops_the_elite_up_and_raises_the_best() {
    let mut run = Optimizer::with_cores(&request(75 * ONE), 4);
    run.advance().unwrap();
    let results = results_for(&run, &|id| id as u64 * ONE);
    run.conclude_round(&results);
    assert_eq!(run.phase(), Phase::AfterHyperSa);
    // two winners are kept at least: the better child joins, and the other
    // then displaces the first member, whose accuracy is zero
    let elite: Vec<(usize, u64)> =
        run.most_accurate_settings().iter().map(|member| (member.config_id, member.accuracy)).collect();
    assert_eq!(elite, vec![(3, 3 * ONE), (2, 2 * ONE)]);
    assert_eq!(run.max_accuracy(), 3 * ONE);
    assert!(run.candidate_settings().is_empty());
}

#[test]
fn a_run_that_reaches_the_accuracy_asked_for_finishes() {
    let mut run = Optimizer::with_cores(&request(75 * ONE), 4);
    let mut rounds = 0;
    let mut kinds = Vec::new();
    loop {
        match run.advance() {
            Ok(Step::Evaluate(round)) => {
                rounds += 1;
                kinds.push(round.kind);
                let results = results_for(&run, &|_| 80 * ONE);
                run.conclude_round(&results);
            },
            Ok(Step::Finished) => break,
            other => panic!("unexpected step: {:?}", other),
        }
        assert!(rounds < 1000);
    }
    assert_eq!(run.phase(), Phase::Finished);
    assert_eq!(run.max_accuracy(), 80 * ONE);
    assert_eq!(kinds[0], RoundKind::Train);
    assert!(kinds.contains(&RoundKind::Search));
    let mut order_form = request(75 * ONE);
    run.collect_final_settings(&mut order_form);
    assert_eq!(order_form.tuned_settings.len(), 2);
    for tuned in &order_form.tuned_settings {
        assert_eq!(tuned.accuracy, 80 * ONE);
    }
    assert!(matches!(run.advance(), Ok(Step::Finished)));
}

#[test]
fn a_run_that_never_improves_comes_to_its_end() {
    let mut run = Optimizer::with_cores(&request(99 * ONE), 4);
    let mut rounds = 0;
    loop {
        match run.advance() {
            Ok(Step::Evaluate(round)) => {
                rounds += 1;
                assert_eq!(bound_ids(&round).len(), run.candidate_settings().len());
                let results = results_for(&run, &|_| 10 * ONE);
                run.conclude_round(&results);
            },
            Ok(Step::Finished) => break,
            other => panic!("unexpected step: {:?}", other),
        }
        assert!(rounds < 10_000);
    }
    assert!(rounds > 0);
    let mut order_form = request(99 * ONE);
    run.collect_final_settings(&mut order_form);
    assert!(order_form.tuned_settings.is_empty());
}

#[test]
fn identifiers_stay_unique_over_a_run() {
    let mut run = Optimizer::with_cores(&request(101 * ONE), 4);
    let mut score = 0u64;
    let mut rounds = 0;
    loop {
        match run.advance() {
            Ok(Step::Evaluate(round)) => {
                rounds += 1;
                let mut live: Vec<usize> = run.candidate_settings().iter().map(|c| c.config_id).collect();
                live.extend(run.most_accurate_settings().iter().map(|c| c.config_id));
                let count = live.len();
                live.sort();
                live.dedup();
                assert_eq!(live.len(), count);
                let mut trainers: Vec<usize> =
                    round.workload.iter().flat_map(|shard| shard.iter().map(|bound| bound.trainer)).collect();
                let bound = trainers.len();
                trainers.sort();
                trainers.dedup();
                assert_eq!(trainers.len(), bound);
                score += ONE / 4;
                let results = results_for(&run, &|id| score + id as u64);
                run.conclude_round(&results);
            },
            Ok(Step::Finished) => break,
            other => panic!("unexpected step: {:?}", other),
        }
        assert!(rounds < 10_000);
    }
}

#[test]
fn a_run_without_epochs_finishes_at_once() {
    let mut order_form = request(75 * ONE);
    order_form.max_config_changing_epochs = 0;
    let mut run = Optimizer::with_cores(&order_form, 4);
    assert!(matches!(run.advance(), Ok(Step::Finished)));
    let mut none = request(75 * ONE);
    none.max_train_epochs = 0;
    let mut other = Optimizer::with_cores(&none, 4);
    assert!(matches!(other.advance(), Ok(Step::Finished)));
}

#[test]
fn a_search_round_tests_on_every_row() {
    let mut run = Optimizer::with_cores(&request(75 * ONE), 4);
    loop {
        match run.advance() {
            Ok(Step::Evaluate(round)) => {
                if round.kind == RoundKind::Search {
                    assert_eq!(round.test_train_cutoff_idx, 0);
                    break;
                }
                assert_eq!(round.test_train_cutoff_idx, 3);
                let results = results_for(&run, &|_| 0);
                run.conclude_round(&results);
            },
            other => panic!("unexpected step: {:?}", other),
        }
    }
}

#[test]
fn a_run_over_a_configuration_without_layers_sends_rounds_too() {
    let mut order_form = request(75 * ONE);
    order_form.current_candidate_configuration.layers.clear();
    let mut run = Optimizer::with_cores(&order_form, 4);
    assert!(matches!(run.advance(), Ok(Step::Evaluate(_))));
    assert_eq!(NNetError::NoRecycledTrainer.message(), "No recycled trainer found");
}

#[test]
fn the_target_of_a_description_is_found_by_name() {
    let mut config = TestConfig {
        settings_path: String::new(),
        data_path: String::new(),
        target_object: "NeuralNetwork".to_string(),
        tests: Vec::new(),
    };
    assert_eq!(run_test(&config), TargetObject::NeuralNetwork);
    config.target_object = "NNetTrainer".to_string();
    assert_eq!(run_test(&config), TargetObject::NNetTrainer);
    config.target_object = "Breeder".to_string();
    assert_eq!(run_test(&config), TargetObject::Breeder);
    config.target_object = "Classifier".to_string();
    assert_eq!(run_test(&config), TargetObject::Classifier);
    config.target_object = "Optimizer".to_string();
    assert_eq!(run_test(&config), TargetObject::Optimizer);
    config.target_object = "breeder".to_string();
    assert_eq!(run_test(&config), TargetObject::Unknown);
    config.target_object = String::new();
    assert_eq!(run_test(&config), TargetObject::Unknown);
}

#[test]
fn descriptions_hold_what_they_are_given() {
    let info = TableInfo {
        table_name: "iris".to_string(),
        query_id: 4,
        column_names: Some(vec!["length".to_string(), "width".to_string()]),
    };
    assert_eq!(info.table_name, "iris");
    assert_eq!(info.query_id, 4);
    assert_eq!(info.column_names.unwrap().len(), 2);
    let config = TestConfig {
        settings_path: "settings".to_string(),
        data_path: "data".to_string(),
        target_object: "NeuralNetwork".to_string(),
        tests: vec![Test {
            settings: "a.json".to_string(),
            bulk_settings: vec!["b.json".to_string()],
            data: "c.json".to_string(),
            rounds: 500,
            training_cutoff_index: 3,
        }],
    };
    assert_eq!(config.tests[0].rounds, 500);
    assert_eq!(config.tests[0].training_cutoff_index, 3);
    assert_eq!(config.target_object, "NeuralNetwork");
}

fn step_until_round(run: &mut Optimizer) -> (Vec<Phase>, Round) {
    let mut passed = Vec::new();
    loop {
        passed.push(run.phase());
        match run.step() {
            Ok(Some(round)) => return (passed, round),
            Ok(None) => {},
            Err(fault) => panic!("{}", fault.message()),
        }
        assert!(passed.len() < 100);
    }
}

#[test]
fn steps_pass_the_phases_in_order() {
    let mut run = Optimizer::with_cores(&request(75 * ONE), 4);
    let (passed, round) = step_until_round(&mut run);
    assert_eq!(
        passed,
        vec![Phase::ConfigEpochStart, Phase::TrainEpochStart, Phase::HyperStart, Phase::HyperLoopHead]
    );
    assert_eq!(round.kind, RoundKind::Train);
    assert_eq!(run.phase(), Phase::AwaitHyperSa);
    run.conclude_round(&results_for(&run, &|id| id as u64 * ONE));
    assert_eq!(run.phase(), Phase::AfterHyperSa);
    let (passed, round) = step_until_round(&mut run);
    assert_eq!(passed, vec![Phase::AfterHyperSa, Phase::HyperGaHead]);
    assert_eq!(round.kind, RoundKind::Train);
    assert_eq!(run.phase(), Phase::AwaitHyperGa);
    // two members of the elite make two ordered pairs
    assert_eq!(run.candidate_settings().len(), 2);
    // nothing is gained: the crossover is left, and with it the hyperparameters
    run.conclude_round(&results_for(&run, &|_| 0));
    let (passed, round) = step_until_round(&mut run);
    assert_eq!(
        passed,
        vec![Phase::AfterHyperGa, Phase::HyperGaExit, Phase::WeightsStart, Phase::WeightsLoopHead]
    );
    assert_eq!(round.kind, RoundKind::Search);
    assert_eq!(run.phase(), Phase::AwaitWeightsSa);
    // two drops with two members of the elite each
    assert_eq!(run.candidate_settings().len(), 4);
    run.conclude_round(&results_for(&run, &|_| 0));
    let (passed, round) = step_until_round(&mut run);
    assert_eq!(passed, vec![Phase::AfterWeightsSa, Phase::WeightsGaHead]);
    assert_eq!(round.kind, RoundKind::Search);
    // two ordered pairs, with one child by blending and one by rows each
    assert_eq!(run.candidate_settings().len(), 4);
}

#[test]
fn a_crossover_goes_on_while_it_gains() {
    let mut run = Optimizer::with_cores(&request(75 * ONE), 4);
    step_until_round(&mut run);
    run.conclude_round(&results_for(&run, &|_| 10 * ONE));
    step_until_round(&mut run);
    assert_eq!(run.phase(), Phase::AwaitHyperGa);
    run.conclude_round(&results_for(&run, &|_| 20 * ONE));
    let (passed, _) = step_until_round(&mut run);
    assert_eq!(passed, vec![Phase::AfterHyperGa, Phase::HyperGaHead]);
    assert_eq!(run.phase(), Phase::AwaitHyperGa);
    // after the second drop the favourability is at its floor; the best has
    // not gained since it was last noted, so the hyperparameters are left
    run.conclude_round(&results_for(&run, &|_| 30 * ONE));
    let (passed, round) = step_until_round(&mut run);
    assert_eq!(
        passed,
        vec![
            Phase::AfterHyperGa,
            Phase::HyperGaHead,
            Phase::HyperGaExit,
            Phase::WeightsStart,
            Phase::WeightsLoopHead
        ]
    );
    assert_eq!(round.kind, RoundKind::Search);
    assert_eq!(run.phase(), Phase::AwaitWeightsSa);
    assert_eq!(run.candidate_settings().len(), 4);
}

#[test]
fn the_accuracy_asked_for_ends_the_tuning_of_hyperparameters() {
    let mut run = Optimizer::with_cores(&request(75 * ONE), 4);
    step_until_round(&mut run);
    run.conclude_round(&results_for(&run, &|_| 75 * ONE));
    let (passed, round) = step_until_round(&mut run);
    assert_eq!(passed, vec![Phase::AfterHyperSa, Phase::WeightsStart, Phase::WeightsLoopHead]);
    assert_eq!(round.kind, RoundKind::Search);
}

#[test]
fn three_stalled_epochs_end_a_configuration_epoch() {
    let mut order_form = request(99 * ONE);
    order_form.max_train_epochs = 10;
    order_form.max_config_changing_epochs = 1;
    let mut run = Optimizer::with_cores(&order_form, 4);
    let mut ends = 0;
    let mut rounds = 0;
    loop {
        if run.phase() == Phase::TrainEpochEnd {
            ends += 1;
        }
        match run.phase() {
            Phase::Finished => break,
            Phase::AwaitHyperSa | Phase::AwaitHyperGa | Phase::AwaitWeightsSa | Phase::AwaitWeightsGa => {
                rounds += 1;
                run.conclude_round(&results_for(&run, &|_| 0));
            },
            _ => {
                run.step().unwrap();
            },
        }
        assert!(rounds < 10_000);
    }
    assert_eq!(ends, 3);
}

#[test]
fn no_more_workers_share_a_round_than_are_asked_for() {
    let mut order_form = request(75 * ONE);
    order_form.cpus_to_use = 3;
    let mut run = Optimizer::with_cores(&order_form, 64);
    match run.advance() {
        Ok(Step::Evaluate(round)) => {
            assert!(round.workload.len() >= 2);
            assert!(round.workload.len() <= 3);
        },
        other => panic!("no round: {:?}", other),
    }
}

#[test]
fn the_first_member_keeps_its_place_until_it_is_beaten() {
    let mut order_form = request(75 * ONE);
    order_form.current_candidate_configuration.accuracy = 50 * ONE;
    order_form.winners_per_round = 1;
    let mut run = Optimizer::with_cores(&order_form, 4);
    run.advance().unwrap();
    run.conclude_round(&results_for(&run, &|_| 40 * ONE));
    // two winners are kept at least: the last of the equal children joins the first member
    let elite: Vec<(usize, u64)> =
        run.most_accurate_settings().iter().map(|member| (member.config_id, member.accuracy)).collect();
    assert_eq!(elite, vec![(1, 50 * ONE), (3, 40 * ONE)]);
    assert_eq!(run.max_accuracy(), 50 * ONE);
}

#[test]
fn a_run_repairs_the_ranges_of_the_requested_candidate() {
    let mut order_form = request(75 * ONE);
    order_form.current_candidate_configuration.layers[0].weight_range = WeightRange { low: 500, high: 500 };
    order_form.current_candidate_configuration.layers[1].weight_range = WeightRange { low: 7, high: -7 };
    let mut run = Optimizer::with_cores(&order_form, 4);
    let first = &run.template().layers[0];
    assert_eq!(first.weight_range, WeightRange { low: 500, high: 100_000_500 });
    for row in first.layer_weights.as_ref().unwrap() {
        assert!(500 <= row[0] && row[0] < 100_000_500);
    }
    assert_eq!(run.template().layers[1].weight_range, WeightRange { low: 7, high: 100_000_007 });
    let mut rounds = 0;
    loop {
        match run.advance() {
            Ok(Step::Evaluate(_)) => {
                rounds += 1;
                for candidate in run.candidate_settings() {
                    for made in &candidate.layers {
                        assert!(made.weight_range.low < made.weight_range.high);
                    }
                }
                run.conclude_round(&results_for(&run, &|id| id as u64));
            },
            Ok(Step::Finished) => break,
            other => panic!("unexpected step: {:?}", other),
        }
        assert!(rounds < 10_000);
    }
    for member in run.most_accurate_settings() {
        for made in &member.layers {
            assert!(made.weight_range.low < made.weight_range.high);
        }
    }
}

#[test]
fn the_children_of_an_annealing_stay_within_the_temperature_of_their_member() {
    for _ in 0..20 {
        let mut run = Optimizer::with_cores(&request(75 * ONE), 4);
        let member_bias = run.most_accurate_settings()[0].layers[0].bias;
        run.advance().unwrap();
        let candidates = run.candidate_settings();
        assert_eq!(candidates.len(), 2);
        // the first child is bred at 1.0, the second after one drop of 0.495
        let first = (candidates[0].layers[0].bias - member_bias).abs();
        let second = (candidates[1].layers[0].bias - member_bias).abs();
        assert!(first < 1_000_000_000);
        assert!(second < 505_000_000);
        // fresh children are copies of the requested candidate under the next identifiers
        assert_eq!(candidates[0].config_id, 2);
        assert_eq!(candidates[1].config_id, 3);
        assert_eq!(candidates[0].layers[0].output_units, 3);
        assert_eq!(
            candidates[1].layers[1].layer_weights,
            run.most_accurate_settings()[0].layers[1].layer_weights
        );
    }
}

#[test]
fn results_must_report_on_every_candidate() {
    let mut run = Optimizer::with_cores(&request(75 * ONE), 4);
    run.advance().unwrap();
    assert!(!run.results_cover(&Vec::new()));
    assert!(!run.results_cover(&vec![TrainerResult { trainee_id: 2, accuracy: 1 }]));
    assert!(run.results_cover(&vec![
        TrainerResult { trainee_id: 3, accuracy: 1 },
        TrainerResult { trainee_id: 9, accuracy: 1 },
        TrainerResult { trainee_id: 2, accuracy: 1 },
    ]));
    let results = results_for(&run, &|_| 0);
    assert!(run.results_cover(&results));
    run.conclude_round(&results);
    assert!(run.results_cover(&Vec::new()));
}

#[test]
fn advancing_goes_where_the_steps_go() {
    let accuracy_of = |id: usize| ((id as u64 * 7) % 60) * ONE;
    let mut advanced = Optimizer::with_cores(&request(75 * ONE), 4);
    let mut stepped = Optimizer::with_cores(&request(75 * ONE), 4);
    let mut rounds = 0;
    loop {
        let outcome = advanced.advance().unwrap();
        let mut found = None;
        while stepped.phase() != Phase::Finished && found.is_none() {
            found = stepped.step().unwrap();
        }
        assert_eq!(advanced.phase(), stepped.phase());
        assert_eq!(advanced.generation_count(), stepped.generation_count());
        assert_eq!(advanced.max_accuracy(), stepped.max_accuracy());
        let ids: Vec<usize> = advanced.candidate_settings().iter().map(|made| made.config_id).collect();
        let others: Vec<usize> = stepped.candidate_settings().iter().map(|made| made.config_id).collect();
        assert_eq!(ids, others);
        match (outcome, found) {
            (Step::Evaluate(round), Some(other)) => {
                assert_eq!(round.kind, other.kind);
                assert_eq!(bound_ids(&round), bound_ids(&other));
                assert!(!ids.is_empty());
            },
            (Step::Finished, None) => break,
            _ => panic!("the two runs part after {} rounds", rounds),
        }
        advanced.conclude_round(&results_for(&advanced, &accuracy_of));
        stepped.conclude_round(&results_for(&stepped, &accuracy_of));
        rounds += 1;
        assert!(rounds < 10_000);
    }
    // a run that asks for epochs does not end before it has sent a round out
    assert!(rounds > 0);
    assert!(advanced.generation_count() > 0);
}
