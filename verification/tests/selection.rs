use nnet_optimizer::classifier_parts::classifier_errors::{ga_missing_weights_error, sa_missing_weights_error};
use nnet_optimizer::classifier_parts::optimize_nnet::{
    no_recycled_settings, no_recycled_trainer, no_winners_to_add_to_candidate_list,
};
use nnet_optimizer::classifier_parts::reseed::{check_all_weighted, reset_weights, seed_weights};
use nnet_optimizer::classifier_parts::selection::{
    acceptable_accuracy_reached, collect_final_settings, copy_trainer_accuracy_to_settings,
    expand_most_accurate_settings, find_best, max_inc_threshold, min_accuracy_inc_not_reached,
    promote_candidates_to_most_accurate, recycle_settings, set_top_score, TrainerResult,
};
use nnet_optimizer::classifier_parts::workload::{
    create_workload, get_child_settings, prepare_trainers, recycle_trainers, worker_count, TrainerBinding,
};
use nnet_optimizer::data_and_config::neural_net_config_parts::{
    LayerSettings, NeuralNetSettings, WeightRange,
};
use nnet_optimizer::neural_network_parts::nnet_errors::NNetError;

const ONE: u64 = 1_000_000_000;

fn scored(config_id: usize, accuracy: u64) -> NeuralNetSettings {
    NeuralNetSettings { query_id: 0, config_id, accuracy, input_size: 1, layers: Vec::new() }
}

fn ids(pool: &Vec<NeuralNetSettings>) -> Vec<usize> {
    pool.iter().map(|settings| settings.config_id).collect()
}

fn scores(pool: &Vec<NeuralNetSettings>) -> Vec<u64> {
    pool.iter().map(|settings| settings.accuracy).collect()
}

fn result(trainee_id: usize, accuracy: u64) -> TrainerResult {
    TrainerResult { trainee_id, accuracy }
}

fn binding(trainer: usize, config_id: usize) -> TrainerBinding {
    TrainerBinding { trainer, config_id, fresh: false }
}

#[test]
fn breeder_messages() {
    assert_eq!(ga_missing_weights_error(), "Breeder failed: a layer has no weights to cross over.");
    assert_eq!(sa_missing_weights_error(), "Breeder failed: a layer has no weights to anneal.");
}

#[test]
fn pool_messages() {
    assert_eq!(no_recycled_settings(), "Optimize_nnet_settings failed in function get_child_settings");
    assert_eq!(
        no_winners_to_add_to_candidate_list(),
        "Optimize_nnet_settings failed in function add_prev_winners_to_candidates"
    );
    assert_eq!(no_recycled_trainer(), "No recycled trainer found");
}

#[test]
fn accuracies_are_copied_by_identifier() {
    let mut candidates = vec![scored(4, 1), scored(5, 2), scored(6, 3)];
    copy_trainer_accuracy_to_settings(&mut candidates, &vec![result(6, 60), result(4, 40), result(9, 90)]);
    assert_eq!(scores(&candidates), vec![40, 2, 60]);
    assert_eq!(ids(&candidates), vec![4, 5, 6]);
}

#[test]
fn a_later_result_overrides_an_earlier_one() {
    let mut candidates = vec![scored(4, 1), scored(4, 2)];
    copy_trainer_accuracy_to_settings(&mut candidates, &vec![result(4, 40), result(4, 41)]);
    // only the first candidate with the identifier is served
    assert_eq!(scores(&candidates), vec![41, 2]);
}

#[test]
fn best_is_the_last_of_the_greatest() {
    assert_eq!(find_best(&vec![scored(1, 5)]), 0);
    assert_eq!(find_best(&vec![scored(1, 5), scored(2, 9), scored(3, 9), scored(4, 1)]), 2);
    assert_eq!(find_best(&vec![scored(1, 0), scored(2, 0)]), 1);
}

#[test]
fn elite_is_topped_up_with_the_best_candidates() {
    let mut elite = vec![scored(1, 50)];
    let mut candidates = vec![scored(2, 10), scored(3, 90), scored(4, 30), scored(5, 70)];
    expand_most_accurate_settings(&mut elite, &mut candidates, 3);
    assert_eq!(ids(&elite), vec![1, 3, 5]);
    assert_eq!(ids(&candidates), vec![2, 4]);
}

#[test]
fn elite_takes_every_candidate_when_short_of_them() {
    let mut elite = Vec::new();
    let mut candidates = vec![scored(2, 10), scored(3, 90)];
    expand_most_accurate_settings(&mut elite, &mut candidates, 5);
    assert_eq!(ids(&elite), vec![3, 2]);
    assert!(candidates.is_empty());
}

#[test]
fn a_full_elite_is_not_topped_up() {
    let mut elite = vec![scored(1, 1), scored(2, 2)];
    let mut candidates = vec![scored(3, 90)];
    expand_most_accurate_settings(&mut elite, &mut candidates, 2);
    assert_eq!(ids(&elite), vec![1, 2]);
    assert_eq!(ids(&candidates), vec![3]);
    expand_most_accurate_settings(&mut elite, &mut candidates, 0);
    assert_eq!(ids(&elite), vec![1, 2]);
}

#[test]
fn a_candidate_displaces_the_first_member_it_beats() {
    let mut elite = vec![scored(1, 50), scored(2, 30)];
    let mut candidates = vec![scored(3, 60)];
    let mut recycled = vec![scored(9, 0)];
    promote_candidates_to_most_accurate(&mut elite, &mut candidates, &mut recycled);
    assert_eq!(ids(&elite), vec![2, 3]);
    assert!(candidates.is_empty());
    assert_eq!(ids(&recycled), vec![9, 1]);
}

#[test]
fn candidates_have_their_turn_from_the_last() {
    let mut elite = vec![scored(1, 50), scored(2, 30)];
    let mut candidates = vec![scored(3, 40), scored(4, 20), scored(5, 60)];
    let mut recycled = Vec::new();
    promote_candidates_to_most_accurate(&mut elite, &mut candidates, &mut recycled);
    // 5 displaces 1: elite [2, 5]; 4 beats none; 3 displaces 2: elite [5, 3]
    assert_eq!(ids(&elite), vec![5, 3]);
    assert_eq!(ids(&candidates), vec![4]);
    assert_eq!(ids(&recycled), vec![1, 2]);
    for candidate in &candidates {
        for member in &elite {
            assert!(candidate.accuracy <= member.accuracy);
        }
    }
}

#[test]
fn a_candidate_that_only_equals_displaces_nobody() {
    let mut elite = vec![scored(1, 50)];
    let mut candidates = vec![scored(3, 50)];
    let mut recycled = Vec::new();
    promote_candidates_to_most_accurate(&mut elite, &mut candidates, &mut recycled);
    assert_eq!(ids(&elite), vec![1]);
    assert_eq!(ids(&candidates), vec![3]);
    assert!(recycled.is_empty());
}

#[test]
fn candidates_are_recycled_from_the_last() {
    let mut candidates = vec![scored(3, 0), scored(4, 0), scored(5, 0)];
    let mut recycled = vec![scored(1, 0)];
    recycle_settings(&mut candidates, &mut recycled);
    assert!(candidates.is_empty());
    assert_eq!(ids(&recycled), vec![1, 5, 4, 3]);
}

#[test]
fn top_score_only_rises() {
    let elite = vec![scored(1, 50), scored(2, 70), scored(3, 60)];
    assert_eq!(set_top_score(&elite, 0), 70);
    assert_eq!(set_top_score(&elite, 80), 80);
    assert_eq!(set_top_score(&Vec::new(), 5), 5);
}

#[test]
fn thresholds_follow_the_bands() {
    assert_eq!(max_inc_threshold(0), 200_000_000);
    assert_eq!(max_inc_threshold(90 * ONE), 200_000_000);
    assert_eq!(max_inc_threshold(90 * ONE + 1), 100_000_000);
    assert_eq!(max_inc_threshold(92 * ONE), 100_000_000);
    assert_eq!(max_inc_threshold(92 * ONE + 1), 80_000_000);
    assert_eq!(max_inc_threshold(94 * ONE), 80_000_000);
    assert_eq!(max_inc_threshold(94 * ONE + 1), 40_000_000);
    assert_eq!(max_inc_threshold(96 * ONE), 40_000_000);
    assert_eq!(max_inc_threshold(97 * ONE), 40_000_000);
    assert_eq!(max_inc_threshold(98 * ONE - 1), 40_000_000);
    assert_eq!(max_inc_threshold(98 * ONE), 10_000_000);
    assert_eq!(max_inc_threshold(99 * ONE), 10_000_000);
    assert_eq!(max_inc_threshold(99 * ONE + 1), 1_000_000);
    assert_eq!(max_inc_threshold(99_400_000_000), 1_000_000);
    assert_eq!(max_inc_threshold(99_400_000_001), 500_000);
    assert_eq!(max_inc_threshold(99_600_000_000), 500_000);
    assert_eq!(max_inc_threshold(99_600_000_001), 100_000);
    assert_eq!(max_inc_threshold(99_800_000_000), 100_000);
    assert_eq!(max_inc_threshold(99_800_000_001), 50_000);
    assert_eq!(max_inc_threshold(100 * ONE), 50_000);
}

#[test]
fn thresholds_never_grow() {
    let mut before = max_inc_threshold(0);
    let mut accuracy = 0;
    while accuracy <= 100 * ONE {
        let now = max_inc_threshold(accuracy);
        assert!(now <= before);
        before = now;
        accuracy += 50_000_000;
    }
}

#[test]
fn a_gain_below_the_threshold_is_a_stall() {
    assert!(min_accuracy_inc_not_reached(50 * ONE, 50 * ONE));
    assert!(min_accuracy_inc_not_reached(50 * ONE, 50 * ONE + 199_999_999));
    assert!(!min_accuracy_inc_not_reached(50 * ONE, 50 * ONE + 200_000_000));
    assert!(min_accuracy_inc_not_reached(99_900_000_000, 99_900_049_999));
    assert!(!min_accuracy_inc_not_reached(99_900_000_000, 99_900_050_000));
    assert!(min_accuracy_inc_not_reached(60 * ONE, 50 * ONE));
    assert!(!min_accuracy_inc_not_reached(0, 75 * ONE));
}

#[test]
fn the_accuracy_asked_for_is_reached_at_equality() {
    assert!(acceptable_accuracy_reached(75 * ONE, 75 * ONE));
    assert!(acceptable_accuracy_reached(76 * ONE, 75 * ONE));
    assert!(!acceptable_accuracy_reached(75 * ONE - 1, 75 * ONE));
}

#[test]
fn final_settings_are_the_best_in_order() {
    let mut elite = vec![scored(1, 50), scored(2, 90), scored(3, 70), scored(4, 10)];
    let mut tuned = Vec::new();
    collect_final_settings(&mut elite, &mut tuned, 20, 2);
    assert_eq!(ids(&tuned), vec![2, 3]);
    assert_eq!(ids(&elite), vec![1, 4]);
}

#[test]
fn final_settings_below_the_accuracy_asked_for_are_dropped() {
    let mut elite = vec![scored(1, 50), scored(2, 90), scored(3, 70), scored(4, 10)];
    let mut tuned = Vec::new();
    collect_final_settings(&mut elite, &mut tuned, 60, 10);
    assert_eq!(ids(&tuned), vec![2, 3]);
    assert!(elite.is_empty());
}

#[test]
fn final_settings_are_added_to_what_is_there() {
    let mut elite = vec![scored(1, 50), scored(2, 90)];
    let mut tuned = vec![scored(8, 1), scored(9, 2)];
    collect_final_settings(&mut elite, &mut tuned, 0, 2);
    assert_eq!(ids(&tuned), vec![8, 9, 2]);
    assert_eq!(ids(&elite), vec![1]);
}

#[test]
fn final_settings_of_equal_accuracy_leave_in_order() {
    let mut elite = vec![scored(1, 0), scored(2, 0), scored(3, 0)];
    let mut tuned = Vec::new();
    collect_final_settings(&mut elite, &mut tuned, 0, 5);
    assert_eq!(ids(&tuned), vec![1, 2, 3]);
}

#[test]
fn workers_are_two_at_least() {
    assert_eq!(worker_count(4, 8), 4);
    assert_eq!(worker_count(8, 4), 4);
    assert_eq!(worker_count(1, 8), 2);
    assert_eq!(worker_count(0, 8), 2);
    assert_eq!(worker_count(8, 1), 2);
    assert_eq!(worker_count(8, 0), 2);
    assert_eq!(worker_count(3, 3), 3);
}

#[test]
fn trainers_are_dealt_in_turn_from_the_last() {
    let mut trainers: Vec<TrainerBinding> = (0..7).map(|k| binding(k, 100 + k)).collect();
    let workload = create_workload(&mut trainers, 3);
    assert!(trainers.is_empty());
    let dealt: Vec<Vec<usize>> =
        workload.iter().map(|shard| shard.iter().map(|bound| bound.trainer).collect()).collect();
    assert_eq!(dealt, vec![vec![6, 3, 0], vec![5, 2], vec![4, 1]]);
}

#[test]
fn every_trainer_is_dealt_once() {
    for count in 0..20usize {
        for workers in 1..6usize {
            let mut trainers: Vec<TrainerBinding> = (0..count).map(|k| binding(k, k)).collect();
            let workload = create_workload(&mut trainers, workers);
            assert_eq!(workload.len(), workers);
            let mut seen: Vec<usize> =
                workload.iter().flat_map(|shard| shard.iter().map(|bound| bound.trainer)).collect();
            seen.sort();
            assert_eq!(seen, (0..count).collect::<Vec<usize>>());
            let longest = workload.iter().map(|shard| shard.len()).max().unwrap();
            let shortest = workload.iter().map(|shard| shard.len()).min().unwrap();
            assert!(longest - shortest <= 1);
        }
    }
}

#[test]
fn trainers_that_wait_serve_before_fresh_ones() {
    let candidates = vec![scored(10, 0), scored(11, 0), scored(12, 0), scored(13, 0)];
    let mut bound = Vec::new();
    let mut waiting = vec![5, 6];
    let mut count = 7;
    assert_eq!(prepare_trainers(&candidates, &mut bound, &mut waiting, &mut count), Ok(()));
    assert_eq!(
        bound,
        vec![
            TrainerBinding { trainer: 6, config_id: 10, fresh: false },
            TrainerBinding { trainer: 5, config_id: 11, fresh: false },
            TrainerBinding { trainer: 7, config_id: 12, fresh: true },
            TrainerBinding { trainer: 8, config_id: 13, fresh: true },
        ]
    );
    assert!(waiting.is_empty());
    assert_eq!(count, 9);
}

#[test]
fn trainers_that_are_not_needed_keep_waiting() {
    let candidates = vec![scored(10, 0)];
    let mut bound = Vec::new();
    let mut waiting = vec![5, 6, 7];
    let mut count = 8;
    assert_eq!(prepare_trainers(&candidates, &mut bound, &mut waiting, &mut count), Ok(()));
    assert_eq!(bound, vec![TrainerBinding { trainer: 7, config_id: 10, fresh: false }]);
    assert_eq!(waiting, vec![5, 6]);
    assert_eq!(count, 8);
}

#[test]
fn trainers_cannot_be_numbered_beyond_the_largest_number() {
    let candidates = vec![scored(10, 0), scored(11, 0)];
    let mut bound = Vec::new();
    let mut waiting = vec![5];
    let mut count = usize::MAX;
    assert_eq!(
        prepare_trainers(&candidates, &mut bound, &mut waiting, &mut count),
        Err(NNetError::NoRecycledTrainer)
    );
    assert!(bound.is_empty());
    assert_eq!(waiting, vec![5]);
    assert_eq!(count, usize::MAX);
}

#[test]
fn trainers_are_recycled_from_the_last() {
    let mut bound = vec![binding(3, 0), binding(4, 0), binding(5, 0)];
    let mut waiting = vec![1];
    recycle_trainers(&mut bound, &mut waiting);
    assert!(bound.is_empty());
    assert_eq!(waiting, vec![1, 5, 4, 3]);
}

#[test]
fn a_child_is_the_last_of_the_recycled() {
    let mut recycled = vec![scored(3, 30), scored(4, 40)];
    let template = scored(1, 10);
    let mut sequence = 7;
    let child = get_child_settings(&mut recycled, &template, &mut sequence).unwrap();
    assert_eq!((child.config_id, child.accuracy), (4, 40));
    assert_eq!(ids(&recycled), vec![3]);
    assert_eq!(sequence, 7);
}

#[test]
fn a_child_is_a_copy_of_the_template_when_nothing_is_recycled() {
    let mut recycled = Vec::new();
    let template = scored(1, 10);
    let mut sequence = 7;
    let child = get_child_settings(&mut recycled, &template, &mut sequence).unwrap();
    assert_eq!((child.config_id, child.accuracy), (7, 10));
    assert_eq!(sequence, 8);
    let next = get_child_settings(&mut recycled, &template, &mut sequence).unwrap();
    assert_eq!(next.config_id, 8);
}

#[test]
fn a_child_cannot_be_numbered_beyond_the_largest_number() {
    let mut recycled = Vec::new();
    let mut sequence = usize::MAX;
    let outcome = get_child_settings(&mut recycled, &scored(1, 10), &mut sequence);
    assert_eq!(outcome.err(), Some(NNetError::NoRecycledSettings));
    assert_eq!(sequence, usize::MAX);
}

fn layer(units: usize, weights: Option<Vec<Vec<i64>>>) -> LayerSettings {
    LayerSettings {
        activation_function: "sigmoid".to_string(),
        weight_range: WeightRange { low: -500, high: 500 },
        layer_weights: weights,
        output_units: units,
        bias: 1,
        learning_rate: 2,
        momentum: 3,
    }
}

#[test]
fn seeding_gives_every_layer_a_matrix_that_fits() {
    let mut settings = NeuralNetSettings {
        query_id: 1,
        config_id: 2,
        accuracy: 3,
        input_size: 4,
        layers: vec![layer(3, Some(vec![vec![9]])), layer(2, None)],
    };
    seed_weights(&mut settings);
    assert_eq!((settings.query_id, settings.config_id, settings.accuracy, settings.input_size), (1, 2, 3, 4));
    let first = settings.layers[0].layer_weights.as_ref().unwrap();
    assert_eq!(first.len(), 3);
    for row in first {
        assert_eq!(row.len(), 4);
        assert!(-500 <= row[0] && row[0] < 500);
        assert!(row.iter().all(|weight| *weight == row[0]));
    }
    let second = settings.layers[1].layer_weights.as_ref().unwrap();
    assert_eq!(second.len(), 2);
    for row in second {
        assert_eq!(row.len(), 3);
    }
    assert_eq!(settings.layers[0].bias, 1);
    assert_eq!(settings.layers[1].output_units, 2);
}

#[test]
fn weights_are_drawn_anew_within_the_range() {
    let mut pool = vec![
        NeuralNetSettings {
            query_id: 1,
            config_id: 2,
            accuracy: 3,
            input_size: 2,
            layers: vec![layer(2, Some(vec![vec![7_000, 7_000, 7_000], vec![7_000]]))],
        },
        scored(5, 50),
    ];
    assert!(check_all_weighted(&pool));
    assert_eq!(reset_weights(&mut pool), Ok(()));
    let rows = pool[0].layers[0].layer_weights.as_ref().unwrap();
    assert_eq!(rows.len(), 2);
    assert_eq!(rows[0].len(), 3);
    assert_eq!(rows[1].len(), 1);
    for row in rows {
        for weight in row {
            assert!(-500 <= *weight && *weight < 500);
        }
    }
    assert_eq!(pool[0].config_id, 2);
    assert_eq!(pool[1].accuracy, 50);
}

#[test]
fn weights_are_not_drawn_for_a_layer_without_a_matrix() {
    let mut pool = vec![NeuralNetSettings {
        query_id: 1,
        config_id: 2,
        accuracy: 3,
        input_size: 2,
        layers: vec![layer(1, Some(vec![vec![7_000]])), layer(1, None)],
    }];
    assert!(!check_all_weighted(&pool));
    assert_eq!(reset_weights(&mut pool), Err(NNetError::UpdateMissingWeights));
    assert_eq!(pool[0].layers[0].layer_weights, Some(vec![vec![7_000]]));
}
