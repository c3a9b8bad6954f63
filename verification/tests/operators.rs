use nnet_optimizer::classifier_parts::breeder::{Breeder, MIN_ANNEALING_TEMP};
use nnet_optimizer::classifier_parts::operators::{
    anneal_weights_from, blend_weights_from, find_matrix_fault, find_weights_fault,
    ga_hyper_parameters_from, repair_ranges, sa_hyper_parameters_from, swap_weights_from,
    HyperParameterGates, Mutation,
};
use nnet_optimizer::data_and_config::neural_net_config_parts::{
    LayerSettings, NeuralNetSettings, WeightRange,
};
use nnet_optimizer::neural_network_parts::nnet_errors::NNetError;

const ONE: i64 = 1_000_000_000;

fn units(value: i64) -> i64 {
    value * ONE / 10
}

fn layer(low: i64, high: i64, bias: i64, learning_rate: i64, momentum: i64) -> LayerSettings {
    LayerSettings {
        activation_function: "sigmoid".to_string(),
        weight_range: WeightRange { low, high },
        layer_weights: None,
        output_units: 2,
        bias,
        learning_rate,
        momentum,
    }
}

fn weighted(rows: Vec<Vec<i64>>) -> LayerSettings {
    let mut made = layer(-ONE, ONE, 0, units(1), 0);
    made.output_units = rows.len();
    made.layer_weights = Some(rows);
    made
}

fn network(config_id: usize, layers: Vec<LayerSettings>) -> NeuralNetSettings {
    NeuralNetSettings { query_id: 7, config_id, accuracy: 0, input_size: 2, layers }
}

fn all_open() -> HyperParameterGates {
    HyperParameterGates {
        learning_rate: true,
        bias: true,
        momentum: true,
        upper_weight_limit: true,
        lower_weight_limit: true,
    }
}

fn down(magnitude: i64) -> Mutation {
    Mutation { magnitude: magnitude as u64, negative: true }
}

fn up(magnitude: i64) -> Mutation {
    Mutation { magnitude: magnitude as u64, negative: false }
}

#[test]
fn annealing_down_turns_round_for_rate_and_momentum() {
    let parent = network(1, vec![layer(-ONE, ONE, units(5), units(1), 0)]);
    let mut child = network(2, vec![layer(0, 0, 0, 0, 0)]);
    let outcome = sa_hyper_parameters_from(&mut child, &parent, all_open(), &vec![down(units(3))]);
    assert_eq!(outcome, Ok(()));
    let made = &child.layers[0];
    assert_eq!(made.learning_rate, units(4));
    assert_eq!(made.bias, units(2));
    assert_eq!(made.momentum, units(3));
    assert_eq!(made.weight_range.high, units(7));
    assert_eq!(made.weight_range.low, units(-13));
    assert_eq!(child.config_id, 2);
    assert_eq!(child.query_id, 7);
}

#[test]
fn annealing_up_moves_everything_up() {
    let parent = network(1, vec![layer(-ONE, ONE, units(5), units(1), 0)]);
    let mut child = network(2, vec![layer(0, 0, 0, 0, 0)]);
    let outcome = sa_hyper_parameters_from(&mut child, &parent, all_open(), &vec![up(units(3))]);
    assert_eq!(outcome, Ok(()));
    let made = &child.layers[0];
    assert_eq!(made.learning_rate, units(4));
    assert_eq!(made.bias, units(8));
    assert_eq!(made.momentum, units(3));
    assert_eq!(made.weight_range.high, units(13));
    assert_eq!(made.weight_range.low, units(-7));
}

#[test]
fn annealing_flips_for_an_upper_limit_that_would_sink_to_zero() {
    let parent = network(1, vec![layer(-ONE, units(2), 0, ONE, ONE)]);
    let mut child = network(2, vec![layer(0, 0, 0, 0, 0)]);
    sa_hyper_parameters_from(&mut child, &parent, all_open(), &vec![down(units(3))]).unwrap();
    let made = &child.layers[0];
    assert_eq!(made.weight_range.high, units(5));
    // the flipped direction serves the lower limit too
    assert_eq!(made.weight_range.low, units(-7));
    assert_eq!(made.learning_rate, units(7));
    assert_eq!(made.bias, units(-3));
}

#[test]
fn annealing_flips_for_a_lower_limit_that_would_rise_to_zero() {
    let parent = network(1, vec![layer(units(-1), ONE, 0, ONE, ONE)]);
    let mut child = network(2, vec![layer(0, 0, 0, 0, 0)]);
    sa_hyper_parameters_from(&mut child, &parent, all_open(), &vec![up(units(3))]).unwrap();
    let made = &child.layers[0];
    assert_eq!(made.weight_range.high, units(13));
    assert_eq!(made.weight_range.low, units(-4));
}

#[test]
fn annealing_flips_exactly_at_zero() {
    let parent = network(1, vec![layer(units(-3), units(3), 0, units(3), 0)]);
    let mut child = network(2, vec![layer(0, 0, 0, 0, 0)]);
    sa_hyper_parameters_from(&mut child, &parent, all_open(), &vec![down(units(3))]).unwrap();
    let made = &child.layers[0];
    // 0.3 - 0.3 is not above zero: the rate goes the other way
    assert_eq!(made.learning_rate, units(6));
    // 0.3 - 0.3 is not above zero either: the upper limit goes up, and the lower with it,
    // which would reach zero and so turns once more
    assert_eq!(made.weight_range.high, units(6));
    assert_eq!(made.weight_range.low, units(-6));
}

#[test]
fn annealing_repairs_a_range_that_has_closed() {
    let gates = HyperParameterGates {
        learning_rate: false,
        bias: false,
        momentum: false,
        upper_weight_limit: false,
        lower_weight_limit: true,
    };
    let parent = network(1, vec![layer(units(5), units(6), 0, 0, 0)]);
    let mut child = network(2, vec![layer(units(-9), units(-20), units(1), units(2), units(3))]);
    sa_hyper_parameters_from(&mut child, &parent, gates, &vec![up(units(3))]).unwrap();
    let made = &child.layers[0];
    assert_eq!(made.weight_range.low, units(2));
    assert_eq!(made.weight_range.high, units(3));
    // closed gates keep what the child was seeded with
    assert_eq!(made.bias, units(1));
    assert_eq!(made.learning_rate, units(2));
    assert_eq!(made.momentum, units(3));
}

#[test]
fn annealing_repairs_even_with_the_lower_gate_closed() {
    let gates = HyperParameterGates {
        learning_rate: false,
        bias: false,
        momentum: false,
        upper_weight_limit: true,
        lower_weight_limit: false,
    };
    let parent = network(1, vec![layer(0, units(4), 0, 0, 0)]);
    let mut child = network(2, vec![layer(units(8), units(9), 0, 0, 0)]);
    sa_hyper_parameters_from(&mut child, &parent, gates, &vec![up(units(1))]).unwrap();
    let made = &child.layers[0];
    assert_eq!(made.weight_range.low, units(8));
    assert_eq!(made.weight_range.high, units(9));
}

#[test]
fn annealing_with_all_gates_closed_changes_nothing_but_repairs() {
    let gates = HyperParameterGates {
        learning_rate: false,
        bias: false,
        momentum: false,
        upper_weight_limit: false,
        lower_weight_limit: false,
    };
    let parent = network(1, vec![layer(-ONE, ONE, units(5), units(1), 0)]);
    let mut child = network(2, vec![layer(units(-2), units(2), units(1), units(2), units(3))]);
    sa_hyper_parameters_from(&mut child, &parent, gates, &vec![up(units(3))]).unwrap();
    let made = &child.layers[0];
    assert_eq!(made.weight_range, WeightRange { low: units(-2), high: units(2) });
    assert_eq!(made.bias, units(1));
    assert_eq!(made.learning_rate, units(2));
    assert_eq!(made.momentum, units(3));
}

#[test]
fn annealing_uses_one_draw_per_layer() {
    let parent = network(1, vec![layer(-ONE, ONE, 0, ONE, ONE), layer(-ONE, ONE, 0, ONE, ONE)]);
    let mut child = parent.clone();
    sa_hyper_parameters_from(&mut child, &parent, all_open(), &vec![up(units(1)), down(units(2))]).unwrap();
    assert_eq!(child.layers[0].bias, units(1));
    assert_eq!(child.layers[1].bias, units(-2));
}

#[test]
fn annealing_fails_for_a_parent_with_fewer_layers() {
    let parent = network(1, vec![layer(-ONE, ONE, 0, ONE, ONE)]);
    let mut child = network(2, vec![layer(0, ONE, 5, 6, 7), layer(0, ONE, 5, 6, 7)]);
    let outcome = sa_hyper_parameters_from(&mut child, &parent, all_open(), &vec![up(1), up(1)]);
    assert_eq!(outcome, Err(NNetError::LayerCountMismatch));
    assert_eq!(child.layers[0].bias, 5);
}

#[test]
fn annealing_fails_for_too_few_draws() {
    let parent = network(1, vec![layer(-ONE, ONE, 0, ONE, ONE)]);
    let mut child = parent.clone();
    let outcome = sa_hyper_parameters_from(&mut child, &parent, all_open(), &vec![]);
    assert_eq!(outcome, Err(NNetError::LayerCountMismatch));
}

#[test]
fn annealing_is_a_function_of_its_draws() {
    let parent = network(1, vec![layer(-ONE, ONE, units(5), units(1), 0), layer(-ONE, ONE, 3, 4, 5)]);
    let draws = vec![down(123_456_789), up(987_654_321)];
    let mut first = network(2, vec![layer(0, 0, 0, 0, 0), layer(0, 0, 0, 0, 0)]);
    let mut second = network(2, vec![layer(0, 0, 0, 0, 0), layer(0, 0, 0, 0, 0)]);
    sa_hyper_parameters_from(&mut first, &parent, all_open(), &draws).unwrap();
    sa_hyper_parameters_from(&mut second, &parent, all_open(), &draws).unwrap();
    for j in 0..2 {
        assert_eq!(first.layers[j].learning_rate, second.layers[j].learning_rate);
        assert_eq!(first.layers[j].bias, second.layers[j].bias);
        assert_eq!(first.layers[j].momentum, second.layers[j].momentum);
        assert_eq!(first.layers[j].weight_range, second.layers[j].weight_range);
    }
}

#[test]
fn annealing_saturates_at_the_ends_of_the_range() {
    let parent = network(1, vec![layer(i64::MIN, i64::MAX, i64::MAX, i64::MAX, i64::MAX)]);
    let mut child = network(2, vec![layer(0, 0, 0, 0, 0)]);
    sa_hyper_parameters_from(&mut child, &parent, all_open(), &vec![up(units(3))]).unwrap();
    let made = &child.layers[0];
    assert_eq!(made.bias, i64::MAX);
    assert_eq!(made.learning_rate, i64::MAX);
    assert_eq!(made.weight_range.high, i64::MAX);
}

#[test]
fn crossing_blends_every_hyperparameter() {
    let parent1 = network(1, vec![layer(units(-10), units(10), units(2), units(2), units(4))]);
    let parent2 = network(2, vec![layer(units(-20), units(30), units(-6), units(4), units(8))]);
    let mut child = network(3, vec![layer(0, 0, 0, 0, 0)]);
    let outcome = ga_hyper_parameters_from(&mut child, &parent1, &parent2, all_open(), 750_000_000);
    assert_eq!(outcome, Ok(()));
    let made = &child.layers[0];
    assert_eq!(made.learning_rate, 250_000_000);
    assert_eq!(made.bias, 0);
    assert_eq!(made.momentum, 500_000_000);
    assert_eq!(made.weight_range.high, 1_500_000_000);
    assert_eq!(made.weight_range.low, -1_250_000_000);
}

#[test]
fn crossing_repairs_a_range_that_has_closed() {
    let gates = HyperParameterGates {
        learning_rate: false,
        bias: false,
        momentum: false,
        upper_weight_limit: false,
        lower_weight_limit: true,
    };
    let parent1 = network(1, vec![layer(units(4), units(10), 0, 0, 0)]);
    let parent2 = network(2, vec![layer(units(8), units(30), 0, 0, 0)]);
    let mut child = network(3, vec![layer(0, units(1), 0, 0, 0)]);
    ga_hyper_parameters_from(&mut child, &parent1, &parent2, gates, 500_000_000).unwrap();
    assert_eq!(child.layers[0].weight_range.low, units(6));
    assert_eq!(child.layers[0].weight_range.high, units(7));
}

#[test]
fn crossing_fails_for_a_parent_with_fewer_layers() {
    let parent1 = network(1, vec![layer(0, ONE, 0, 0, 0), layer(0, ONE, 0, 0, 0)]);
    let parent2 = network(2, vec![layer(0, ONE, 0, 0, 0)]);
    let mut child = parent1.clone();
    assert_eq!(
        ga_hyper_parameters_from(&mut child, &parent1, &parent2, all_open(), 550_000_000),
        Err(NNetError::LayerCountMismatch)
    );
    assert_eq!(
        ga_hyper_parameters_from(&mut child, &parent2, &parent1, all_open(), 550_000_000),
        Err(NNetError::LayerCountMismatch)
    );
}

#[test]
fn hyperparameter_operators_keep_the_range_open() {
    let parent1 = network(1, vec![layer(units(-3), units(3), 0, units(1), units(1))]);
    let parent2 = network(2, vec![layer(units(5), units(6), 0, units(2), units(2))]);
    for magnitude in 0..20 {
        for negative in [false, true] {
            let mut child = network(3, vec![layer(units(9), units(-9), 0, 0, 0)]);
            let draw = Mutation { magnitude: (magnitude * 50_000_000) as u64, negative };
            sa_hyper_parameters_from(&mut child, &parent1, all_open(), &vec![draw]).unwrap();
            assert!(child.layers[0].weight_range.low < child.layers[0].weight_range.high);
            assert!(child.layers[0].learning_rate >= 0);
            assert!(child.layers[0].momentum >= 0);
        }
    }
    for favoured in [550_000_000u64, 700_000_000, 950_000_000] {
        let mut child = network(3, vec![layer(units(9), units(-9), 0, 0, 0)]);
        ga_hyper_parameters_from(&mut child, &parent1, &parent2, all_open(), favoured).unwrap();
        assert!(child.layers[0].weight_range.low < child.layers[0].weight_range.high);
        assert!(child.layers[0].learning_rate >= 0);
        assert!(child.layers[0].momentum >= 0);
    }
}

#[test]
fn anneal_weights_moves_each_weight_by_its_draw() {
    let mut child = vec![vec![0, 0], vec![0]];
    let parent = vec![vec![10, 20, 99], vec![30], vec![40]];
    let draws = vec![vec![up(1), down(2)], vec![down(30)]];
    assert_eq!(anneal_weights_from(&mut child, &parent, &draws), Ok(()));
    assert_eq!(child, vec![vec![11, 18], vec![0]]);
}

#[test]
fn anneal_weights_saturates() {
    let mut child = vec![vec![0, 0]];
    let parent = vec![vec![i64::MAX, i64::MIN]];
    let draws = vec![vec![up(5), down(5)]];
    anneal_weights_from(&mut child, &parent, &draws).unwrap();
    assert_eq!(child, vec![vec![i64::MAX, i64::MIN]]);
}

#[test]
fn anneal_weights_fails_for_a_parent_that_is_too_small() {
    let mut child = vec![vec![1, 2], vec![3, 4]];
    let draws = vec![vec![up(1), up(1)], vec![up(1), up(1)]];
    assert_eq!(
        anneal_weights_from(&mut child, &vec![vec![1, 2]], &draws),
        Err(NNetError::WeightsInputLenMismatch)
    );
    assert_eq!(
        anneal_weights_from(&mut child, &vec![vec![1, 2], vec![3]], &draws),
        Err(NNetError::WeightsNodeCountMismatch)
    );
    assert_eq!(
        anneal_weights_from(&mut child, &vec![vec![1, 2], vec![3, 4]], &vec![vec![up(1), up(1)]]),
        Err(NNetError::WeightsInputLenMismatch)
    );
    assert_eq!(child, vec![vec![1, 2], vec![3, 4]]);
}

#[test]
fn blend_weights_blends_place_by_place() {
    let mut child = vec![vec![0, 0], vec![0, 0]];
    let parent1 = vec![vec![1000, 2000], vec![-1000, 0]];
    let parent2 = vec![vec![3000, 2000], vec![1000, 4000]];
    assert_eq!(blend_weights_from(&mut child, &parent1, &parent2, 750_000_000), Ok(()));
    assert_eq!(child, vec![vec![1500, 2000], vec![-500, 1000]]);
}

#[test]
fn blend_weights_fails_for_a_parent_that_is_too_small() {
    let mut child = vec![vec![0, 0]];
    assert_eq!(
        blend_weights_from(&mut child, &vec![], &vec![vec![1, 2]], 550_000_000),
        Err(NNetError::WeightsInputLenMismatch)
    );
    assert_eq!(
        blend_weights_from(&mut child, &vec![vec![1, 2]], &vec![vec![1]], 550_000_000),
        Err(NNetError::WeightsNodeCountMismatch)
    );
}

#[test]
fn swap_weights_takes_whole_rows() {
    let mut child = vec![vec![0, 0], vec![0, 0], vec![0, 0]];
    let parent1 = vec![vec![1, 2], vec![3, 4], vec![5, 6]];
    let parent2 = vec![vec![-1, -2], vec![-3, -4], vec![-5, -6]];
    let preferences = vec![100, 700_000_000, 699_999_999];
    assert_eq!(swap_weights_from(&mut child, &parent1, &parent2, 700_000_000, &preferences), Ok(()));
    assert_eq!(child, vec![vec![1, 2], vec![-3, -4], vec![5, 6]]);
}

#[test]
fn swap_weights_fails_for_too_few_preferences() {
    let mut child = vec![vec![0], vec![0]];
    let parent = vec![vec![1], vec![2]];
    assert_eq!(
        swap_weights_from(&mut child, &parent, &parent, 700_000_000, &vec![1]),
        Err(NNetError::WeightsInputLenMismatch)
    );
    assert_eq!(child, vec![vec![0], vec![0]]);
}

#[test]
fn matrix_fault_names_rows_before_columns() {
    assert_eq!(find_matrix_fault(&vec![vec![1], vec![2]], &vec![vec![1u8]]), Some(NNetError::WeightsInputLenMismatch));
    assert_eq!(find_matrix_fault(&vec![vec![1, 2]], &vec![vec![1u8]]), Some(NNetError::WeightsNodeCountMismatch));
    assert_eq!(find_matrix_fault(&vec![vec![1, 2]], &vec![vec![1u8, 2, 3], vec![]]), None);
    assert_eq!(find_matrix_fault(&vec![], &Vec::<Vec<u8>>::new()), None);
}

#[test]
fn weights_fault_reports_the_first_faulty_layer() {
    let child = network(1, vec![weighted(vec![vec![1, 2]]), weighted(vec![vec![1]])]);
    let short = network(2, vec![weighted(vec![vec![1, 2]])]);
    assert_eq!(
        find_weights_fault(&child, &short, NNetError::SaMissingWeights),
        Some(NNetError::LayerCountMismatch)
    );
    let bare = network(2, vec![weighted(vec![vec![1, 2]]), layer(0, ONE, 0, 0, 0)]);
    assert_eq!(
        find_weights_fault(&child, &bare, NNetError::SaMissingWeights),
        Some(NNetError::SaMissingWeights)
    );
    assert_eq!(
        find_weights_fault(&child, &bare, NNetError::GaMissingWeights),
        Some(NNetError::GaMissingWeights)
    );
    let narrow = network(2, vec![weighted(vec![vec![1]]), layer(0, ONE, 0, 0, 0)]);
    assert_eq!(
        find_weights_fault(&child, &narrow, NNetError::SaMissingWeights),
        Some(NNetError::WeightsNodeCountMismatch)
    );
    assert_eq!(find_weights_fault(&child, &child, NNetError::SaMissingWeights), None);
}

#[test]
fn breeder_anneals_hyperparameters_within_the_temperature() {
    let mut breeder = Breeder::new(990_000_000, 400_000_000);
    breeder.drop_temp();
    assert_eq!(breeder.current_annealing_temp(), MIN_ANNEALING_TEMP);
    let parent = network(1, vec![layer(-ONE, ONE, units(5), units(5), units(5)); 3]);
    for _ in 0..50 {
        let mut child = network(2, vec![layer(0, 0, 0, 0, 0); 3]);
        assert_eq!(breeder.child_w_sa_hyper_parameters(&mut child, &parent), Ok(()));
        for j in 0..3 {
            let moved = (child.layers[j].bias - units(5)).abs();
            assert!(moved < MIN_ANNEALING_TEMP as i64);
            assert_eq!((child.layers[j].learning_rate - units(5)).abs(), moved);
            assert_eq!((child.layers[j].momentum - units(5)).abs(), moved);
            assert_eq!((child.layers[j].weight_range.high - ONE).abs(), moved);
            assert_eq!((child.layers[j].weight_range.low + ONE).abs(), moved);
        }
    }
    assert_eq!(breeder.current_config_id(), 50);
}

#[test]
fn breeder_draws_both_directions() {
    let mut breeder = Breeder::new(1, 1);
    let parent = network(1, vec![layer(-5 * ONE, 5 * ONE, 0, 2 * ONE, 2 * ONE); 40]);
    let mut child = parent.clone();
    breeder.child_w_sa_hyper_parameters(&mut child, &parent).unwrap();
    let downs = child.layers.iter().filter(|made| made.bias < 0).count();
    let ups = child.layers.iter().filter(|made| made.bias > 0).count();
    assert!(downs > 0);
    assert!(ups > 0);
}

#[test]
fn breeder_crosses_hyperparameters_with_its_favourability() {
    let mut breeder = Breeder::new(1, 200_000_000);
    breeder.drop_p1_favourability();
    // favourability is 0.75 now
    let parent1 = network(1, vec![layer(units(-10), units(10), units(2), units(2), units(4))]);
    let parent2 = network(2, vec![layer(units(-20), units(30), units(-6), units(4), units(8))]);
    let mut child = network(3, vec![layer(0, 0, 0, 0, 0)]);
    assert_eq!(breeder.child_w_ga_hyper_params(&mut child, &parent1, &parent2), Ok(()));
    assert_eq!(child.layers[0].learning_rate, 250_000_000);
    assert_eq!(child.layers[0].momentum, 500_000_000);
    assert_eq!(breeder.current_config_id(), 1);
}

#[test]
fn breeder_anneals_weights_within_the_temperature() {
    let mut breeder = Breeder::new(990_000_000, 400_000_000);
    breeder.drop_temp();
    let parent = network(1, vec![weighted(vec![vec![ONE; 6]; 5]), weighted(vec![vec![-ONE; 5]; 2])]);
    let mut child = network(2, vec![weighted(vec![vec![0; 6]; 5]), weighted(vec![vec![0; 5]; 2])]);
    assert_eq!(breeder.child_w_sa_weights(&mut child, &parent), Ok(()));
    let mut moved_somewhere = false;
    for j in 0..2 {
        let rows = child.layers[j].layer_weights.as_ref().unwrap();
        let from = parent.layers[j].layer_weights.as_ref().unwrap();
        for k in 0..rows.len() {
            for l in 0..rows[k].len() {
                let moved = (rows[k][l] - from[k][l]).abs();
                assert!(moved < MIN_ANNEALING_TEMP as i64);
                moved_somewhere = moved_somewhere || moved != 0;
            }
        }
        assert_eq!(child.layers[j].weight_range, WeightRange { low: -ONE, high: ONE });
    }
    assert!(moved_somewhere);
    assert_eq!(breeder.current_config_id(), 1);
}

#[test]
fn breeder_reports_missing_weights() {
    let mut breeder = Breeder::new(1, 1);
    let bare = network(1, vec![layer(0, ONE, 0, 0, 0)]);
    let full = network(2, vec![weighted(vec![vec![1, 2]])]);
    let mut child = full.clone();
    assert_eq!(breeder.child_w_sa_weights(&mut child, &bare), Err(NNetError::SaMissingWeights));
    assert_eq!(breeder.child_w_ga_weights(&mut child, &full, &bare), Err(NNetError::GaMissingWeights));
    assert_eq!(breeder.child_w_ga_weights(&mut child, &bare, &full), Err(NNetError::GaMissingWeights));
    assert_eq!(breeder.child_w_ga_weights_swap(&mut child, &full, &bare), Err(NNetError::GaMissingWeights));
    let mut bare_child = bare.clone();
    assert_eq!(breeder.child_w_sa_weights(&mut bare_child, &full), Err(NNetError::SaMissingWeights));
    assert_eq!(breeder.current_config_id(), 0);
    assert_eq!(child.layers[0].layer_weights, Some(vec![vec![1, 2]]));
}

#[test]
fn breeder_blends_weights_with_its_favourability() {
    let mut breeder = Breeder::new(1, 200_000_000);
    breeder.drop_p1_favourability();
    let parent1 = network(1, vec![weighted(vec![vec![1000, 2000], vec![-1000, 0]])]);
    let parent2 = network(2, vec![weighted(vec![vec![3000, 2000], vec![1000, 4000]])]);
    let mut child = network(3, vec![weighted(vec![vec![0, 0], vec![0, 0]])]);
    assert_eq!(breeder.child_w_ga_weights(&mut child, &parent1, &parent2), Ok(()));
    assert_eq!(child.layers[0].layer_weights, Some(vec![vec![1500, 2000], vec![-500, 1000]]));
    assert_eq!(breeder.current_config_id(), 1);
}

#[test]
fn breeder_swaps_whole_rows() {
    let mut breeder = Breeder::new(1, 400_000_000);
    breeder.drop_p1_favourability();
    assert_eq!(breeder.current_p1_favourability(), 550_000_000);
    let parent1 = network(1, vec![weighted(vec![vec![1, 1, 1]; 60])]);
    let parent2 = network(2, vec![weighted(vec![vec![2, 2, 2]; 60])]);
    let mut child = network(3, vec![weighted(vec![vec![0, 0, 0]; 60])]);
    assert_eq!(breeder.child_w_ga_weights_swap(&mut child, &parent1, &parent2), Ok(()));
    let rows = child.layers[0].layer_weights.as_ref().unwrap();
    let mut from_first = 0;
    let mut from_second = 0;
    for row in rows {
        if *row == vec![1, 1, 1] {
            from_first += 1;
        } else {
            assert_eq!(*row, vec![2, 2, 2]);
            from_second += 1;
        }
    }
    assert!(from_first > 0);
    assert!(from_second > 0);
    assert_eq!(breeder.current_config_id(), 1);
}

#[test]
fn weight_operators_leave_the_ranges_alone() {
    let mut breeder = Breeder::new(1, 1);
    let parent = network(1, vec![weighted(vec![vec![5, 5]])]);
    let mut child = network(2, vec![weighted(vec![vec![0, 0]])]);
    child.layers[0].weight_range = WeightRange { low: -7, high: 9 };
    breeder.child_w_sa_weights(&mut child, &parent).unwrap();
    assert_eq!(child.layers[0].weight_range, WeightRange { low: -7, high: 9 });
    breeder.child_w_ga_weights(&mut child, &parent, &parent).unwrap();
    assert_eq!(child.layers[0].weight_range, WeightRange { low: -7, high: 9 });
    breeder.child_w_ga_weights_swap(&mut child, &parent, &parent).unwrap();
    assert_eq!(child.layers[0].weight_range, WeightRange { low: -7, high: 9 });
}

#[test]
fn ranges_are_repaired_where_they_have_closed() {
    let mut settings = network(
        1,
        vec![layer(-ONE, ONE, 1, 2, 3), layer(5, 5, 1, 2, 3), layer(9, -9, 1, 2, 3), layer(i64::MAX, 0, 1, 2, 3)],
    );
    repair_ranges(&mut settings);
    assert_eq!(settings.layers[0].weight_range, WeightRange { low: -ONE, high: ONE });
    assert_eq!(settings.layers[1].weight_range, WeightRange { low: 5, high: 100_000_005 });
    assert_eq!(settings.layers[2].weight_range, WeightRange { low: 9, high: 100_000_009 });
    assert_eq!(settings.layers[3].weight_range, WeightRange { low: i64::MAX, high: i64::MAX });
    assert_eq!((settings.layers[1].bias, settings.layers[1].learning_rate, settings.layers[1].momentum), (1, 2, 3));
}

#[test]
fn a_range_closed_just_below_the_top_is_opened() {
    let mut settings = network(1, vec![layer(i64::MAX - 1, 0, 1, 2, 3), layer(i64::MAX - 5, i64::MAX - 5, 1, 2, 3)]);
    repair_ranges(&mut settings);
    assert_eq!(settings.layers[0].weight_range, WeightRange { low: i64::MAX - 1, high: i64::MAX });
    assert_eq!(settings.layers[1].weight_range, WeightRange { low: i64::MAX - 5, high: i64::MAX });
    // with the gates of the limits closed an annealing repairs what it is given
    let parent = network(2, vec![layer(-ONE, ONE, 1, 2, 3)]);
    let mut child = network(3, vec![layer(i64::MAX - 1, -4, 1, 2, 3)]);
    let gates = HyperParameterGates { upper_weight_limit: false, lower_weight_limit: false, ..all_open() };
    sa_hyper_parameters_from(&mut child, &parent, gates, &vec![up(5)]).unwrap();
    assert!(child.layers[0].weight_range.low < child.layers[0].weight_range.high);
}

#[test]
fn weight_operators_keep_an_open_range_open() {
    let mut breeder = Breeder::new(1, 1);
    let parent = network(1, vec![weighted(vec![vec![5, 5]]), weighted(vec![vec![1], vec![2]])]);
    let mut child = network(2, vec![weighted(vec![vec![0, 0]]), weighted(vec![vec![3], vec![4]])]);
    child.layers[1].weight_range = WeightRange { low: i64::MAX - 1, high: i64::MAX };
    breeder.child_w_sa_weights(&mut child, &parent).unwrap();
    breeder.child_w_ga_weights(&mut child, &parent, &parent).unwrap();
    breeder.child_w_ga_weights_swap(&mut child, &parent, &parent).unwrap();
    for made in &child.layers {
        assert!(made.weight_range.low < made.weight_range.high);
    }
    assert_eq!(breeder.current_config_id(), 3);
}
