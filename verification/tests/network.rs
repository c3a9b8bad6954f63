use nnet_optimizer::classifier_parts::nnet_trainer::{accuracy, NNetTrainer};
use nnet_optimizer::data_and_config::neural_net_config_parts::{
    copy_matrix, copy_row, LayerSettings, NeuralNetSettings, WeightRange,
};
use nnet_optimizer::neural_network_parts::activator::{kind_for, ActivationKind, Activator, FN_COUNT};
use nnet_optimizer::neural_network_parts::layer::Layer;
use nnet_optimizer::neural_network_parts::make_new_nodes::{
    draw_weight, find_node_fault, find_rows_fault, make_new_nodes,
};
use nnet_optimizer::neural_network_parts::neural_network::NeuralNetwork;
use nnet_optimizer::neural_network_parts::nnet_errors::{
    failed_prediction, fn_name_not_found, layer_count_mismatch, set_act_fn_code_out_of_bounds,
    update_missing_weights, weights_input_len_mismatch, weights_node_count_mismatch, NNetError,
};

const ONE: i64 = 1_000_000_000;

fn layer(name: &str, units: usize, weights: Option<Vec<Vec<i64>>>) -> LayerSettings {
    LayerSettings {
        activation_function: name.to_string(),
        weight_range: WeightRange { low: -ONE, high: ONE },
        layer_weights: weights,
        output_units: units,
        bias: 5,
        learning_rate: 100_000_000,
        momentum: 7,
    }
}

fn settings(layers: Vec<LayerSettings>) -> NeuralNetSettings {
    NeuralNetSettings { query_id: 3, config_id: 9, accuracy: 0, input_size: 2, layers }
}

fn xor_settings() -> NeuralNetSettings {
    settings(vec![
        layer("sigmoid", 3, Some(vec![vec![1, 2], vec![3, 4], vec![5, 6]])),
        layer("sigmoid", 2, Some(vec![vec![7, 8, 9], vec![10, 11, 12]])),
    ])
}

#[test]
fn registry_knows_its_twelve_names() {
    let activator = Activator::new();
    let names = [
        "default",
        "sigmoid",
        "binary_step",
        "tanh",
        "sqnl",
        "arctan",
        "lrelu",
        "elu",
        "selu",
        "gelu",
        "softplus",
        "swish",
    ];
    assert_eq!(FN_COUNT, 12);
    for (code, name) in names.iter().enumerate() {
        assert_eq!(activator.get_fn_code_by_name(&name.to_string()), Ok(code));
    }
}

#[test]
fn registry_rejects_unknown_names() {
    let activator = Activator::new();
    assert_eq!(activator.get_fn_code_by_name(&"relu".to_string()), Err(NNetError::FnNameNotFound));
    assert_eq!(activator.get_fn_code_by_name(&"".to_string()), Err(NNetError::FnNameNotFound));
    assert_eq!(activator.get_fn_code_by_name(&"Sigmoid".to_string()), Err(NNetError::FnNameNotFound));
}

#[test]
fn registry_sets_codes_within_the_list_only() {
    let mut activator = Activator::new();
    assert_eq!(activator.get_fn_code(), 0);
    assert_eq!(activator.kind(), ActivationKind::Default);
    assert_eq!(activator.set_fn_code(11), Ok(()));
    assert_eq!(activator.get_fn_code(), 11);
    assert_eq!(activator.kind(), ActivationKind::Swish);
    assert_eq!(activator.set_fn_code(12), Err(NNetError::FnCodeOutOfBounds));
    assert_eq!(activator.get_fn_code(), 11);
    assert_eq!(activator.set_fn_code(usize::MAX), Err(NNetError::FnCodeOutOfBounds));
    assert_eq!(activator.set_fn_code(3), Ok(()));
    assert_eq!(activator.kind(), ActivationKind::Tanh);
}

#[test]
fn codes_address_kinds_in_order() {
    let kinds = [
        ActivationKind::Default,
        ActivationKind::Sigmoid,
        ActivationKind::BinaryStep,
        ActivationKind::Tanh,
        ActivationKind::Sqnl,
        ActivationKind::Arctan,
        ActivationKind::Lrelu,
        ActivationKind::Elu,
        ActivationKind::Selu,
        ActivationKind::Gelu,
        ActivationKind::Softplus,
        ActivationKind::Swish,
    ];
    for (code, kind) in kinds.iter().enumerate() {
        assert_eq!(kind_for(code), *kind);
    }
}

#[test]
fn messages_read_as_documented() {
    assert_eq!(
        weights_input_len_mismatch(),
        "Length of weight vector for for hidden unit does not match length of inputs for layer!"
    );
    assert_eq!(
        weights_node_count_mismatch(),
        "Number of weight vectors does not match number of hidden units in layer!"
    );
    assert_eq!(failed_prediction(), "Neural network failed to find correct prediction!");
    assert_eq!(
        set_act_fn_code_out_of_bounds(),
        "\n\nActivator panicked!\n\nAttempt to set activation function code outside listing of activation functions."
    );
    assert_eq!(
        fn_name_not_found(),
        "\n\nActivator panicked!\n\nActivation function not found in list of functions."
    );
    assert_eq!(update_missing_weights(), "attempting to update state, found no weight vectors");
    assert_eq!(layer_count_mismatch(), "Updating settings does not match number of layers");
}

#[test]
fn every_error_has_its_message() {
    assert_eq!(NNetError::FnNameNotFound.message(), fn_name_not_found());
    assert_eq!(NNetError::FnCodeOutOfBounds.message(), set_act_fn_code_out_of_bounds());
    assert_eq!(NNetError::UpdateMissingWeights.message(), update_missing_weights());
    assert_eq!(NNetError::LayerCountMismatch.message(), layer_count_mismatch());
    assert_eq!(NNetError::WeightsInputLenMismatch.message(), weights_input_len_mismatch());
    assert_eq!(NNetError::WeightsNodeCountMismatch.message(), weights_node_count_mismatch());
    assert_eq!(NNetError::FailedPrediction.message(), failed_prediction());
    assert_eq!(NNetError::SaMissingWeights.message(), "Breeder failed: a layer has no weights to anneal.");
    assert_eq!(NNetError::GaMissingWeights.message(), "Breeder failed: a layer has no weights to cross over.");
    assert_eq!(
        NNetError::NoRecycledSettings.message(),
        "Optimize_nnet_settings failed in function get_child_settings"
    );
    assert_eq!(NNetError::NoRecycledTrainer.message(), "No recycled trainer found");
}

#[test]
fn prediction_is_the_first_greatest_output() {
    let made = Layer::new(&layer("sigmoid", 4, None), 0, 1, 0);
    assert_eq!(made.get_prediction(&vec![1, 9, 3, 9]), Ok(1));
    assert_eq!(made.get_prediction(&vec![5, 5, 5, 5]), Ok(0));
    assert_eq!(made.get_prediction(&vec![-4, 0, 2, 1]), Ok(2));
    assert_eq!(made.get_prediction(&vec![0, 0, 0, 1]), Ok(3));
}

#[test]
fn prediction_fails_without_a_positive_output() {
    let made = Layer::new(&layer("sigmoid", 3, None), 0, 1, 0);
    assert_eq!(made.get_prediction(&vec![0, 0, 0]), Err(NNetError::FailedPrediction));
    assert_eq!(made.get_prediction(&vec![-1, -2, -3]), Err(NNetError::FailedPrediction));
    assert_eq!(made.get_prediction(&vec![]), Err(NNetError::FailedPrediction));
}

#[test]
fn layer_covers_its_units() {
    let made = Layer::new(&layer("tanh", 4, None), 3, 3, 5);
    assert_eq!(made.nodes_start_index, 5);
    assert_eq!(made.nodes_stop_index, 9);
    assert_eq!(made.prev_layer_first_node_idx, 2);
    assert_eq!(made.activation_function_code, 3);
    assert_eq!(made.learning_rate, 100_000_000);
    assert_eq!(made.momentum, 7);
    assert_eq!(made.bias, 5);
    assert_eq!(made.low, -ONE);
    assert_eq!(made.high, ONE);
}

#[test]
fn layer_update_keeps_its_units() {
    let mut made = Layer::new(&layer("tanh", 4, None), 3, 3, 5);
    let mut other = layer("sigmoid", 9, None);
    other.bias = 77;
    other.learning_rate = 78;
    other.momentum = 79;
    other.weight_range = WeightRange { low: 1, high: 2 };
    made.update_state(&other, 1);
    assert_eq!(made.nodes_start_index, 5);
    assert_eq!(made.nodes_stop_index, 9);
    assert_eq!(made.prev_layer_first_node_idx, 2);
    assert_eq!(made.activation_function_code, 1);
    assert_eq!((made.bias, made.learning_rate, made.momentum, made.low, made.high), (77, 78, 79, 1, 2));
}

#[test]
fn network_lays_its_layers_out_in_a_row() {
    let network = NeuralNetwork::new(&xor_settings()).unwrap();
    let layers = network.layers();
    assert_eq!(layers.len(), 2);
    assert_eq!((layers[0].nodes_start_index, layers[0].nodes_stop_index), (0, 3));
    assert_eq!(layers[0].prev_layer_first_node_idx, 0);
    assert_eq!((layers[1].nodes_start_index, layers[1].nodes_stop_index), (3, 5));
    assert_eq!(layers[1].prev_layer_first_node_idx, 0);
    assert_eq!(layers[0].activation_function_code, 1);
    assert_eq!(
        *network.nodes(),
        vec![vec![1, 2], vec![3, 4], vec![5, 6], vec![7, 8, 9], vec![10, 11, 12]]
    );
    assert_eq!(network.get_id(), 9);
    assert_eq!(network.input_size(), 2);
    assert_eq!(network.output_size(), 2);
}

#[test]
fn network_of_three_layers_reads_from_the_layer_before() {
    let network = NeuralNetwork::new(&settings(vec![
        layer("tanh", 4, None),
        layer("sigmoid", 3, None),
        layer("swish", 5, None),
    ]))
    .unwrap();
    let layers = network.layers();
    assert_eq!((layers[1].prev_layer_first_node_idx, layers[1].nodes_start_index), (0, 4));
    assert_eq!((layers[2].prev_layer_first_node_idx, layers[2].nodes_start_index), (4, 7));
    assert_eq!(layers[2].nodes_stop_index, 12);
    assert_eq!(layers[2].activation_function_code, 11);
    assert_eq!(network.output_size(), 5);
    let nodes = network.nodes();
    assert_eq!(nodes.len(), 12);
    for n in 0..4 {
        assert_eq!(nodes[n].len(), 2);
    }
    for n in 4..7 {
        assert_eq!(nodes[n].len(), 4);
    }
    for n in 7..12 {
        assert_eq!(nodes[n].len(), 3);
    }
}

#[test]
fn network_without_weights_draws_them_within_the_range() {
    let network = NeuralNetwork::new(&settings(vec![layer("sigmoid", 6, None)])).unwrap();
    let mut distinct = std::collections::BTreeSet::new();
    for row in network.nodes() {
        assert_eq!(row.len(), 2);
        assert!(-ONE <= row[0] && row[0] < ONE);
        assert_eq!(row[0], row[1]);
        distinct.insert(row[0]);
    }
    assert!(distinct.len() > 1);
}

#[test]
fn network_without_layers_is_empty() {
    let network = NeuralNetwork::new(&settings(vec![])).unwrap();
    assert_eq!(network.layers().len(), 0);
    assert_eq!(network.nodes().len(), 0);
    assert_eq!(network.output_size(), 0);
}

#[test]
fn network_rejects_an_unknown_activation() {
    let outcome = NeuralNetwork::new(&settings(vec![layer("sigmoid", 1, None), layer("relu", 1, None)]));
    assert_eq!(outcome.err(), Some(NNetError::FnNameNotFound));
}

#[test]
fn network_rejects_a_matrix_that_does_not_fit() {
    let rows = NeuralNetwork::new(&settings(vec![layer("sigmoid", 3, Some(vec![vec![1, 2], vec![3, 4]]))]));
    assert_eq!(rows.err(), Some(NNetError::WeightsInputLenMismatch));
    let columns = NeuralNetwork::new(&settings(vec![layer("sigmoid", 2, Some(vec![vec![1, 2], vec![3]]))]));
    assert_eq!(columns.err(), Some(NNetError::WeightsNodeCountMismatch));
    let second = NeuralNetwork::new(&settings(vec![
        layer("sigmoid", 3, None),
        layer("sigmoid", 1, Some(vec![vec![1, 2]])),
    ]));
    assert_eq!(second.err(), Some(NNetError::WeightsNodeCountMismatch));
}

#[test]
fn network_reports_the_first_fault() {
    let outcome = NeuralNetwork::new(&settings(vec![
        layer("sigmoid", 2, Some(vec![vec![1, 2]])),
        layer("nothing", 1, None),
    ]));
    assert_eq!(outcome.err(), Some(NNetError::WeightsInputLenMismatch));
    let named = NeuralNetwork::new(&settings(vec![
        layer("nothing", 2, Some(vec![vec![1, 2]])),
        layer("sigmoid", 1, None),
    ]));
    assert_eq!(named.err(), Some(NNetError::FnNameNotFound));
}

#[test]
fn network_takes_its_state_from_other_settings() {
    let mut network = NeuralNetwork::new(&xor_settings()).unwrap();
    let mut other = settings(vec![
        layer("tanh", 3, Some(vec![vec![-1, -2], vec![-3, -4], vec![-5, -6]])),
        layer("arctan", 2, Some(vec![vec![-7, -8, -9], vec![0, 0, 0]])),
    ]);
    other.config_id = 44;
    other.query_id = 45;
    other.layers[1].bias = 99;
    assert_eq!(network.update_state(&other), Ok(()));
    assert_eq!(network.get_id(), 44);
    assert_eq!(network.get_settings().query_id, 45);
    let layers = network.layers();
    assert_eq!(layers[0].activation_function_code, 3);
    assert_eq!(layers[1].activation_function_code, 5);
    assert_eq!(layers[1].bias, 99);
    assert_eq!((layers[1].nodes_start_index, layers[1].nodes_stop_index), (3, 5));
    assert_eq!(
        *network.nodes(),
        vec![vec![-1, -2], vec![-3, -4], vec![-5, -6], vec![-7, -8, -9], vec![0, 0, 0]]
    );
}

#[test]
fn network_update_fails_and_changes_nothing() {
    let mut network = NeuralNetwork::new(&xor_settings()).unwrap();
    let mut fewer = xor_settings();
    fewer.config_id = 100;
    fewer.layers.pop();
    assert_eq!(network.update_state(&fewer), Err(NNetError::LayerCountMismatch));
    let mut bare = xor_settings();
    bare.config_id = 100;
    bare.layers[1].layer_weights = None;
    assert_eq!(network.update_state(&bare), Err(NNetError::UpdateMissingWeights));
    let mut unnamed = xor_settings();
    unnamed.layers[0].activation_function = "other".to_string();
    assert_eq!(network.update_state(&unnamed), Err(NNetError::FnNameNotFound));
    let mut short = xor_settings();
    short.layers[0].layer_weights = Some(vec![vec![1, 2], vec![3, 4]]);
    assert_eq!(network.update_state(&short), Err(NNetError::WeightsInputLenMismatch));
    let mut narrow = xor_settings();
    narrow.layers[1].layer_weights = Some(vec![vec![1, 2, 3], vec![3, 4]]);
    assert_eq!(network.update_state(&narrow), Err(NNetError::WeightsNodeCountMismatch));
    assert_eq!(network.get_id(), 9);
    assert_eq!(
        *network.nodes(),
        vec![vec![1, 2], vec![3, 4], vec![5, 6], vec![7, 8, 9], vec![10, 11, 12]]
    );
}

#[test]
fn network_settings_carry_the_identity_only() {
    let network = NeuralNetwork::new(&xor_settings()).unwrap();
    let got = network.get_settings();
    assert_eq!((got.query_id, got.config_id, got.input_size, got.accuracy), (3, 9, 2, 0));
    assert!(got.layers.is_empty());
}

#[test]
fn new_nodes_copy_the_rows_of_the_matrix() {
    let mut nodes = vec![vec![0]];
    let made = layer("sigmoid", 2, Some(vec![vec![1, 2, 3], vec![4, 5, 6]]));
    assert_eq!(make_new_nodes(&made, &mut nodes, 3), Ok(()));
    assert_eq!(nodes, vec![vec![0], vec![1, 2, 3], vec![4, 5, 6]]);
}

#[test]
fn new_nodes_fail_and_append_nothing() {
    let mut nodes = vec![vec![0]];
    let made = layer("sigmoid", 2, Some(vec![vec![1, 2, 3], vec![4, 5, 6]]));
    assert_eq!(make_new_nodes(&made, &mut nodes, 2), Err(NNetError::WeightsNodeCountMismatch));
    let other = layer("sigmoid", 3, Some(vec![vec![1, 2, 3], vec![4, 5, 6]]));
    assert_eq!(make_new_nodes(&other, &mut nodes, 3), Err(NNetError::WeightsInputLenMismatch));
    assert_eq!(nodes, vec![vec![0]]);
    assert_eq!(find_node_fault(&made, 3), None);
    assert_eq!(find_node_fault(&layer("sigmoid", 5, None), 3), None);
    assert_eq!(find_rows_fault(&vec![vec![1], vec![2]], 2, 1), None);
    assert_eq!(find_rows_fault(&vec![vec![1], vec![2]], 1, 1), Some(NNetError::WeightsInputLenMismatch));
    assert_eq!(find_rows_fault(&vec![vec![1], vec![]], 2, 1), Some(NNetError::WeightsNodeCountMismatch));
}

#[test]
fn new_nodes_without_a_matrix_repeat_one_weight_per_unit() {
    let mut nodes = Vec::new();
    let mut made = layer("sigmoid", 30, None);
    made.weight_range = WeightRange { low: 10, high: 20 };
    assert_eq!(make_new_nodes(&made, &mut nodes, 4), Ok(()));
    assert_eq!(nodes.len(), 30);
    let mut distinct = std::collections::BTreeSet::new();
    for row in &nodes {
        assert_eq!(row.len(), 4);
        assert!(10 <= row[0] && row[0] < 20);
        assert!(row.iter().all(|weight| *weight == row[0]));
        distinct.insert(row[0]);
    }
    assert!(distinct.len() > 1);
}

#[test]
fn drawn_weights_lie_within_the_range() {
    for _ in 0..200 {
        let weight = draw_weight(WeightRange { low: -3, high: 4 });
        assert!(-3 <= weight && weight < 4);
    }
    assert_eq!(draw_weight(WeightRange { low: 6, high: 7 }), 6);
}

#[test]
fn drawn_weights_for_a_closed_range_lie_within_a_tenth_above() {
    for _ in 0..200 {
        let weight = draw_weight(WeightRange { low: 50, high: 50 });
        assert!(50 <= weight && weight < 50 + 100_000_000);
        let other = draw_weight(WeightRange { low: 50, high: -50 });
        assert!(50 <= other && other < 50 + 100_000_000);
    }
    assert_eq!(draw_weight(WeightRange { low: i64::MAX, high: 0 }), i64::MAX);
}

#[test]
fn drawn_weights_span_the_widest_range() {
    for _ in 0..20 {
        let weight = draw_weight(WeightRange { low: i64::MIN, high: i64::MAX });
        assert!(weight < i64::MAX);
    }
}

#[test]
fn copies_equal_what_they_copy() {
    assert_eq!(copy_row(&vec![1, 2, 3]), vec![1, 2, 3]);
    assert_eq!(copy_matrix(&vec![vec![1], vec![], vec![2, 3]]), vec![vec![1], vec![], vec![2, 3]]);
    let source = xor_settings();
    let copy = source.clone();
    assert_eq!(copy.config_id, 9);
    assert_eq!(copy.layers.len(), 2);
    assert_eq!(copy.layers[1].layer_weights, source.layers[1].layer_weights);
    assert_eq!(copy.layers[0].activation_function, "sigmoid");
}

#[test]
fn accuracy_is_a_percentage() {
    assert_eq!(accuracy(3, 4), 75_000_000_000);
    assert_eq!(accuracy(4, 4), 100_000_000_000);
    assert_eq!(accuracy(0, 4), 0);
    assert_eq!(accuracy(1, 3), 33_333_333_333);
    assert_eq!(accuracy(2, 3), 66_666_666_666);
    assert_eq!(accuracy(5, 0), 0);
    assert_eq!(accuracy(usize::MAX, 1), u64::MAX);
}

#[test]
fn trainer_trains_on_the_rows_before_the_boundary() {
    let mut trainer = NNetTrainer::new(&xor_settings(), 3, 500).unwrap();
    assert_eq!(trainer.rounds(), 500);
    assert_eq!(trainer.get_train_test_boundary(), 3);
    assert_eq!(trainer.get_trainee_id(), 9);
    assert!(!trainer.has_next_row());
    assert_eq!(trainer.train(4), 3);
    for _ in 0..5 {
        trainer.begin_round();
        let mut seen = Vec::new();
        while trainer.has_next_row() {
            seen.push(trainer.next_row());
        }
        seen.sort();
        assert_eq!(seen, vec![0, 1, 2]);
    }
}

#[test]
fn trainer_trains_on_every_row_when_the_boundary_lies_beyond() {
    let mut trainer = NNetTrainer::new(&xor_settings(), 75, 1).unwrap();
    assert_eq!(trainer.train(4), 4);
    trainer.begin_round();
    let mut count = 0;
    while trainer.has_next_row() {
        assert!(trainer.next_row() < 4);
        count += 1;
    }
    assert_eq!(count, 4);
}

#[test]
fn trainer_without_training_rows_has_no_round() {
    let mut trainer = NNetTrainer::new(&xor_settings(), 0, 1).unwrap();
    assert_eq!(trainer.train(4), 0);
    trainer.begin_round();
    assert!(!trainer.has_next_row());
    let mut empty = NNetTrainer::new(&xor_settings(), 3, 1).unwrap();
    assert_eq!(empty.train(0), 0);
    empty.begin_round();
    assert!(!empty.has_next_row());
}

#[test]
fn trainer_tests_on_the_rows_from_the_boundary() {
    let mut trainer = NNetTrainer::new(&xor_settings(), 1, 1).unwrap();
    assert_eq!(trainer.test(5), 1);
    trainer.record(0, 0);
    trainer.record(1, 0);
    trainer.record(1, 1);
    trainer.record(0, 0);
    assert_eq!(trainer.get_test_result(), 75_000_000_000);
    assert_eq!(trainer.get_train_test_boundary(), 1);
}

#[test]
fn trainer_tests_on_every_row_when_the_boundary_lies_beyond() {
    let mut trainer = NNetTrainer::new(&xor_settings(), 9, 1).unwrap();
    assert_eq!(trainer.test(4), 0);
    assert_eq!(trainer.get_train_test_boundary(), 0);
    trainer.record(1, 1);
    assert_eq!(trainer.get_test_result(), 25_000_000_000);
    assert_eq!(trainer.test(4), 0);
    assert_eq!(trainer.get_test_result(), 0);
}

#[test]
fn trainer_with_nothing_to_test_reports_zero() {
    let mut trainer = NNetTrainer::new(&xor_settings(), 4, 1).unwrap();
    assert_eq!(trainer.get_test_result(), 0);
    assert_eq!(trainer.test(4), 4);
    assert_eq!(trainer.get_test_result(), 0);
}

#[test]
fn trainer_is_bound_to_other_settings() {
    let mut trainer = NNetTrainer::new(&xor_settings(), 3, 1).unwrap();
    let mut other = xor_settings();
    other.config_id = 21;
    other.layers[0].layer_weights = Some(vec![vec![0, 0], vec![0, 0], vec![0, 1]]);
    assert_eq!(trainer.update_trainee(&other, 2), Ok(()));
    assert_eq!(trainer.get_trainee_id(), 21);
    assert_eq!(trainer.get_train_test_boundary(), 2);
    assert_eq!(trainer.trainee().nodes()[2], vec![0, 1]);
    other.layers.pop();
    other.config_id = 22;
    assert_eq!(trainer.update_trainee(&other, 1), Err(NNetError::LayerCountMismatch));
    assert_eq!(trainer.get_trainee_id(), 21);
    assert_eq!(trainer.get_train_test_boundary(), 2);
}

#[test]
fn trainer_is_not_made_for_settings_that_do_not_build() {
    let outcome = NNetTrainer::new(&settings(vec![layer("unknown", 1, None)]), 1, 1);
    assert_eq!(outcome.err(), Some(NNetError::FnNameNotFound));
}

#[test]
fn network_predicts_the_first_greatest_output() {
    let network = NeuralNetwork::new(&xor_settings()).unwrap();
    assert_eq!(network.predict(&vec![3, 8]), Ok(1));
    assert_eq!(network.predict(&vec![8, 8]), Ok(0));
    assert_eq!(network.predict(&vec![0, 0]), Err(NNetError::FailedPrediction));
    assert_eq!(network.predict(&vec![-1, 0]), Err(NNetError::FailedPrediction));
    let empty = NeuralNetwork::new(&settings(vec![])).unwrap();
    assert_eq!(empty.predict(&vec![5]), Err(NNetError::FailedPrediction));
}

#[test]
fn trainer_records_no_more_rows_than_it_tests() {
    let mut trainer = NNetTrainer::new(&xor_settings(), 2, 1).unwrap();
    assert!(!trainer.awaits_record());
    assert_eq!(trainer.test(4), 2);
    assert!(trainer.awaits_record());
    trainer.record(1, 1);
    assert!(trainer.awaits_record());
    trainer.record(1, 1);
    assert!(!trainer.awaits_record());
    assert_eq!(trainer.get_test_result(), 100_000_000_000);
    // the share is of the rows of the last test, whatever is planned afterwards
    assert_eq!(trainer.train(10), 2);
    assert_eq!(trainer.get_test_result(), 100_000_000_000);
    assert_eq!(trainer.test(4), 2);
    assert_eq!(trainer.get_test_result(), 0);
}

#[test]
fn a_test_on_the_same_rows_gives_the_same_share() {
    let mut trainer = NNetTrainer::new(&xor_settings(), 1, 1).unwrap();
    let predictions = vec![9, 1, 0, 1, 1];
    let labels = vec![0, 1, 1, 1, 0];
    let first = trainer.test_with(&predictions, &labels);
    // the rows 1, 2, 3 and 4 are tested, two of them rightly
    assert_eq!(first, 50_000_000_000);
    assert_eq!(trainer.get_test_result(), first);
    let nodes = trainer.trainee().nodes().clone();
    let second = trainer.test_with(&predictions, &labels);
    assert_eq!(second, first);
    assert_eq!(*trainer.trainee().nodes(), nodes);
    assert!(!trainer.awaits_record());
}

#[test]
fn a_test_beyond_the_boundary_goes_over_every_row() {
    let mut trainer = NNetTrainer::new(&xor_settings(), 9, 1).unwrap();
    assert_eq!(trainer.first_test_row(4), 0);
    assert_eq!(trainer.first_test_row(9), 9);
    assert_eq!(trainer.test_with(&vec![1, 1, 1, 0], &vec![1, 1, 1, 1]), 75_000_000_000);
    assert_eq!(trainer.get_train_test_boundary(), 0);
    assert_eq!(trainer.test_with(&vec![], &vec![]), 0);
}
