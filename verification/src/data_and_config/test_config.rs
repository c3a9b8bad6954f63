//! The description of a batch of trial runs.

use vstd::prelude::*;

verus! {

/// A batch of trial runs against one kind of object.
pub struct TestConfig {
    pub settings_path: String,
    pub data_path: String,
    pub target_object: String,
    pub tests: Vec<Test>,
}

/// One trial run: which configuration and dataset to load, for how many rounds
/// to train, and where the training rows end.
pub struct Test {
    pub settings: String,
    pub bulk_settings: Vec<String>,
    pub data: String,
    pub rounds: usize,
    pub training_cutoff_index: usize,
}

/// The kinds of object that trial runs can be run against.
#[derive(Clone, Copy, Debug, PartialEq, Eq, Structural)]
pub enum TargetObject {
    NeuralNetwork,
    NNetTrainer,
    Breeder,
    Classifier,
    Optimizer,
    /// The description names no kind that is known; nothing is run.
    Unknown,
}

/// The kind of object that a name stands for.
pub open spec fn target_of(name: Seq<char>) -> TargetObject {
    if name == "NeuralNetwork"@ {
        TargetObject::NeuralNetwork
    } else if name == "NNetTrainer"@ {
        TargetObject::NNetTrainer
    } else if name == "Breeder"@ {
        TargetObject::Breeder
    } else if name == "Classifier"@ {
        TargetObject::Classifier
    } else if name == "Optimizer"@ {
        TargetObject::Optimizer
    } else {
        TargetObject::Unknown
    }
}

/// Finds the kind of object that the trial runs of a description are to be
/// run against.
pub fn run_test(test_run: &TestConfig) -> (target: TargetObject)
    ensures
        target == target_of(test_run.target_object@),
{
    if test_run.target_object == "NeuralNetwork".to_string() {
        TargetObject::NeuralNetwork
    } else if test_run.target_object == "NNetTrainer".to_string() {
        TargetObject::NNetTrainer
    } else if test_run.target_object == "Breeder".to_string() {
        TargetObject::Breeder
    } else if test_run.target_object == "Classifier".to_string() {
        TargetObject::Classifier
    } else if test_run.target_object == "Optimizer".to_string() {
        TargetObject::Optimizer
    } else {
        TargetObject::Unknown
    }
}

} // verus!
