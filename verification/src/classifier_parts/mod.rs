pub mod operators;
pub mod breeder;
pub mod classifier_errors;
pub mod identity;
pub mod index_manager;
pub mod lineage;
pub mod nnet_trainer;
pub mod optimize_nnet;
pub mod progress;
pub mod random_source;
pub mod reseed;
pub mod schedule;
pub mod selection;
pub mod shape;
pub mod workload;
