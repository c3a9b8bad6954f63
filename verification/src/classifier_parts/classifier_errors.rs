//! The messages of the breeding operators.

use vstd::prelude::*;

verus! {

/// The message for a crossover on weights that met a layer without a matrix.
pub fn ga_missing_weights_error() -> (message: String)
    ensures
        message@ == "Breeder failed: a layer has no weights to cross over."@,
{
    "Breeder failed: a layer has no weights to cross over.".to_string()
}

/// The message for an annealing of weights that met a layer without a matrix.
pub fn sa_missing_weights_error() -> (message: String)
    ensures
        message@ == "Breeder failed: a layer has no weights to anneal."@,
{
    "Breeder failed: a layer has no weights to anneal.".to_string()
}

} // verus!
