//! The registry of activation functions: a closed list of names, each
//! addressed by its position.

use vstd::prelude::*;
use crate::neural_network_parts::nnet_errors::NNetError;

verus! {

/// How many activation functions there are.
pub const FN_COUNT: usize = 12;

/// The activation functions, in the order of their codes.
#[derive(Clone, Copy, Debug, PartialEq, Eq, Structural)]
pub enum ActivationKind {
    /// The identity.
    Default,
    /// The logistic function.
    Sigmoid,
    /// The bipolar step.
    BinaryStep,
    /// The hyperbolic tangent.
    Tanh,
    /// The square nonlinearity, which saturates at -1 and 1.
    Sqnl,
    /// The arctangent.
    Arctan,
    /// The leaky rectifier.
    Lrelu,
    /// The exponential linear unit.
    Elu,
    /// The scaled exponential linear unit.
    Selu,
    /// The Gaussian error linear unit.
    Gelu,
    /// The softplus.
    Softplus,
    /// The linear unit gated by a sigmoid.
    Swish,
}

/// The names of the activation functions, in the order of their codes.
pub open spec fn fn_names() -> Seq<Seq<char>> {
    seq![
        "default"@,
        "sigmoid"@,
        "binary_step"@,
        "tanh"@,
        "sqnl"@,
        "arctan"@,
        "lrelu"@,
        "elu"@,
        "selu"@,
        "gelu"@,
        "softplus"@,
        "swish"@,
    ]
}

/// The activation function that a code addresses.
pub open spec fn kind_of(code: int) -> ActivationKind {
    if code == 0 {
        ActivationKind::Default
    } else if code == 1 {
        ActivationKind::Sigmoid
    } else if code == 2 {
        ActivationKind::BinaryStep
    } else if code == 3 {
        ActivationKind::Tanh
    } else if code == 4 {
        ActivationKind::Sqnl
    } else if code == 5 {
        ActivationKind::Arctan
    } else if code == 6 {
        ActivationKind::Lrelu
    } else if code == 7 {
        ActivationKind::Elu
    } else if code == 8 {
        ActivationKind::Selu
    } else if code == 9 {
        ActivationKind::Gelu
    } else if code == 10 {
        ActivationKind::Softplus
    } else {
        ActivationKind::Swish
    }
}

/// The first position of `names` at or after `from` that holds `name`.
pub open spec fn position_of(names: Seq<Seq<char>>, name: Seq<char>, from: int) -> Option<int>
    decreases names.len() - from,
{
    if from < 0 || from >= names.len() {
        None
    } else if names[from] == name {
        Some(from)
    } else {
        position_of(names, name, from + 1)
    }
}

/// The code of the activation function called `name`, if there is one.
pub open spec fn code_of(name: Seq<char>) -> Option<int> {
    position_of(fn_names(), name, 0)
}

/// The names held by a table of strings.
pub open spec fn names_view(names: Vec<String>) -> Seq<Seq<char>> {
    Seq::new(names@.len(), |i: int| names@[i]@)
}

/// A code that `position_of` finds addresses a name of the list.
pub proof fn lemma_position_in_range(names: Seq<Seq<char>>, name: Seq<char>, from: int)
    requires
        0 <= from,
    ensures
        position_of(names, name, from) matches Some(code) ==> from <= code < names.len() && names[code]
            == name,
    decreases names.len() - from,
{
    if from < names.len() && names[from] != name {
        lemma_position_in_range(names, name, from + 1);
    }
}

/// The dispatcher of a network: the list of names and the code in force.
pub struct Activator {
    fn_names: Vec<String>,
    activation_fn_code: usize,
}

impl Activator {
    /// The table holds the names of the registry, and the code in force
    /// addresses one of them.
    pub closed spec fn wf(&self) -> bool {
        &&& names_view(self.fn_names) == fn_names()
        &&& self.activation_fn_code < FN_COUNT
    }

    /// The code in force.
    pub closed spec fn fn_code(&self) -> usize {
        self.activation_fn_code
    }

    /// A dispatcher with the identity in force.
    pub fn new() -> (activator: Activator)
        ensures
            activator.wf(),
            activator.fn_code() == 0,
    {
        let mut table: Vec<String> = Vec::new();
        table.push("default".to_string());
        table.push("sigmoid".to_string());
        table.push("binary_step".to_string());
        table.push("tanh".to_string());
        table.push("sqnl".to_string());
        table.push("arctan".to_string());
        table.push("lrelu".to_string());
        table.push("elu".to_string());
        table.push("selu".to_string());
        table.push("gelu".to_string());
        table.push("softplus".to_string());
        table.push("swish".to_string());
        assert(names_view(table) =~= fn_names());
        Activator { fn_names: table, activation_fn_code: 0 }
    }

    /// Puts the function with the given code in force. Fails, and changes
    /// nothing, where the code addresses no function.
    pub fn set_fn_code(&mut self, code: usize) -> (outcome: Result<(), NNetError>)
        requires
            old(self).wf(),
        ensures
            final(self).wf(),
            code < FN_COUNT ==> outcome is Ok && final(self).fn_code() == code,
            code >= FN_COUNT ==> outcome == Err::<(), NNetError>(NNetError::FnCodeOutOfBounds)
                && final(self).fn_code() == old(self).fn_code(),
    {
        if code >= FN_COUNT {
            return Err(NNetError::FnCodeOutOfBounds);
        }
        self.activation_fn_code = code;
        Ok(())
    }

    /// The code of the function called `fn_name`. Fails where no function
    /// has that name.
    pub fn get_fn_code_by_name(&self, fn_name: &String) -> (outcome: Result<usize, NNetError>)
        requires
            self.wf(),
        ensures
            outcome == match code_of(fn_name@) {
                Some(code) => Ok::<usize, NNetError>(code as usize),
                None => Err(NNetError::FnNameNotFound),
            },
            outcome matches Ok(code) ==> code < FN_COUNT && fn_names()[code as int] == fn_name@,
    {
        let mut i: usize = 0;
        while i < self.fn_names.len()
            invariant
                i <= self.fn_names.len(),
                self.wf(),
                code_of(fn_name@) == position_of(fn_names(), fn_name@, i as int),
            decreases self.fn_names.len() - i,
        {
            assert(names_view(self.fn_names)[i as int] == self.fn_names@[i as int]@);
            if *fn_name == self.fn_names[i] {
                return Ok(i);
            }
            i += 1;
        }
        Err(NNetError::FnNameNotFound)
    }

    /// The code in force.
    pub fn get_fn_code(&self) -> (code: usize)
        ensures
            code == self.fn_code(),
    {
        self.activation_fn_code
    }

    /// The activation function in force.
    pub fn kind(&self) -> (kind: ActivationKind)
        requires
            self.wf(),
        ensures
            kind == kind_of(self.fn_code() as int),
    {
        kind_for(self.activation_fn_code)
    }
}

/// The activation function that a code addresses; the last one for a code
/// beyond the list.
pub fn kind_for(code: usize) -> (kind: ActivationKind)
    ensures
        kind == kind_of(code as int),
{
    match code {
        0 => ActivationKind::Default,
        1 => ActivationKind::Sigmoid,
        2 => ActivationKind::BinaryStep,
        3 => ActivationKind::Tanh,
        4 => ActivationKind::Sqnl,
        5 => ActivationKind::Arctan,
        6 => ActivationKind::Lrelu,
        7 => ActivationKind::Elu,
        8 => ActivationKind::Selu,
        9 => ActivationKind::Gelu,
        10 => ActivationKind::Softplus,
        _ => ActivationKind::Swish,
    }
}

} // verus!
