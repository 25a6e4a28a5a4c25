//! The one kind of failure: a parameter outside the range a constructor accepts.
use vstd::prelude::*;

verus! {

/// A construction parameter outside its valid range.
#[derive(Clone, Copy, Debug, PartialEq, Eq, Structural)]
pub enum InvalidParameter {
    /// `value` does not fit in `n_qubits` bits: the valid range is `0..2^n_qubits`.
    ValueOutOfRange { value: usize, n_qubits: usize },
    /// The algorithm needs at least one query qubit and none was given.
    NoQueryQubits,
}

} // verus!
