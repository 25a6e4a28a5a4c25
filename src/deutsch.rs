//! Deutsch-Jozsa: tell a constant oracle `f: {0,1}^n -> {0,1}` from a balanced
//! one with a single query.
//!
//! Same frame as Bernstein-Vazirani: ancilla (qubit `n`) set to `|1⟩`,
//! Hadamards on every qubit, the oracle, Hadamards on the query qubits, and
//! measurement of the query qubits. A constant oracle always reads back all
//! zeros; a balanced one never does.
use vstd::prelude::*;
use crate::circuit::{Circuit, Gate, hadamard_layer, measure_layer};
use crate::error::InvalidParameter;
use vstd::std_specs::iter::IteratorSpec;

verus! {

/// The oracle functions on offer.
#[derive(Clone, Copy, Debug, PartialEq, Eq, Structural)]
pub enum FunctionType {
    /// f(x) = 0 for all x.
    ConstantZero,
    /// f(x) = 1 for all x.
    ConstantOne,
    /// f(x) = parity of x (balanced).
    BalancedParity,
    /// f(x) = bit 0 of x (balanced).
    BalancedFirstBit,
}

/// The gates of the oracle for `f` over `n` query qubits, with the ancilla at index `n`.
pub open spec fn oracle_gates(f: FunctionType, n: nat) -> Seq<Gate> {
    match f {
        FunctionType::ConstantZero => Seq::empty(),
        FunctionType::ConstantOne => seq![Gate::X(n as usize)],
        FunctionType::BalancedParity => Seq::new(n, |i: int| Gate::Cx(i as usize, n as usize)),
        FunctionType::BalancedFirstBit => seq![Gate::Cx(0, n as usize)],
    }
}

/// The complete Deutsch-Jozsa sequence for `n` query qubits and oracle `f`.
pub open spec fn deutsch_jozsa_gates(n: nat, f: FunctionType) -> Seq<Gate> {
    seq![Gate::X(n as usize)] + hadamard_layer(n + 1) + oracle_gates(f, n) + hadamard_layer(n)
        + measure_layer(n)
}

/// Every character of `m` is the digit zero.
pub open spec fn all_zero(m: Seq<char>) -> bool {
    forall|i: int| 0 <= i < m.len() ==> #[trigger] m[i] == '0'
}

/// A Deutsch-Jozsa instance: a number of query qubits and an oracle.
#[derive(Clone, Debug)]
pub struct DeutschJozsa {
    n_qubits: usize,
    function: FunctionType,
}

impl DeutschJozsa {
    /// The number of query qubits.
    pub closed spec fn width(&self) -> nat {
        self.n_qubits as nat
    }

    /// The oracle function.
    pub closed spec fn oracle(&self) -> FunctionType {
        self.function
    }

    /// At least one query qubit, and the ancilla's index is a machine word.
    pub open spec fn wf(&self) -> bool {
        1 <= self.width() < usize::MAX
    }

    /// An instance over `n_qubits` query qubits; fails when there are none.
    pub fn new(n_qubits: usize, function: FunctionType) -> (r: Result<DeutschJozsa, InvalidParameter>)
        requires
            n_qubits < usize::MAX,
        ensures
            r is Ok <==> n_qubits >= 1,
            r matches Ok(dj) ==> dj.wf() && dj.width() == n_qubits && dj.oracle() == function,
            r matches Err(e) ==> e == InvalidParameter::NoQueryQubits,
    {
        if n_qubits >= 1 {
            Ok(DeutschJozsa { n_qubits, function })
        } else {
            Err(InvalidParameter::NoQueryQubits)
        }
    }

    /// The circuit over `n + 1` qubits: ancilla set, Hadamards on all qubits,
    /// the oracle, Hadamards on the query qubits, and measurement of each
    /// query qubit into the bit of the same index.
    pub fn build(&self) -> (r: Circuit)
        requires
            self.wf(),
        ensures
            r.qubit_count() == self.width() + 1,
            r.ops() == deutsch_jozsa_gates(self.width(), self.oracle()),
            r.wf(),
    {
        let n = self.n_qubits;
        let ancilla = n;
        let mut circuit = Circuit::new(n + 1);
        circuit.x(ancilla);
        circuit.h_layer(n + 1);
        self.apply_oracle(&mut circuit, ancilla);
        circuit.h_layer(n);
        circuit.measure_layer(n);
        assert(circuit.ops() =~= deutsch_jozsa_gates(self.width(), self.oracle()));
        circuit
    }

    /// Appends the oracle's gates.
    fn apply_oracle(&self, circuit: &mut Circuit, ancilla: usize)
        requires
            self.wf(),
            ancilla == self.width(),
            old(circuit).wf(),
            old(circuit).qubit_count() == self.width() + 1,
        ensures
            final(circuit).qubit_count() == old(circuit).qubit_count(),
            final(circuit).ops() == old(circuit).ops() + oracle_gates(self.oracle(), self.width()),
            final(circuit).wf(),
    {
        match self.function {
            FunctionType::ConstantZero => {
                assert(circuit.ops() =~= circuit.ops() + oracle_gates(self.oracle(), self.width()));
            },
            FunctionType::ConstantOne => {
                circuit.x(ancilla);
                assert(final(circuit).ops() =~= old(circuit).ops() + oracle_gates(self.oracle(), self.width()));
            },
            FunctionType::BalancedParity => {
                let ghost start = circuit.ops();
                let mut i: usize = 0;
                while i < self.n_qubits
                    invariant
                        i <= ancilla,
                        ancilla == self.width(),
                        self.wf(),
                        self.oracle() == FunctionType::BalancedParity,
                        start == old(circuit).ops(),
                        circuit.qubit_count() == ancilla + 1,
                        circuit.ops() == start + Seq::new(
                            i as nat,
                            |j: int| Gate::Cx(j as usize, ancilla),
                        ),
                        circuit.wf(),
                    decreases ancilla - i,
                {
                    circuit.cx(i, ancilla);
                    i = i + 1;
                    assert(circuit.ops() =~= start + Seq::new(
                        i as nat,
                        |j: int| Gate::Cx(j as usize, ancilla),
                    ));
                }
                assert(circuit.ops() =~= start + oracle_gates(self.oracle(), self.width()));
            },
            FunctionType::BalancedFirstBit => {
                circuit.cx(0, ancilla);
                assert(final(circuit).ops() =~= old(circuit).ops() + oracle_gates(self.oracle(), self.width()));
            },
        }
    }

    /// Whether a measured bit string says the oracle is constant: every
    /// character is the digit zero.
    pub fn is_constant(measurement: &str) -> (r: bool)
        ensures
            r == all_zero(measurement@),
    {
        broadcast use vstd::string::axiom_spec_iter, vstd::string::next_postcondition;

        let mut chars = measurement.chars();
        let ghost k: int = 0;
        loop
            invariant
                0 <= k <= measurement@.len(),
                chars.obeys_prophetic_iter_laws(),
                chars.remaining() == measurement@.subrange(k, measurement@.len() as int),
                forall|j: int| 0 <= j < k ==> #[trigger] measurement@[j] == '0',
            decreases measurement@.len() - k,
        {
            match chars.next() {
                None => {
                    return true;
                },
                Some(c) => {
                    if c != '0' {
                        assert(measurement@[k] == c);
                        return false;
                    }
                    proof {
                        k = k + 1;
                    }
                },
            }
        }
    }
}

} // verus!
