//! Bernstein-Vazirani: recover a hidden `n`-bit string `s` with one query of
//! the oracle `f(x) = s · x (mod 2)`.
//!
//! The query qubits start in `|0⟩`, the ancilla (qubit `n`) in `|1⟩`; after
//! Hadamards on every qubit, the oracle, and Hadamards on the query qubits,
//! measuring the query qubits reads back `s` bit for bit.
use vstd::prelude::*;
use crate::bits::{bit_set, fits_in, binary_digits, binary_value, binary_string, fits_in_width, test_bit, lemma_binary_value_of_digits};
use crate::circuit::{Circuit, Gate, hadamard_layer, measure_layer};
use crate::error::InvalidParameter;
use vstd::arithmetic::div_mod::lemma_small_mod;
use vstd::arithmetic::power2::pow2;

verus! {

/// The dot-product oracle over the first `k` query qubits: a controlled-X
/// from query qubit `i` to `ancilla` for each `i < k` whose bit in `s` is one,
/// in increasing order of `i`.
pub open spec fn dot_product_oracle(s: nat, k: nat, ancilla: usize) -> Seq<Gate>
    decreases k,
{
    if k == 0 {
        Seq::empty()
    } else {
        dot_product_oracle(s, (k - 1) as nat, ancilla) + if bit_set(s, (k - 1) as nat) {
            seq![Gate::Cx((k - 1) as usize, ancilla)]
        } else {
            Seq::empty()
        }
    }
}

/// The complete Bernstein-Vazirani sequence for width `n` and secret `s`.
pub open spec fn bernstein_vazirani_gates(n: nat, s: nat) -> Seq<Gate> {
    seq![Gate::X(n as usize)] + hadamard_layer(n + 1) + dot_product_oracle(s, n, n as usize)
        + hadamard_layer(n) + measure_layer(n)
}

/// A Bernstein-Vazirani instance: a width and a secret that fits in it.
#[derive(Clone, Debug)]
pub struct BernsteinVazirani {
    n_qubits: usize,
    secret: usize,
}

impl BernsteinVazirani {
    /// The number of query qubits, which is the secret's width.
    pub closed spec fn width(&self) -> nat {
        self.n_qubits as nat
    }

    /// The hidden string, as an integer.
    pub closed spec fn secret_value(&self) -> nat {
        self.secret as nat
    }

    /// The secret fits in the width, and the ancilla's index is a machine word.
    pub open spec fn wf(&self) -> bool {
        &&& fits_in(self.secret_value(), self.width())
        &&& self.width() < usize::MAX
    }

    /// An instance for an `n_qubits`-bit secret; fails when `secret` does not
    /// fit in `n_qubits` bits.
    pub fn new(n_qubits: usize, secret: usize) -> (r: Result<BernsteinVazirani, InvalidParameter>)
        requires
            n_qubits < usize::MAX,
        ensures
            r is Ok <==> fits_in(secret as nat, n_qubits as nat),
            r matches Ok(bv) ==> bv.wf() && bv.width() == n_qubits && bv.secret_value() == secret,
            r matches Err(e) ==> e == (InvalidParameter::ValueOutOfRange { value: secret, n_qubits }),
    {
        if fits_in_width(secret, n_qubits) {
            Ok(BernsteinVazirani { n_qubits, secret })
        } else {
            Err(InvalidParameter::ValueOutOfRange { value: secret, n_qubits })
        }
    }

    /// The circuit over `n + 1` qubits: ancilla set, Hadamards on all qubits,
    /// the dot-product oracle, Hadamards on the query qubits, and measurement
    /// of each query qubit into the bit of the same index.
    pub fn build(&self) -> (r: Circuit)
        requires
            self.wf(),
        ensures
            r.qubit_count() == self.width() + 1,
            r.ops() == bernstein_vazirani_gates(self.width(), self.secret_value()),
            r.wf(),
    {
        let n = self.n_qubits;
        let ancilla = n;
        let mut circuit = Circuit::new(n + 1);
        circuit.x(ancilla);
        circuit.h_layer(n + 1);
        let ghost prefix = circuit.ops();
        let mut i: usize = 0;
        while i < n
            invariant
                i <= n,
                n == self.width(),
                ancilla == n,
                n < usize::MAX,
                circuit.qubit_count() == n + 1,
                circuit.ops() == prefix + dot_product_oracle(self.secret_value(), i as nat, ancilla),
                circuit.wf(),
            decreases n - i,
        {
            if test_bit(self.secret, i) {
                circuit.cx(i, ancilla);
            }
            i = i + 1;
            assert(circuit.ops() =~= prefix + dot_product_oracle(self.secret_value(), i as nat, ancilla));
        }
        circuit.h_layer(n);
        circuit.measure_layer(n);
        assert(circuit.ops() =~= bernstein_vazirani_gates(self.width(), self.secret_value()));
        circuit
    }

    /// The secret as `n` binary digits, most significant first, with leading zeros.
    pub fn secret_as_binary(&self) -> (r: String)
        ensures
            r@ == binary_digits(self.secret_value(), self.width()),
    {
        binary_string(self.secret, self.n_qubits)
    }
}

/// The Bernstein-Vazirani circuit for an `n_qubits`-bit `secret`; fails when
/// the secret does not fit.
pub fn find_secret(n_qubits: usize, secret: usize) -> (r: Result<Circuit, InvalidParameter>)
    requires
        n_qubits < usize::MAX,
    ensures
        r is Ok <==> fits_in(secret as nat, n_qubits as nat),
        r matches Ok(c) ==> c.qubit_count() == n_qubits + 1 && c.ops() == bernstein_vazirani_gates(
            n_qubits as nat,
            secret as nat,
        ) && c.wf(),
        r matches Err(e) ==> e == (InvalidParameter::ValueOutOfRange { value: secret, n_qubits }),
{
    match BernsteinVazirani::new(n_qubits, secret) {
        Ok(bv) => Ok(bv.build()),
        Err(e) => Err(e),
    }
}

/// The digit string of a secret that fits in `n` bits has exactly `n`
/// characters and, read as an unsigned binary number, equals the secret.
pub proof fn lemma_secret_digits_denote_secret(n: nat, s: nat)
    requires
        fits_in(s, n),
    ensures
        binary_digits(s, n).len() == n,
        binary_value(binary_digits(s, n)) == s,
{
    lemma_binary_value_of_digits(s, n);
    lemma_small_mod(s, pow2(n));
}

} // verus!
