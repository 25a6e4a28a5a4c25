//! Grover's search: find a marked item among `2^n` with about `π/4 · √(2^n)`
//! rounds of oracle and diffusion.
//!
//! The oracle flips the phase of the target state by an X on each qubit whose
//! target bit is zero, a multi-controlled Z, and the same X gates again. The
//! diffusion reflects about the uniform superposition: Hadamards, X gates, a
//! multi-controlled Z, X gates, Hadamards.
//!
//! On four or more qubits the multi-controlled Z used here is the linear-depth
//! pattern of one controlled-X from every other qubit to the last, between two
//! Hadamards on the last: a parity-controlled phase, not an AND-controlled one.
//! It is kept as the sequence this library emits, so the amplification is not
//! exact there.
//!
//! A search over zero qubits is refused: its multi-controlled Z would act on
//! a qubit the circuit does not have.
use vstd::prelude::*;
use vstd::arithmetic::mul::{lemma_mul_inequality, lemma_mul_strict_inequality};
use vstd::arithmetic::power2::{pow2, lemma2_to64, lemma2_to64_rest, lemma_pow2_adds, lemma_pow2_pos, lemma_pow2_strictly_increases};
use crate::bits::{bit_set, fits_in, fits_in_width, test_bit};
use crate::circuit::{Circuit, Gate, hadamard_layer, x_layer};
use crate::error::InvalidParameter;

verus! {

/// π scaled by `2^48`: the double-precision value of π is exactly `PI_SCALED / 2^48`.
pub const PI_SCALED: u128 = 884279719003555;

/// `k == 0`, or `2k − 1 ≤ π·√(2^n)/2`, with π read as `PI_SCALED / 2^48`; both
/// sides squared and multiplied by `2^98`.
pub open spec fn reaches(n: nat, k: nat) -> bool {
    k == 0 || pow2(98) * ((2 * k - 1) * (2 * k - 1)) <= (PI_SCALED * PI_SCALED) * pow2(n)
}

/// `k` is `π/4 · √(2^n)` rounded to the nearest integer:
/// `k − 1/2 ≤ π/4 · √(2^n) < k + 1/2`.
pub open spec fn rounds_to(n: nat, k: nat) -> bool {
    reaches(n, k) && !reaches(n, k + 1)
}

/// The optimal number of Grover rounds on `n` qubits: `π/4 · √(2^n)`, rounded,
/// and at least one.
pub open spec fn optimal_iteration_count(n: nat) -> nat {
    let k = choose|k: nat| rounds_to(n, k);
    if k == 0 {
        1
    } else {
        k
    }
}

/// X on each qubit `i < k` whose bit in `t` is zero, in increasing order of `i`.
pub open spec fn marking_flips(t: nat, k: nat) -> Seq<Gate>
    decreases k,
{
    if k == 0 {
        Seq::empty()
    } else {
        marking_flips(t, (k - 1) as nat) + if bit_set(t, (k - 1) as nat) {
            Seq::empty()
        } else {
            seq![Gate::X((k - 1) as usize)]
        }
    }
}

/// The multi-controlled Z over `n` qubits.
pub open spec fn multi_controlled_z_gates(n: nat) -> Seq<Gate> {
    if n <= 1 {
        seq![Gate::Z(0)]
    } else if n == 2 {
        seq![Gate::H(1), Gate::Cx(0, 1), Gate::H(1)]
    } else if n == 3 {
        seq![Gate::H(2), Gate::Ccx(0, 1, 2), Gate::H(2)]
    } else {
        let last = (n - 1) as usize;
        seq![Gate::H(last)] + Seq::new((n - 1) as nat, |i: int| Gate::Cx(i as usize, last))
            + seq![Gate::H(last)]
    }
}

/// The oracle marking target `t` on `n` qubits.
pub open spec fn marking_oracle_gates(n: nat, t: nat) -> Seq<Gate> {
    marking_flips(t, n) + multi_controlled_z_gates(n) + marking_flips(t, n)
}

/// The diffusion on `n` qubits.
pub open spec fn diffusion_gates(n: nat) -> Seq<Gate> {
    hadamard_layer(n) + x_layer(n) + multi_controlled_z_gates(n) + x_layer(n) + hadamard_layer(n)
}

/// `k` rounds of oracle then diffusion.
pub open spec fn grover_rounds(n: nat, t: nat, k: nat) -> Seq<Gate>
    decreases k,
{
    if k == 0 {
        Seq::empty()
    } else {
        grover_rounds(n, t, (k - 1) as nat) + marking_oracle_gates(n, t) + diffusion_gates(n)
    }
}

/// The complete Grover sequence: uniform superposition, `k` rounds, measurement of all qubits.
pub open spec fn grover_gates(n: nat, t: nat, k: nat) -> Seq<Gate> {
    hadamard_layer(n) + grover_rounds(n, t, k) + seq![Gate::MeasureAll]
}

/// `2^e` as a 128-bit word.
fn pow2_u128(e: u32) -> (r: u128)
    requires
        e < 128,
    ensures
        r == pow2(e as nat),
{
    proof {
        lemma2_to64();
        lemma2_to64_rest();
        lemma_pow2_adds(64, 63);
    }
    let mut p: u128 = 1;
    let mut j: u32 = 0;
    while j < e
        invariant
            j <= e < 128,
            p == pow2(j as nat),
            pow2(127) < u128::MAX,
        decreases e - j,
    {
        proof {
            vstd::arithmetic::power2::lemma_pow2_unfold((j + 1) as nat);
            if j + 1 < 127 {
                lemma_pow2_strictly_increases((j + 1) as nat, 127);
            }
        }
        p = p * 2;
        j = j + 1;
    }
    p
}

/// Whether `reaches(n, k)`, for `1 <= n < 64` and `k < 2^32`.
fn reaches_exec(n: u32, k: u128) -> (r: bool)
    requires
        1 <= n < 64,
        k < 0x1_0000_0000,
    ensures
        r == reaches(n as nat, k as nat),
{
    if k == 0 {
        return true;
    }
    let m = 2 * k - 1;
    assert(m * m < 0x4_0000_0000_0000_0000) by (nonlinear_arith)
        requires
            m < 0x2_0000_0000,
    ;
    let scale = pow2_u128(98 - n);
    let bound = PI_SCALED * PI_SCALED;
    let r = match (m * m).checked_mul(scale) {
        Some(v) => v <= bound,
        None => false,
    };
    proof {
        let mm = (m * m) as int;
        let lhs = pow2(98) * mm;
        let rhs = (PI_SCALED * PI_SCALED) * pow2(n as nat);
        lemma_pow2_adds((98 - n) as nat, n as nat);
        lemma_pow2_pos(n as nat);
        assert(lhs == (scale * mm) * pow2(n as nat)) by (nonlinear_arith)
            requires
                lhs == pow2(98) * mm,
                pow2(98) == scale * pow2(n as nat),
        ;
        if scale * mm <= bound {
            lemma_mul_inequality(scale * mm, bound as int, pow2(n as nat) as int);
        } else {
            lemma_mul_strict_inequality(bound as int, scale * mm, pow2(n as nat) as int);
        }
    }
    r
}

/// `reaches` holds of `a` whenever it holds of some `b >= a`.
proof fn lemma_reaches_downward(n: nat, a: nat, b: nat)
    requires
        a <= b,
        reaches(n, b),
    ensures
        reaches(n, a),
{
    if a > 0 {
        let x = 2 * a - 1;
        let y = 2 * b - 1;
        lemma_mul_inequality(x, y, x);
        lemma_mul_inequality(x, y, y);
        assert(pow2(98) * (x * x) <= pow2(98) * (y * y)) by (nonlinear_arith)
            requires
                x * x <= x * y,
                x * y <= y * y,
        ;
    }
}

/// At most one `k` is the rounding of `π/4 · √(2^n)`.
pub proof fn lemma_rounds_to_unique(n: nat, a: nat, b: nat)
    requires
        rounds_to(n, a),
        rounds_to(n, b),
    ensures
        a == b,
{
    if a < b {
        lemma_reaches_downward(n, a + 1, b);
    } else if b < a {
        lemma_reaches_downward(n, b + 1, a);
    }
}

/// A Grover search instance: a number of qubits, a target that fits in it,
/// and optionally a fixed number of rounds.
#[derive(Clone, Debug)]
pub struct GroverSearch {
    n_qubits: usize,
    target: usize,
    iterations: Option<usize>,
}

impl GroverSearch {
    /// The number of qubits; the search space has `2^n` items.
    pub closed spec fn width(&self) -> nat {
        self.n_qubits as nat
    }

    /// The item searched for.
    pub closed spec fn target_value(&self) -> nat {
        self.target as nat
    }

    /// The number of rounds set by `with_iterations`, if any.
    pub closed spec fn iteration_override(&self) -> Option<usize> {
        self.iterations
    }

    /// The number of rounds `build` applies: the override, else the optimum.
    pub open spec fn round_count(&self) -> nat {
        match self.iteration_override() {
            Some(k) => k as nat,
            None => optimal_iteration_count(self.width()),
        }
    }

    /// At least one qubit, fewer than a machine word has bits, and a target that fits.
    pub open spec fn wf(&self) -> bool {
        &&& 1 <= self.width() < usize::BITS
        &&& fits_in(self.target_value(), self.width())
    }

    /// An instance searching `2^n_qubits` items for `target`; fails when there
    /// is no qubit or the target does not fit in `n_qubits` bits.
    pub fn new(n_qubits: usize, target: usize) -> (r: Result<GroverSearch, InvalidParameter>)
        requires
            n_qubits < usize::BITS,
        ensures
            r is Ok <==> n_qubits >= 1 && fits_in(target as nat, n_qubits as nat),
            r matches Ok(g) ==> g.wf() && g.width() == n_qubits && g.target_value() == target
                && g.iteration_override() == None::<usize>,
            r matches Err(e) ==> e == if n_qubits == 0 {
                InvalidParameter::NoQueryQubits
            } else {
                InvalidParameter::ValueOutOfRange { value: target, n_qubits }
            },
    {
        if n_qubits == 0 {
            Err(InvalidParameter::NoQueryQubits)
        } else if !fits_in_width(target, n_qubits) {
            Err(InvalidParameter::ValueOutOfRange { value: target, n_qubits })
        } else {
            Ok(GroverSearch { n_qubits, target, iterations: None })
        }
    }

    /// The same search with exactly `iterations` rounds.
    pub fn with_iterations(self, iterations: usize) -> (r: GroverSearch)
        ensures
            r.width() == self.width(),
            r.target_value() == self.target_value(),
            r.iteration_override() == Some(iterations),
            r.wf() == self.wf(),
    {
        GroverSearch { iterations: Some(iterations), ..self }
    }

    /// `π/4 · √(2^n)` rounded to the nearest integer, and at least one.
    pub fn optimal_iterations(&self) -> (r: usize)
        requires
            self.wf(),
        ensures
            r >= 1,
            rounds_to(self.width(), r as nat),
            r == optimal_iteration_count(self.width()),
    {
        let n = self.n_qubits as u32;
        proof {
            lemma2_to64();
            lemma2_to64_rest();
            lemma_pow2_adds(64, 34);
            if n < 63 {
                lemma_pow2_strictly_increases(n as nat, 63);
            }
            let hi: nat = 0x1_0000_0000;
            assert(!reaches(n as nat, hi)) by (nonlinear_arith)
                requires
                    pow2(n as nat) <= pow2(63),
                    pow2(63) == 0x8000_0000_0000_0000,
                    pow2(98) == 0x4_0000_0000_0000_0000_0000_0000,
                    hi == 0x1_0000_0000,
            ;
        }
        let mut lo: u128 = 0;
        let mut hi: u128 = 0x1_0000_0000;
        while hi - lo > 1
            invariant
                lo < hi <= 0x1_0000_0000,
                1 <= n < 64,
                reaches(n as nat, lo as nat),
                !reaches(n as nat, hi as nat),
            decreases hi - lo,
        {
            let mid = lo + (hi - lo) / 2;
            if reaches_exec(n, mid) {
                lo = mid;
            } else {
                hi = mid;
            }
        }
        proof {
            lemma_pow2_pos(n as nat);
            assert(reaches(n as nat, 1)) by (nonlinear_arith)
                requires
                    pow2(n as nat) >= 1,
                    pow2(98) == 0x4_0000_0000_0000_0000_0000_0000,
            ;
            assert(hi == lo + 1);
            assert(rounds_to(n as nat, lo as nat));
            let k = choose|k: nat| rounds_to(n as nat, k);
            lemma_rounds_to_unique(n as nat, k, lo as nat);
        }
        lo as usize
    }

    /// The number of rounds `build` applies: the override if one was set,
    /// else the optimal count.
    pub fn iteration_count(&self) -> (r: usize)
        requires
            self.wf(),
        ensures
            r == self.round_count(),
    {
        match self.iterations {
            Some(k) => k,
            None => self.optimal_iterations(),
        }
    }

    /// The number of qubits.
    pub fn n_qubits(&self) -> (r: usize)
        ensures
            r == self.width(),
    {
        self.n_qubits
    }

    /// The circuit over `n` qubits: Hadamards on all qubits, `round_count()`
    /// rounds of oracle then diffusion, and measurement of all qubits.
    pub fn build(&self) -> (r: Circuit)
        requires
            self.wf(),
        ensures
            r.qubit_count() == self.width(),
            r.ops() == grover_gates(self.width(), self.target_value(), self.round_count()),
            r.wf(),
    {
        let iterations = self.iteration_count();
        let n = self.n_qubits;
        let mut circuit = Circuit::new(n);
        circuit.h_layer(n);
        let ghost prefix = circuit.ops();
        let mut round: usize = 0;
        while round < iterations
            invariant
                round <= iterations,
                iterations == self.round_count(),
                self.wf(),
                circuit.qubit_count() == self.width(),
                circuit.ops() == prefix + grover_rounds(self.width(), self.target_value(), round as nat),
                circuit.wf(),
            decreases iterations - round,
        {
            self.apply_oracle(&mut circuit);
            self.apply_diffusion(&mut circuit);
            round = round + 1;
            assert(circuit.ops() =~= prefix + grover_rounds(self.width(), self.target_value(), round as nat));
        }
        circuit.measure_all();
        assert(circuit.ops() =~= grover_gates(self.width(), self.target_value(), self.round_count()));
        circuit
    }

    /// Appends an X on each qubit whose target bit is zero.
    fn apply_marking_flips(&self, circuit: &mut Circuit)
        requires
            self.wf(),
            old(circuit).wf(),
            old(circuit).qubit_count() == self.width(),
        ensures
            final(circuit).qubit_count() == old(circuit).qubit_count(),
            final(circuit).ops() == old(circuit).ops() + marking_flips(self.target_value(), self.width()),
            final(circuit).wf(),
    {
        let ghost start = circuit.ops();
        let mut i: usize = 0;
        while i < self.n_qubits
            invariant
                i <= self.width(),
                self.wf(),
                start == old(circuit).ops(),
                circuit.qubit_count() == self.width(),
                circuit.ops() == start + marking_flips(self.target_value(), i as nat),
                circuit.wf(),
            decreases self.width() - i,
        {
            if !test_bit(self.target, i) {
                circuit.x(i);
            }
            i = i + 1;
            assert(circuit.ops() =~= start + marking_flips(self.target_value(), i as nat));
        }
    }

    /// Appends the oracle that flips the phase of the target state.
    fn apply_oracle(&self, circuit: &mut Circuit)
        requires
            self.wf(),
            old(circuit).wf(),
            old(circuit).qubit_count() == self.width(),
        ensures
            final(circuit).qubit_count() == old(circuit).qubit_count(),
            final(circuit).ops() == old(circuit).ops() + marking_oracle_gates(self.width(), self.target_value()),
            final(circuit).wf(),
    {
        self.apply_marking_flips(circuit);
        self.multi_controlled_z(circuit);
        self.apply_marking_flips(circuit);
        assert(final(circuit).ops() =~= old(circuit).ops() + marking_oracle_gates(self.width(), self.target_value()));
    }

    /// Appends the diffusion, the reflection about the uniform superposition.
    fn apply_diffusion(&self, circuit: &mut Circuit)
        requires
            self.wf(),
            old(circuit).wf(),
            old(circuit).qubit_count() == self.width(),
        ensures
            final(circuit).qubit_count() == old(circuit).qubit_count(),
            final(circuit).ops() == old(circuit).ops() + diffusion_gates(self.width()),
            final(circuit).wf(),
    {
        let n = self.n_qubits;
        circuit.h_layer(n);
        circuit.x_layer(n);
        self.multi_controlled_z(circuit);
        circuit.x_layer(n);
        circuit.h_layer(n);
        assert(final(circuit).ops() =~= old(circuit).ops() + diffusion_gates(self.width()));
    }

    /// Appends the multi-controlled Z over all qubits.
    fn multi_controlled_z(&self, circuit: &mut Circuit)
        requires
            self.wf(),
            old(circuit).wf(),
            old(circuit).qubit_count() == self.width(),
        ensures
            final(circuit).qubit_count() == old(circuit).qubit_count(),
            final(circuit).ops() == old(circuit).ops() + multi_controlled_z_gates(self.width()),
            final(circuit).wf(),
    {
        let n = self.n_qubits;
        if n <= 1 {
            circuit.z(0);
        } else if n == 2 {
            circuit.h(1);
            circuit.cx(0, 1);
            circuit.h(1);
        } else if n == 3 {
            circuit.h(2);
            circuit.ccx(0, 1, 2);
            circuit.h(2);
        } else {
            let last = n - 1;
            circuit.h(last);
            let ghost start = circuit.ops();
            let mut i: usize = 0;
            while i < last
                invariant
                    i <= last,
                    last == n - 1,
                    n == self.width(),
                    circuit.qubit_count() == n,
                    circuit.ops() == start + Seq::new(i as nat, |j: int| Gate::Cx(j as usize, last)),
                    circuit.wf(),
                decreases last - i,
            {
                circuit.cx(i, last);
                i = i + 1;
                assert(circuit.ops() =~= start + Seq::new(i as nat, |j: int| Gate::Cx(j as usize, last)));
            }
            circuit.h(last);
        }
        assert(final(circuit).ops() =~= old(circuit).ops() + multi_controlled_z_gates(self.width()));
    }
}

/// The Grover circuit searching `2^n_qubits` items for `target`, with the
/// optimal number of rounds; fails as `GroverSearch::new` does.
pub fn search(n_qubits: usize, target: usize) -> (r: Result<Circuit, InvalidParameter>)
    requires
        n_qubits < usize::BITS,
    ensures
        r is Ok <==> n_qubits >= 1 && fits_in(target as nat, n_qubits as nat),
        r matches Ok(c) ==> c.qubit_count() == n_qubits && c.ops() == grover_gates(
            n_qubits as nat,
            target as nat,
            optimal_iteration_count(n_qubits as nat),
        ) && c.wf(),
        r matches Err(e) ==> e == if n_qubits == 0 {
            InvalidParameter::NoQueryQubits
        } else {
            InvalidParameter::ValueOutOfRange { value: target, n_qubits }
        },
{
    match GroverSearch::new(n_qubits, target) {
        Ok(g) => Ok(g.build()),
        Err(e) => Err(e),
    }
}

} // verus!
