//! An ordered sequence of primitive gate operations over a fixed number of qubits.
use vstd::prelude::*;

verus! {

/// One primitive operation of a gate sequence.
#[derive(Clone, Copy, Debug, PartialEq, Eq, Structural)]
pub enum Gate {
    /// Hadamard on a qubit.
    H(usize),
    /// Pauli-X on a qubit.
    X(usize),
    /// Pauli-Z on a qubit.
    Z(usize),
    /// Controlled-X: control, then target.
    Cx(usize, usize),
    /// Controlled-controlled-X: two controls, then target.
    Ccx(usize, usize, usize),
    /// Measurement of a qubit into a classical bit: qubit, then bit.
    Measure(usize, usize),
    /// Measurement of every qubit into the bit of the same index.
    MeasureAll,
}

impl Gate {
    /// All indices of the operation are below `n`; no qubit appears twice.
    pub open spec fn acts_within(self, n: nat) -> bool {
        match self {
            Gate::H(q) => q < n,
            Gate::X(q) => q < n,
            Gate::Z(q) => q < n,
            Gate::Cx(c, t) => c < n && t < n && c != t,
            Gate::Ccx(c1, c2, t) => c1 < n && c2 < n && t < n && c1 != c2 && c1 != t && c2 != t,
            Gate::Measure(q, b) => q < n && b < n,
            Gate::MeasureAll => true,
        }
    }
}

/// `n` Hadamards, on qubits `0..n` in order.
pub open spec fn hadamard_layer(n: nat) -> Seq<Gate> {
    Seq::new(n, |i: int| Gate::H(i as usize))
}

/// `n` Pauli-X gates, on qubits `0..n` in order.
pub open spec fn x_layer(n: nat) -> Seq<Gate> {
    Seq::new(n, |i: int| Gate::X(i as usize))
}

/// Measurement of qubits `0..n` in order, each into the bit of the same index.
pub open spec fn measure_layer(n: nat) -> Seq<Gate> {
    Seq::new(n, |i: int| Gate::Measure(i as usize, i as usize))
}

/// A gate sequence under construction, over a fixed number of qubits.
#[derive(Clone, Debug)]
pub struct Circuit {
    num_qubits: usize,
    gates: Vec<Gate>,
}

impl Circuit {
    /// The number of qubits the sequence acts on.
    pub closed spec fn qubit_count(&self) -> nat {
        self.num_qubits as nat
    }

    /// The operations applied so far, in order.
    pub closed spec fn ops(&self) -> Seq<Gate> {
        self.gates@
    }

    /// Every operation acts within the circuit's qubits.
    pub open spec fn wf(&self) -> bool {
        forall|i: int| 0 <= i < self.ops().len() ==> #[trigger] self.ops()[i].acts_within(self.qubit_count())
    }

    /// An empty sequence over `num_qubits` qubits.
    pub fn new(num_qubits: usize) -> (r: Circuit)
        ensures
            r.qubit_count() == num_qubits,
            r.ops() == Seq::<Gate>::empty(),
            r.wf(),
    {
        Circuit { num_qubits, gates: Vec::new() }
    }

    /// The number of qubits the sequence acts on.
    pub fn num_qubits(&self) -> (r: usize)
        ensures
            r == self.qubit_count(),
    {
        self.num_qubits
    }

    /// The operations applied so far, in order.
    pub fn gates(&self) -> (r: &[Gate])
        ensures
            r@ == self.ops(),
    {
        self.gates.as_slice()
    }

    /// Appends one operation.
    pub fn apply(&mut self, g: Gate)
        requires
            old(self).wf(),
            g.acts_within(old(self).qubit_count()),
        ensures
            final(self).qubit_count() == old(self).qubit_count(),
            final(self).ops() == old(self).ops().push(g),
            final(self).wf(),
    {
        self.gates.push(g);
        assert forall|i: int| 0 <= i < self.ops().len() implies #[trigger] self.ops()[i].acts_within(
            self.qubit_count(),
        ) by {
            if i < old(self).ops().len() {
                assert(self.ops()[i] == old(self).ops()[i]);
            }
        }
    }

    /// Hadamard on qubit `q`.
    pub fn h(&mut self, q: usize)
        requires
            old(self).wf(),
            q < old(self).qubit_count(),
        ensures
            final(self).qubit_count() == old(self).qubit_count(),
            final(self).ops() == old(self).ops().push(Gate::H(q)),
            final(self).wf(),
    {
        self.apply(Gate::H(q));
    }

    /// Pauli-X on qubit `q`.
    pub fn x(&mut self, q: usize)
        requires
            old(self).wf(),
            q < old(self).qubit_count(),
        ensures
            final(self).qubit_count() == old(self).qubit_count(),
            final(self).ops() == old(self).ops().push(Gate::X(q)),
            final(self).wf(),
    {
        self.apply(Gate::X(q));
    }

    /// Pauli-Z on qubit `q`.
    pub fn z(&mut self, q: usize)
        requires
            old(self).wf(),
            q < old(self).qubit_count(),
        ensures
            final(self).qubit_count() == old(self).qubit_count(),
            final(self).ops() == old(self).ops().push(Gate::Z(q)),
            final(self).wf(),
    {
        self.apply(Gate::Z(q));
    }

    /// Controlled-X from `control` to `target`.
    pub fn cx(&mut self, control: usize, target: usize)
        requires
            old(self).wf(),
            control < old(self).qubit_count(),
            target < old(self).qubit_count(),
            control != target,
        ensures
            final(self).qubit_count() == old(self).qubit_count(),
            final(self).ops() == old(self).ops().push(Gate::Cx(control, target)),
            final(self).wf(),
    {
        self.apply(Gate::Cx(control, target));
    }

    /// Controlled-controlled-X from `c1` and `c2` to `target`.
    pub fn ccx(&mut self, c1: usize, c2: usize, target: usize)
        requires
            old(self).wf(),
            c1 < old(self).qubit_count(),
            c2 < old(self).qubit_count(),
            target < old(self).qubit_count(),
            c1 != c2,
            c1 != target,
            c2 != target,
        ensures
            final(self).qubit_count() == old(self).qubit_count(),
            final(self).ops() == old(self).ops().push(Gate::Ccx(c1, c2, target)),
            final(self).wf(),
    {
        self.apply(Gate::Ccx(c1, c2, target));
    }

    /// Measurement of qubit `q` into classical bit `bit`.
    pub fn measure(&mut self, q: usize, bit: usize)
        requires
            old(self).wf(),
            q < old(self).qubit_count(),
            bit < old(self).qubit_count(),
        ensures
            final(self).qubit_count() == old(self).qubit_count(),
            final(self).ops() == old(self).ops().push(Gate::Measure(q, bit)),
            final(self).wf(),
    {
        self.apply(Gate::Measure(q, bit));
    }

    /// Measurement of every qubit into the bit of the same index.
    pub fn measure_all(&mut self)
        requires
            old(self).wf(),
        ensures
            final(self).qubit_count() == old(self).qubit_count(),
            final(self).ops() == old(self).ops().push(Gate::MeasureAll),
            final(self).wf(),
    {
        self.apply(Gate::MeasureAll);
    }

    /// Hadamard on each of qubits `0..n`, in order.
    pub fn h_layer(&mut self, n: usize)
        requires
            old(self).wf(),
            n <= old(self).qubit_count(),
        ensures
            final(self).qubit_count() == old(self).qubit_count(),
            final(self).ops() == old(self).ops() + hadamard_layer(n as nat),
            final(self).wf(),
    {
        let ghost start = self.ops();
        let mut i: usize = 0;
        while i < n
            invariant
                i <= n,
                n <= self.qubit_count(),
                self.qubit_count() == old(self).qubit_count(),
                start == old(self).ops(),
                self.ops() == start + hadamard_layer(i as nat),
                self.wf(),
            decreases n - i,
        {
            self.h(i);
            i = i + 1;
            assert(self.ops() =~= start + hadamard_layer(i as nat));
        }
    }

    /// Pauli-X on each of qubits `0..n`, in order.
    pub fn x_layer(&mut self, n: usize)
        requires
            old(self).wf(),
            n <= old(self).qubit_count(),
        ensures
            final(self).qubit_count() == old(self).qubit_count(),
            final(self).ops() == old(self).ops() + x_layer(n as nat),
            final(self).wf(),
    {
        let ghost start = self.ops();
        let mut i: usize = 0;
        while i < n
            invariant
                i <= n,
                n <= self.qubit_count(),
                self.qubit_count() == old(self).qubit_count(),
                start == old(self).ops(),
                self.ops() == start + x_layer(i as nat),
                self.wf(),
            decreases n - i,
        {
            self.x(i);
            i = i + 1;
            assert(self.ops() =~= start + x_layer(i as nat));
        }
    }

    /// Measurement of each of qubits `0..n` into the bit of the same index, in order.
    pub fn measure_layer(&mut self, n: usize)
        requires
            old(self).wf(),
            n <= old(self).qubit_count(),
        ensures
            final(self).qubit_count() == old(self).qubit_count(),
            final(self).ops() == old(self).ops() + measure_layer(n as nat),
            final(self).wf(),
    {
        let ghost start = self.ops();
        let mut i: usize = 0;
        while i < n
            invariant
                i <= n,
                n <= self.qubit_count(),
                self.qubit_count() == old(self).qubit_count(),
                start == old(self).ops(),
                self.ops() == start + measure_layer(i as nat),
                self.wf(),
            decreases n - i,
        {
            self.measure(i, i);
            i = i + 1;
            assert(self.ops() =~= start + measure_layer(i as nat));
        }
    }
}

} // verus!
