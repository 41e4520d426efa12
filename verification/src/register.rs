//! A register of qubits and its projective measurement.

use crate::braket::{basis_ket, basis_of, Basis};
use crate::matrix::{lemma_expand_qubit_operator, Matrix};
use crate::sampler::{accepts, flip, flip_with, is_probability};
use crate::tensor::Tensor;
use num::complex::Complex64;
use rand::rngs::StdRng;
use vstd::arithmetic::power2::pow2;
use vstd::prelude::*;

verus! {

/// The mathematical content of a register: its state vector and its number of
/// qubits.
pub struct RegisterState {
    pub state: Matrix,
    pub bits: nat,
}

/// The standard state that stands for a measured value: the state 1 for `true`,
/// the state 0 for `false`.
pub open spec fn outcome_state(outcome: bool) -> Basis {
    if outcome {
        Basis::One
    } else {
        Basis::Zero
    }
}

/// The operator that projects qubit `bit` of `bits` qubits onto the measured value
/// `outcome`: the projector of that state of one qubit, embedded at position `bit`.
pub open spec fn projector(bits: nat, bit: nat, outcome: bool) -> Matrix {
    basis_of(outcome_state(outcome), true).proj().expand(bits, bit)
}

impl RegisterState {
    /// The state vector has one row for each of the `2^bits` basis states.
    pub open spec fn wf(self) -> bool {
        &&& self.state.wf()
        &&& self.state.rows == pow2(self.bits)
        &&& self.state.cols == 1
    }

    /// Whether qubits can be measured: there is at least one, and the operators on
    /// the state, of `2^bits` rows and columns, have a size that the machine can
    /// hold.
    pub open spec fn measurable(self) -> bool {
        &&& self.bits >= 1
        &&& pow2(2 * self.bits) <= usize::MAX
    }

    /// The state projected onto the measured value `outcome` of qubit `bit`, not
    /// yet normalized.
    pub open spec fn branch(self, bit: nat, outcome: bool) -> Matrix {
        projector(self.bits, bit, outcome).multiply(self.state)
    }

    /// The probability of measuring `outcome` on qubit `bit`: the squared norm of
    /// the projected state.
    pub open spec fn probability(self, bit: nat, outcome: bool) -> Complex64 {
        self.branch(bit, outcome).norm_sqr()
    }

    /// The register after qubit `bit` was measured as `outcome`: the projected
    /// state, normalized.
    pub open spec fn collapsed(self, bit: nat, outcome: bool) -> RegisterState {
        RegisterState { state: self.branch(bit, outcome).unit(), bits: self.bits }
    }
}

/// A register of qubits: a state vector of `2^bits` amplitudes.
pub struct QuantumRegister {
    state: Tensor,
    bits: usize,
}

impl View for QuantumRegister {
    type V = RegisterState;

    closed spec fn view(&self) -> RegisterState {
        RegisterState { state: self.state@, bits: self.bits as nat }
    }
}

impl QuantumRegister {
    #[verifier::type_invariant]
    spec fn inv(self) -> bool {
        self@.wf()
    }

    /// A register of `bits` qubits in the given state, a column of `2^bits`
    /// amplitudes.
    pub fn new(state: Tensor, bits: usize) -> (r: QuantumRegister)
        requires
            state@.rows == pow2(bits as nat),
            state@.cols == 1,
        ensures
            r@ == (RegisterState { state: state@, bits: bits as nat }),
            r@.wf(),
    {
        // Reading the shape tells that the state holds one entry for each position.
        let _ = state.shape();
        QuantumRegister { state, bits }
    }

    /// The number of qubits.
    pub fn bits(&self) -> (n: usize)
        ensures
            n == self@.bits,
            self@.wf(),
    {
        proof {
            use_type_invariant(self);
        }
        self.bits
    }

    /// The state vector.
    pub fn state(&self) -> (t: &Tensor)
        ensures
            t@ == self@.state,
            self@.wf(),
    {
        proof {
            use_type_invariant(self);
        }
        &self.state
    }

    /// The state projected onto the measured value `outcome` of qubit `bit`, not
    /// yet normalized.
    pub fn branch(&self, bit: usize, outcome: bool) -> (t: Tensor)
        requires
            self@.measurable(),
        ensures
            t@ == self@.branch(bit as nat, outcome),
            t@.wf(),
            t@.rows == pow2(self@.bits),
            t@.cols == 1,
    {
        proof {
            use_type_invariant(self);
        }
        let basis = if outcome {
            basis_ket(Basis::One)
        } else {
            basis_ket(Basis::Zero)
        };
        let single = basis.proj();
        proof {
            lemma_expand_qubit_operator(single@, self.bits as nat, bit as nat, self.bits as nat);
        }
        let operator = single.expand(self.bits, bit);
        operator.multiply(&self.state)
    }

    /// The probability of measuring `outcome` on qubit `bit`. It is a real number,
    /// carried on the real axis.
    pub fn probability(&self, bit: usize, outcome: bool) -> (p: Complex64)
        requires
            self@.measurable(),
        ensures
            p == self@.probability(bit as nat, outcome),
    {
        self.branch(bit, outcome).norm_sqr()
    }

    /// Puts the register in the state that it has after qubit `bit` was measured as
    /// `outcome`. An outcome of probability zero is not refused: the amplitudes are
    /// then not numbers.
    pub fn collapse(&mut self, bit: usize, outcome: bool)
        requires
            old(self)@.measurable(),
        ensures
            final(self)@ == old(self)@.collapsed(bit as nat, outcome),
            final(self)@.wf(),
    {
        let next = self.branch(bit, outcome).unit();
        self.state = next;
    }

    /// Puts the register in the state that follows from the value `outcome`, given
    /// the two projected states of one qubit.
    fn settle(&mut self, zero_branch: Tensor, one_branch: Tensor, outcome: bool)
        requires
            zero_branch@.wf(),
            zero_branch@.rows == pow2(old(self)@.bits),
            zero_branch@.cols == 1,
            one_branch@.wf(),
            one_branch@.rows == pow2(old(self)@.bits),
            one_branch@.cols == 1,
        ensures
            final(self)@ == (RegisterState {
                state: if outcome {
                    one_branch@.unit()
                } else {
                    zero_branch@.unit()
                },
                bits: old(self)@.bits,
            }),
            final(self)@.wf(),
    {
        if outcome {
            self.state = one_branch.unit();
        } else {
            self.state = zero_branch.unit();
        }
    }

    /// Measures qubit `bit`: draws the value 1 with the probability that the state
    /// gives it, from the thread's own generator, puts the register in the state
    /// that follows from the value drawn, and returns that value. The probability
    /// must be one that the generator accepts.
    pub fn measure(&mut self, bit: usize) -> (outcome: bool)
        requires
            old(self)@.measurable(),
            is_probability(old(self)@.probability(bit as nat, true)),
        ensures
            final(self)@ == old(self)@.collapsed(bit as nat, outcome),
            final(self)@.wf(),
    {
        let zero_branch = self.branch(bit, false);
        let one_branch = self.branch(bit, true);
        let p = one_branch.norm_sqr();
        let outcome = flip(&p);
        self.settle(zero_branch, one_branch, outcome);
        outcome
    }

    /// Measures qubit `bit` as `measure` does, where the generator accepts the
    /// probability of the value 1. Where it does not, as for a state that is not
    /// normalized, the register is left as it is and `None` is returned.
    pub fn try_measure(&mut self, bit: usize) -> (outcome: Option<bool>)
        requires
            old(self)@.measurable(),
        ensures
            outcome.is_some() <==> is_probability(old(self)@.probability(bit as nat, true)),
            outcome matches Some(value) ==> final(self)@ == old(self)@.collapsed(
                bit as nat,
                value,
            ),
            outcome.is_none() ==> final(self)@ == old(self)@,
            final(self)@.wf(),
    {
        proof {
            use_type_invariant(&*self);
        }
        let p = self.probability(bit, true);
        if accepts(&p) {
            Some(self.measure(bit))
        } else {
            None
        }
    }

    /// Measures qubit `bit` as `measure` does, with the value drawn from the given
    /// generator: a seeded one gives the same values on every run.
    pub fn measure_with(&mut self, bit: usize, rng: &mut StdRng) -> (outcome: bool)
        requires
            old(self)@.measurable(),
            is_probability(old(self)@.probability(bit as nat, true)),
        ensures
            final(self)@ == old(self)@.collapsed(bit as nat, outcome),
            final(self)@.wf(),
    {
        let zero_branch = self.branch(bit, false);
        let one_branch = self.branch(bit, true);
        let p = one_branch.norm_sqr();
        let outcome = flip_with(rng, &p);
        self.settle(zero_branch, one_branch, outcome);
        outcome
    }

    /// Measures qubit `bit` as `measure_with` does, where the generator accepts the
    /// probability of the value 1. Where it does not, the register and the
    /// generator are left as they are and `None` is returned.
    pub fn try_measure_with(&mut self, bit: usize, rng: &mut StdRng) -> (outcome: Option<bool>)
        requires
            old(self)@.measurable(),
        ensures
            outcome.is_some() <==> is_probability(old(self)@.probability(bit as nat, true)),
            outcome matches Some(value) ==> final(self)@ == old(self)@.collapsed(
                bit as nat,
                value,
            ),
            outcome.is_none() ==> final(self)@ == old(self)@ && *final(rng) == *old(rng),
            final(self)@.wf(),
    {
        proof {
            use_type_invariant(&*self);
        }
        let p = self.probability(bit, true);
        if accepts(&p) {
            Some(self.measure_with(bit, rng))
        } else {
            None
        }
    }
}

} // verus!
