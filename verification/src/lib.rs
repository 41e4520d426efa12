//! Dense complex matrices and projective measurement of qubit registers.
//!
//! A [`Tensor`] is a matrix of complex numbers with the usual algebra: sums,
//! products, the Kronecker product, the conjugate transpose, norms, and the
//! embedding of a one-qubit operator among several qubits. A [`QuantumRegister`]
//! holds the state vector of some qubits and measures them one at a time.
//!
//! The arithmetic on single complex numbers is that of the `num` crate, and the
//! random draw of a measurement is that of the `rand` crate. What is proved here
//! is which numbers are combined, in which order, and where each result goes.

pub mod braket;
mod layout;
pub mod matrix;
pub mod register;
pub mod sampler;
pub mod scalar;
pub mod tensor;

pub use crate::braket::{basis_bra, basis_ket, bra, ket, Basis};
pub use crate::register::QuantumRegister;
pub use crate::tensor::Tensor;
