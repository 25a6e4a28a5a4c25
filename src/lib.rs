//! Gate-sequence constructors for three query-based quantum algorithms:
//! Bernstein-Vazirani, Deutsch-Jozsa and Grover's search.
use vstd::prelude::*;

pub mod bernstein_vazirani;
pub mod bits;
pub mod circuit;
pub mod deutsch;
pub mod error;
pub mod grover;

pub use bernstein_vazirani::BernsteinVazirani;
pub use deutsch::DeutschJozsa;
pub use error::InvalidParameter;
pub use grover::GroverSearch;

verus! {

} // verus!
