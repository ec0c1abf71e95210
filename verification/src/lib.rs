//! Quotient accumulation for a circle-STARK polynomial commitment scheme.
//!
//! Given evaluations of committed polynomials over a power-of-two circle
//! domain and a set of claimed values at out-of-domain points, the library
//! computes a single combined quotient evaluation whose low-degree-ness is
//! equivalent (with overwhelming probability) to all claims being true.

pub mod field;
pub mod secure;
pub mod utils;
pub mod circle;
pub mod constraints;
pub mod quotients;
