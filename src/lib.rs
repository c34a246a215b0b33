use vstd::prelude::*;

pub mod bits;
pub mod dna;
pub mod sbox;
pub mod cipher;
pub mod laws;

pub use cipher::{CipherError, DNAC};

verus! {

} // verus!
