//! A zero-knowledge word game, arithmetized and proved.
//!
//! A player shows, without revealing intermediate guesses, that they
//! played a Wordle-style game legitimately: every guess was a
//! dictionary word, and the published green/yellow feedback grid for
//! each guess against the final word was computed correctly. The
//! statement is encoded as polynomial identities over the proof
//! backend's scalar field; this crate holds the verified core of that
//! encoding:
//!
//! - `utils`: character encoding, the base-29 polynomial hash and the
//!   reference feedback computation, with hash injectivity proved;
//! - `dict`: the fixed dictionary of admissible word hashes;
//! - `modular` and `is_zero`: the field model and the equality-to-zero
//!   gadget, with its completeness and soundness proved;
//! - `gates`: the full constraint system of one guess region, with
//!   completeness and soundness theorems;
//! - `witness`: the witness and public-instance builders, proved to
//!   produce assignments that satisfy every region.
//!
//! The proof backend itself (commitment scheme, transcript, prover and
//! verifier) is an external collaborator and is driven from outside
//! this crate.

use vstd::prelude::*;

pub mod dict;
pub mod gates;
pub mod is_zero;
pub mod modular;
pub mod utils;
pub mod witness;

verus! {

/// Number of letters in every game word.
pub const WORD_LEN: usize = 5;

/// Number of guesses a single proof covers.
pub const WORD_COUNT: usize = 3;

/// Base of the positional polynomial hash; larger than the alphabet,
/// so five base-29 digits determine the hash uniquely.
pub const BASE: u64 = 29;

/// Number of letters in the alphabet; characters are encoded as 1..=26.
pub const ALPHABET_SIZE: u64 = 26;

/// A character value as it appears in a word: the 1-based alphabet index.
pub open spec fn char_ok(v: int) -> bool {
    1 <= v <= ALPHABET_SIZE
}

} // verus!
