//! Replay-based skill ratings for a three-handed card game.
//!
//! The crate keeps a durable, append-only history of rating-affecting
//! events and derives every rating snapshot by replaying that history
//! from the start.  The replay machinery — validation, participant
//! lookup, dispatch to the update models and the write-back of their
//! results — is verified; the update formulas themselves work on IEEE
//! doubles, which the verifier does not handle, so their inputs and
//! results travel through the verified core as opaque [`Scalar`] bit
//! patterns and the caller evaluates the formulas.

pub mod change;
pub mod evaluation;
pub mod laws;
pub mod ledger;
pub mod names;
pub mod ratings;

use vstd::prelude::*;

verus! {

/// A numeric value carried opaquely through the ledger and the
/// evaluator: the 64 bits of an IEEE 754 double.
///
/// The verified core never interprets these bits; it only stores,
/// copies and compares them.  The numeric update models that consume
/// and produce actual numbers run outside the verified core, and a
/// round trip through a `Scalar` preserves the value bit for bit.
#[derive(Clone, Copy, Debug, PartialEq, Eq, Structural, Hash)]
pub struct Scalar {
    /// The raw bit pattern of the value.
    pub bits: u64,
}

/// The failure taxonomy of the library.
///
/// Every failure is detected during validation or replay, strictly
/// before any state is handed back, so a failing operation never leaves
/// a partially updated value behind.
#[derive(Clone, Copy, Debug, PartialEq, Eq, Structural)]
pub enum Error {
    /// A change references a participant name absent from the ratings
    /// table at fold time.
    MissingPlayer,
    /// The diffusion solver could not compute a pseudo-inverse within
    /// tolerance.
    SingularSystem,
    /// A symmetric session names fewer than three participants.
    DegenerateGroupSize,
    /// A malformed change: a zero game or round count, an empty
    /// session, a score map with a repeated name or with an edge
    /// naming a non-participant, or an accumulated game weight outside
    /// the 64-bit range.
    InvalidInput,
    /// Undo was requested on an empty history.
    EmptyHistory,
    /// A rename was requested on a history that keys participants
    /// inside a score map, where merge semantics are undefined.
    UnsupportedRename,
}

} // verus!
