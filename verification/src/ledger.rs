//! The history ledger and the stored configuration.
//!
//! The ledger is a pure log: appending performs no validation (that is
//! the evaluator's job at replay time), undo removes exactly the last
//! record, and a rename rewrites participant references across the
//! whole log or rejects the log unchanged.

use crate::change::{AddPlayer, Arbitrary, Change, Circular, Play, Symmetric};
use crate::{Error, Scalar};
use vstd::prelude::*;

verus! {

/// The stored configuration: the display-transform coefficients and
/// the decay coefficient at the start of history.
///
/// The coefficients are opaque numeric values here; the display
/// transform arithmetic that interprets them (and the `spread != 0`
/// invariant it needs) lives with the caller.
#[derive(Clone, Copy, Debug, PartialEq, Eq, Structural)]
pub struct Config {
    pub spread: Scalar,
    pub base_rating: Scalar,
    pub starting_alpha: Scalar,
}

/// The persisted state: a configuration and the append-only history.
#[derive(Debug, PartialEq, Eq)]
pub struct Data {
    pub config: Config,
    pub history: Vec<Change>,
}

impl Data {
    /// Appends a participant registration.
    pub fn add_player(&mut self, name: String, rating: Scalar)
        ensures
            final(self).config == old(self).config,
            final(self).history@ == old(self).history@.push(
                Change::AddPlayer(AddPlayer { name, rating }),
            ),
    {
        self.history.push(Change::AddPlayer(AddPlayer { name, rating }));
    }

    /// Appends a three-participant session.
    pub fn play(&mut self, play: Play)
        ensures
            final(self).config == old(self).config,
            final(self).history@ == old(self).history@.push(Change::Play(play)),
    {
        self.history.push(Change::Play(play));
    }

    /// Appends a pairwise-graph session.
    pub fn arbitrary(&mut self, arbitrary: Arbitrary)
        ensures
            final(self).config == old(self).config,
            final(self).history@ == old(self).history@.push(Change::Arbitrary(arbitrary)),
    {
        self.history.push(Change::Arbitrary(arbitrary));
    }

    /// Appends a cyclic triple-grouping session.
    pub fn circular(&mut self, circular: Circular)
        ensures
            final(self).config == old(self).config,
            final(self).history@ == old(self).history@.push(Change::Circular(circular)),
    {
        self.history.push(Change::Circular(circular));
    }

    /// Appends a homogeneous group session.
    pub fn symmetric(&mut self, symmetric: Symmetric)
        ensures
            final(self).config == old(self).config,
            final(self).history@ == old(self).history@.push(Change::Symmetric(symmetric)),
    {
        self.history.push(Change::Symmetric(symmetric));
    }

    /// Appends a decay-coefficient adjustment, effective for all
    /// subsequent records.
    pub fn adjust_alpha(&mut self, new: Scalar)
        ensures
            final(self).config == old(self).config,
            final(self).history@ == old(self).history@.push(Change::AdjustAlpha(new)),
    {
        self.history.push(Change::AdjustAlpha(new));
    }

    /// Removes exactly the last record of the history.
    pub fn undo(&mut self) -> (r: Result<(), Error>)
        ensures
            old(self).history@.len() == 0 ==> r == Err::<(), Error>(Error::EmptyHistory)
                && *final(self) == *old(self),
            old(self).history@.len() > 0 ==> r == Ok::<(), Error>(()) && final(self).config == old(
                self,
            ).config && final(self).history@ == old(self).history@.drop_last(),
    {
        if self.history.len() == 0 {
            Err(Error::EmptyHistory)
        } else {
            self.history.pop();
            Ok(())
        }
    }

    /// Whether every record of the history supports renaming.
    pub open spec fn supports_rename(self) -> bool {
        forall|i: int|
            0 <= i < self.history@.len() ==> (#[trigger] self.history@[i]).supports_rename()
    }

    /// Rewrites every reference to `old_name` into a reference to
    /// `new_name` across the whole history.
    ///
    /// A history that keys participants inside a score map is rejected
    /// unchanged, because merge semantics for colliding keys are
    /// undefined there.
    pub fn rename(&mut self, old_name: &str, new_name: &str) -> (r: Result<(), Error>)
        ensures
            !old(self).supports_rename() ==> r == Err::<(), Error>(Error::UnsupportedRename)
                && *final(self) == *old(self),
            old(self).supports_rename() ==> {
                &&& r == Ok::<(), Error>(())
                &&& final(self).config == old(self).config
                &&& final(self).history@.len() == old(self).history@.len()
                &&& forall|i: int|
                    0 <= i < old(self).history@.len() ==> (#[trigger] final(self).history@[i]).renamed_from(
                        old(self).history@[i],
                        old_name@,
                        new_name@,
                    )
            },
    {
        let n = self.history.len();
        let mut i: usize = 0;
        while i < n
            invariant
                i <= n,
                n == self.history@.len(),
                *self == *old(self),
                forall|k: int| 0 <= k < i ==> (#[trigger] self.history@[k]).supports_rename(),
            decreases n - i,
        {
            match &self.history[i] {
                Change::Arbitrary(_) => {
                    return Err(Error::UnsupportedRename);
                },
                Change::Symmetric(_) => {
                    return Err(Error::UnsupportedRename);
                },
                _ => {},
            }
            i += 1;
        }
        let ghost orig = self.history@;
        let mut rewritten: Vec<Change> = Vec::new();
        let mut j: usize = 0;
        while j < n
            invariant
                j <= n,
                n == self.history@.len(),
                self.history@ == orig,
                self.config == old(self).config,
                rewritten@.len() == j,
                forall|k: int|
                    0 <= k < j ==> (#[trigger] rewritten@[k]).renamed_from(
                        orig[k],
                        old_name@,
                        new_name@,
                    ),
            decreases n - j,
        {
            rewritten.push(self.history[j].renamed(old_name, new_name));
            j += 1;
        }
        self.history = rewritten;
        Ok(())
    }
}

} // verus!
