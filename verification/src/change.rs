//! The change records that make up a history.
//!
//! A history is an ordered, append-only sequence of immutable change
//! records.  Insertion order is the causal order; the `date` carried by
//! the session records is advisory metadata only.  Dates are plain
//! proleptic Gregorian day numbers, so that the verified core can
//! compare them; the calendar arithmetic lives with the caller.

use crate::names::str_eq;
use crate::Scalar;
use vstd::array::array_index_get;
use vstd::prelude::*;

verus! {

broadcast use vstd::array::group_array_axioms;

/// A value that carries participant-name references which a rename can
/// rewrite.
pub trait Renamable: Sized {
    /// The exact relation between the value after a rename and the
    /// value before it.
    spec fn renamed_from(self, origin: Self, old_name: Seq<char>, new_name: Seq<char>) -> bool;

    /// Rewrites every reference to `old_name` into a reference to
    /// `new_name`.
    fn rename(&mut self, old_name: &str, new_name: &str)
        ensures
            final(self).renamed_from(*old(self), old_name@, new_name@),
    ;
}

/// One participant's total net score in a session.
#[derive(Clone, Debug, PartialEq, Eq)]
pub struct Outcome {
    pub player: String,
    pub score: i64,
}

impl Renamable for Outcome {
    /// The score is kept; the player reference is rewritten when it
    /// names the old name.
    open spec fn renamed_from(self, origin: Outcome, old_name: Seq<char>, new_name: Seq<char>) -> bool {
        &&& self.score == origin.score
        &&& self.player@ == if origin.player@ == old_name {
            new_name
        } else {
            origin.player@
        }
    }

    fn rename(&mut self, old_name: &str, new_name: &str) {
        if str_eq(self.player.as_str(), old_name) {
            self.player = String::from_str(new_name);
        }
    }
}

/// A copy of `o` with references to `old_name` rewritten.
pub fn renamed_outcome(o: &Outcome, old_name: &str, new_name: &str) -> (r: Outcome)
    ensures
        r.renamed_from(*o, old_name@, new_name@),
{
    let mut r = Outcome { player: o.player.clone(), score: o.score };
    r.rename(old_name, new_name);
    r
}

/// Registers a participant at an internal rating, overwriting any
/// existing registration of the same name.
#[derive(Clone, Debug, PartialEq, Eq)]
pub struct AddPlayer {
    pub name: String,
    pub rating: Scalar,
}

impl Renamable for AddPlayer {
    /// The rating is kept; the registered name is rewritten when it is
    /// the old name.
    open spec fn renamed_from(self, origin: AddPlayer, old_name: Seq<char>, new_name: Seq<char>) -> bool {
        &&& self.rating == origin.rating
        &&& self.name@ == if origin.name@ == old_name {
            new_name
        } else {
            origin.name@
        }
    }

    fn rename(&mut self, old_name: &str, new_name: &str) {
        if str_eq(self.name.as_str(), old_name) {
            self.name = String::from_str(new_name);
        }
    }
}

/// A three-participant zero-sum session of `game_count` games.
#[derive(Clone, Debug, PartialEq, Eq)]
pub struct Play {
    pub game_count: usize,
    /// Advisory session date, as a day number.
    pub date: i64,
    pub outcomes: [Outcome; 3],
}

/// Relies on chrono's `Local::now`, `date_naive` and
/// `Datelike::num_days_from_ce` for the current civil date in the local
/// time zone, as a proleptic Gregorian day number.
#[verifier::external_body]
fn current_day() -> i64 {
    chrono::Datelike::num_days_from_ce(&chrono::Local::now().date_naive()) as i64
}

impl Play {
    /// A session dated today.
    pub fn now(game_count: usize, outcomes: [Outcome; 3]) -> (r: Play)
        ensures
            r.game_count == game_count,
            r.outcomes == outcomes,
    {
        Play { game_count, date: current_day(), outcomes }
    }
}

impl Renamable for Play {
    /// Game count and date are kept; each outcome is rewritten.
    open spec fn renamed_from(self, origin: Play, old_name: Seq<char>, new_name: Seq<char>) -> bool {
        &&& self.game_count == origin.game_count
        &&& self.date == origin.date
        &&& forall|i: int|
            0 <= i < 3 ==> #[trigger] self.outcomes[i].renamed_from(
                origin.outcomes[i],
                old_name,
                new_name,
            )
    }

    fn rename(&mut self, old_name: &str, new_name: &str) {
        let o0 = renamed_outcome(array_index_get(&self.outcomes, 0), old_name, new_name);
        let o1 = renamed_outcome(array_index_get(&self.outcomes, 1), old_name, new_name);
        let o2 = renamed_outcome(array_index_get(&self.outcomes, 2), old_name, new_name);
        self.outcomes = [o0, o1, o2];
    }
}

/// The games played between one pair of participants.
#[derive(Clone, Debug, PartialEq, Eq)]
pub struct GameCollection {
    pub players: [String; 2],
    pub game_count: usize,
}

/// A pairwise game-count graph with per-participant scores.
///
/// `scores` is a map keyed by participant name, kept as ordered pairs
/// so that replay is deterministic; a name may appear at most once.
#[derive(Clone, Debug, PartialEq, Eq)]
pub struct Arbitrary {
    /// Advisory session date, as a day number.
    pub date: i64,
    pub scores: Vec<Outcome>,
    pub game_collections: Vec<GameCollection>,
}

/// A cyclic triple-grouping session: participants sit in a fixed
/// cyclic order and each round is played by a window of three
/// cyclically consecutive participants.
#[derive(Clone, Debug, PartialEq, Eq)]
pub struct Circular {
    /// Advisory session date, as a day number.
    pub date: i64,
    pub outcomes: Vec<Outcome>,
    pub game_count: usize,
}

impl Renamable for Circular {
    /// Game count and date are kept; each outcome is rewritten.
    open spec fn renamed_from(self, origin: Circular, old_name: Seq<char>, new_name: Seq<char>) -> bool {
        &&& self.game_count == origin.game_count
        &&& self.date == origin.date
        &&& self.outcomes@.len() == origin.outcomes@.len()
        &&& forall|i: int|
            0 <= i < origin.outcomes@.len() ==> #[trigger] self.outcomes@[i].renamed_from(
                origin.outcomes@[i],
                old_name,
                new_name,
            )
    }

    fn rename(&mut self, old_name: &str, new_name: &str) {
        let ghost orig = self.outcomes@;
        let n = self.outcomes.len();
        let mut rewritten: Vec<Outcome> = Vec::new();
        let mut i: usize = 0;
        while i < n
            invariant
                i <= n,
                n == self.outcomes@.len(),
                self.outcomes@ == orig,
                self.game_count == old(self).game_count,
                self.date == old(self).date,
                rewritten@.len() == i,
                forall|k: int|
                    0 <= k < i ==> #[trigger] rewritten@[k].renamed_from(
                        orig[k],
                        old_name@,
                        new_name@,
                    ),
            decreases n - i,
        {
            rewritten.push(renamed_outcome(&self.outcomes[i], old_name, new_name));
            i += 1;
        }
        self.outcomes = rewritten;
    }
}

/// A homogeneous group session of `round_count` rounds among all the
/// named participants.
///
/// `scores` is a map keyed by participant name, kept as ordered pairs
/// so that replay is deterministic; a name may appear at most once.
#[derive(Clone, Debug, PartialEq, Eq)]
pub struct Symmetric {
    /// Advisory session date, as a day number.
    pub date: i64,
    pub scores: Vec<Outcome>,
    pub round_count: usize,
}

/// One record of the history ledger.
#[derive(Clone, Debug, PartialEq, Eq)]
pub enum Change {
    AddPlayer(AddPlayer),
    Play(Play),
    Arbitrary(Arbitrary),
    Circular(Circular),
    Symmetric(Symmetric),
    AdjustAlpha(Scalar),
}

impl Change {
    /// The advisory date of the record, if it carries one.
    pub open spec fn spec_date(self) -> Option<i64> {
        match self {
            Change::AddPlayer(_) => None,
            Change::Play(play) => Some(play.date),
            Change::Arbitrary(arbitrary) => Some(arbitrary.date),
            Change::Circular(circular) => Some(circular.date),
            Change::Symmetric(symmetric) => Some(symmetric.date),
            Change::AdjustAlpha(_) => None,
        }
    }

    /// The advisory date of the record, if it carries one.
    pub fn date(&self) -> (r: Option<i64>)
        ensures
            r == self.spec_date(),
    {
        match self {
            Change::AddPlayer(_) => None,
            Change::Play(play) => Some(play.date),
            Change::Arbitrary(arbitrary) => Some(arbitrary.date),
            Change::Circular(circular) => Some(circular.date),
            Change::Symmetric(symmetric) => Some(symmetric.date),
            Change::AdjustAlpha(_) => None,
        }
    }

    /// Whether a rename can rewrite this record.  Records that key
    /// participants inside a score map have no defined merge semantics
    /// and are not rewritten.
    pub open spec fn supports_rename(self) -> bool {
        !(self is Arbitrary) && !(self is Symmetric)
    }

    /// The exact relation between a record after a rename and the
    /// record before it.  Records without defined rename semantics are
    /// related only to an identical record.
    pub open spec fn renamed_from(self, origin: Change, old_name: Seq<char>, new_name: Seq<char>) -> bool {
        match (self, origin) {
            (Change::AddPlayer(a), Change::AddPlayer(b)) => a.renamed_from(b, old_name, new_name),
            (Change::Play(a), Change::Play(b)) => a.renamed_from(b, old_name, new_name),
            (Change::Circular(a), Change::Circular(b)) => a.renamed_from(b, old_name, new_name),
            (Change::Arbitrary(a), Change::Arbitrary(b)) => a.date == b.date && a.scores@
                == b.scores@ && a.game_collections@ == b.game_collections@,
            (Change::Symmetric(a), Change::Symmetric(b)) => a.date == b.date && a.scores@
                == b.scores@ && a.round_count == b.round_count,
            (Change::AdjustAlpha(a), Change::AdjustAlpha(b)) => a == b,
            _ => false,
        }
    }

    /// A copy of this record with references to `old_name` rewritten,
    /// for the record kinds that support renaming; other kinds are
    /// copied unchanged.
    pub fn renamed(&self, old_name: &str, new_name: &str) -> (r: Change)
        ensures
            r.renamed_from(*self, old_name@, new_name@),
    {
        match self {
            Change::AddPlayer(a) => {
                let mut x = AddPlayer { name: a.name.clone(), rating: a.rating };
                x.rename(old_name, new_name);
                Change::AddPlayer(x)
            },
            Change::Play(p) => {
                let mut x = Play {
                    game_count: p.game_count,
                    date: p.date,
                    outcomes: clone_outcome_triple(&p.outcomes),
                };
                x.rename(old_name, new_name);
                Change::Play(x)
            },
            Change::Arbitrary(a) => Change::Arbitrary(
                Arbitrary {
                    date: a.date,
                    scores: clone_outcomes(&a.scores),
                    game_collections: clone_game_collections(&a.game_collections),
                },
            ),
            Change::Circular(c) => {
                let mut x = Circular {
                    date: c.date,
                    outcomes: clone_outcomes(&c.outcomes),
                    game_count: c.game_count,
                };
                x.rename(old_name, new_name);
                Change::Circular(x)
            },
            Change::Symmetric(s) => Change::Symmetric(
                Symmetric {
                    date: s.date,
                    scores: clone_outcomes(&s.scores),
                    round_count: s.round_count,
                },
            ),
            Change::AdjustAlpha(v) => Change::AdjustAlpha(*v),
        }
    }
}

/// An equal copy of an outcome.
pub fn clone_outcome(o: &Outcome) -> (r: Outcome)
    ensures
        r == *o,
{
    Outcome { player: o.player.clone(), score: o.score }
}

/// An equal copy of a triple of outcomes.
pub fn clone_outcome_triple(os: &[Outcome; 3]) -> (r: [Outcome; 3])
    ensures
        r == *os,
{
    let r = [
        clone_outcome(array_index_get(os, 0)),
        clone_outcome(array_index_get(os, 1)),
        clone_outcome(array_index_get(os, 2)),
    ];
    proof {
        assert(r =~= *os);
    }
    r
}

/// An equal copy of a vector of outcomes.
pub fn clone_outcomes(os: &Vec<Outcome>) -> (r: Vec<Outcome>)
    ensures
        r@ == os@,
{
    let n = os.len();
    let mut r: Vec<Outcome> = Vec::new();
    let mut i: usize = 0;
    while i < n
        invariant
            i <= n,
            n == os@.len(),
            r@ == os@.take(i as int),
        decreases n - i,
    {
        r.push(clone_outcome(&os[i]));
        assert(r@ =~= os@.take(i + 1));
        i += 1;
    }
    assert(r@ =~= os@);
    r
}

/// An equal copy of a game collection.
pub fn clone_game_collection(gc: &GameCollection) -> (r: GameCollection)
    ensures
        r == *gc,
{
    let players = [
        array_index_get(&gc.players, 0).clone(),
        array_index_get(&gc.players, 1).clone(),
    ];
    proof {
        assert(players =~= gc.players);
    }
    GameCollection { players, game_count: gc.game_count }
}

/// An equal copy of a vector of game collections.
pub fn clone_game_collections(gcs: &Vec<GameCollection>) -> (r: Vec<GameCollection>)
    ensures
        r@ == gcs@,
{
    let n = gcs.len();
    let mut r: Vec<GameCollection> = Vec::new();
    let mut i: usize = 0;
    while i < n
        invariant
            i <= n,
            n == gcs@.len(),
            r@ == gcs@.take(i as int),
        decreases n - i,
    {
        r.push(clone_game_collection(&gcs[i]));
        assert(r@ =~= gcs@.take(i + 1));
        i += 1;
    }
    assert(r@ =~= gcs@);
    r
}

} // verus!
