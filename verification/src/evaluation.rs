//! The evaluator: replaying a history into a ratings snapshot.
//!
//! An evaluation is derived, never stored: it is produced by folding
//! the history from the starting decay coefficient and an empty
//! ratings table.  Registrations and coefficient adjustments are
//! folded directly.  A session record is first validated and turned
//! into a [`ModelInput`] — the complete, plain-valued input of its
//! rating-update model; the caller evaluates the model's formula on
//! numbers and hands the resulting ratings back to [`Evaluation::apply_update`],
//! which writes them into the table.  Everything around the formulas —
//! validation, participant lookup, the Laplacian accumulation, the
//! write-back and the date bookkeeping — is verified.

use crate::change::{Arbitrary, Change, Circular, GameCollection, Outcome, Play, Symmetric};
use crate::ledger::Data;
use crate::names::{match_names, name_matches};
use crate::ratings::{spec_lookup, spec_set, Ratings};
use crate::{Error, Scalar};
use vstd::array::array_index_get;
use vstd::prelude::*;
use vstd::seq_lib::*;

verus! {

broadcast use vstd::array::group_array_axioms;

/// A square matrix of 64-bit integers, by rows.
#[derive(Debug, PartialEq, Eq)]
pub struct IntMatrix {
    pub rows: Vec<Vec<i64>>,
}

impl IntMatrix {
    /// The number of rows and columns.
    pub open spec fn dim(self) -> int {
        self.rows@.len() as int
    }

    /// Every row has full length.
    pub open spec fn wf(self) -> bool {
        forall|i: int| 0 <= i < self.dim() ==> (#[trigger] self.rows@[i])@.len() == self.dim()
    }

    /// The matrix as a mathematical value.
    pub open spec fn model(self) -> Seq<Seq<int>> {
        self.rows@.map_values(|r: Vec<i64>| r@.map_values(|x: i64| x as int))
    }

    /// The entry in row `i`, column `j`.
    pub fn get(&self, i: usize, j: usize) -> (r: i64)
        requires
            self.wf(),
            i < self.dim(),
            j < self.dim(),
        ensures
            r as int == self.model()[i as int][j as int],
    {
        self.rows[i][j]
    }

    /// The dimension.
    pub fn size(&self) -> (r: usize)
        ensures
            r == self.dim(),
    {
        self.rows.len()
    }
}

/// The all-zero square matrix of dimension `n`.
pub open spec fn zero_matrix_model(n: int) -> Seq<Seq<int>> {
    Seq::new(n as nat, |i: int| Seq::new(n as nat, |j: int| 0))
}

/// Whether `v` fits a 64-bit signed integer.
pub open spec fn in_i64(v: int) -> bool {
    i64::MIN <= v <= i64::MAX
}

/// One weight-accumulation step on a matrix: adds `d` to the entry at
/// `(i, j)`, or nothing when the sum leaves the 64-bit range.
pub open spec fn mat_add(m: Seq<Seq<int>>, i: int, j: int, d: int) -> Option<Seq<Seq<int>>> {
    if in_i64(m[i][j] + d) {
        Some(m.update(i, m[i].update(j, m[i][j] + d)))
    } else {
        None
    }
}

fn zero_row(n: usize) -> (r: Vec<i64>)
    ensures
        r@.len() == n,
        forall|j: int| 0 <= j < n ==> r@[j] == 0,
{
    let mut r: Vec<i64> = Vec::new();
    let mut i: usize = 0;
    while i < n
        invariant
            i <= n,
            r@.len() == i,
            forall|j: int| 0 <= j < i ==> r@[j] == 0,
        decreases n - i,
    {
        r.push(0);
        i += 1;
    }
    r
}

fn zero_matrix(n: usize) -> (m: IntMatrix)
    ensures
        m.wf(),
        m.dim() == n,
        m.model() == zero_matrix_model(n as int),
{
    let mut rows: Vec<Vec<i64>> = Vec::new();
    let mut i: usize = 0;
    while i < n
        invariant
            i <= n,
            rows@.len() == i,
            forall|k: int|
                0 <= k < i ==> (#[trigger] rows@[k])@.len() == n && forall|j: int|
                    0 <= j < n ==> rows@[k]@[j] == 0,
        decreases n - i,
    {
        rows.push(zero_row(n));
        i += 1;
    }
    let m = IntMatrix { rows };
    proof {
        assert forall|k: int| 0 <= k < n implies #[trigger] m.model()[k] == zero_matrix_model(
            n as int,
        )[k] by {
            assert(m.model()[k] =~= zero_matrix_model(n as int)[k]);
        }
        assert(m.model() =~= zero_matrix_model(n as int));
    }
    m
}

fn clone_row(v: &Vec<i64>) -> (r: Vec<i64>)
    ensures
        r@ == v@,
{
    let n = v.len();
    let mut r: Vec<i64> = Vec::new();
    let mut i: usize = 0;
    while i < n
        invariant
            i <= n,
            n == v@.len(),
            r@ == v@.take(i as int),
        decreases n - i,
    {
        r.push(v[i]);
        assert(r@ =~= v@.take(i + 1));
        i += 1;
    }
    assert(r@ =~= v@);
    r
}

/// Adds `d` to the entry at `(i, j)`, reporting whether the sum stayed
/// in the 64-bit range; on overflow the matrix is unchanged.
fn mat_add_exec(m: &mut IntMatrix, i: usize, j: usize, d: i128) -> (ok: bool)
    requires
        old(m).wf(),
        i < old(m).dim(),
        j < old(m).dim(),
        -0x2_0000_0000_0000_0000 <= d <= 0x2_0000_0000_0000_0000,
    ensures
        final(m).wf(),
        final(m).dim() == old(m).dim(),
        match mat_add(old(m).model(), i as int, j as int, d as int) {
            Some(mm) => ok && final(m).model() == mm,
            None => !ok && *final(m) == *old(m),
        },
{
    let v = m.rows[i][j];
    proof {
        assert(v as int == m.model()[i as int][j as int]);
    }
    let sum: i128 = v as i128 + d;
    if sum < i64::MIN as i128 || sum > i64::MAX as i128 {
        false
    } else {
        let nv: i64 = sum as i64;
        let mut row = clone_row(&m.rows[i]);
        row.set(j, nv);
        m.rows.set(i, row);
        proof {
            let pre = old(m).model();
            assert(m.model()[i as int] =~= pre[i as int].update(j as int, nv as int));
            assert(m.model() =~= pre.update(
                i as int,
                pre[i as int].update(j as int, pre[i as int][j as int] + d),
            ));
        }
        true
    }
}

/// The position of the first occurrence of `k` in `names`, or the
/// length of `names` when it does not occur.
pub open spec fn name_index(names: Seq<Seq<char>>, k: Seq<char>) -> int
    decreases names.len(),
{
    if names.len() == 0 {
        0
    } else if names[0] == k {
        0
    } else {
        1 + name_index(names.drop_first(), k)
    }
}

pub proof fn lemma_name_index(names: Seq<Seq<char>>, k: Seq<char>)
    ensures
        0 <= name_index(names, k) <= names.len(),
        name_index(names, k) < names.len() ==> names[name_index(names, k)] == k,
        forall|m: int| 0 <= m < name_index(names, k) ==> names[m] != k,
    decreases names.len(),
{
    if names.len() > 0 && names[0] != k {
        lemma_name_index(names.drop_first(), k);
        let ni = name_index(names, k);
        assert forall|m: int| 0 <= m < ni implies names[m] != k by {
            if m > 0 {
                assert(names.drop_first()[m - 1] != k);
            }
        }
        if ni < names.len() {
            assert(names[ni] == names.drop_first()[ni - 1]);
        }
    }
}

/// Every edge of the game-collection list names two listed
/// participants.
pub open spec fn gcs_known(names: Seq<Seq<char>>, gcs: Seq<GameCollection>) -> bool {
    forall|i: int|
        0 <= i < gcs.len() ==> name_index(names, (#[trigger] gcs[i]).players[0]@) < names.len()
            && name_index(names, gcs[i].players[1]@) < names.len()
}

/// The Laplacian accumulation of one game collection: its game count
/// is added to both off-diagonal entries of its pair and subtracted
/// from both diagonal entries, in that order.
pub open spec fn gc_step(
    m: Seq<Seq<int>>,
    names: Seq<Seq<char>>,
    gc: GameCollection,
) -> Option<Seq<Seq<int>>> {
    let i0 = name_index(names, gc.players[0]@);
    let i1 = name_index(names, gc.players[1]@);
    let g = gc.game_count as int;
    if i0 >= names.len() || i1 >= names.len() {
        None
    } else {
        match mat_add(m, i0, i1, g) {
            None => None,
            Some(m1) => match mat_add(m1, i1, i0, g) {
                None => None,
                Some(m2) => match mat_add(m2, i0, i0, -g) {
                    None => None,
                    Some(m3) => mat_add(m3, i1, i1, -g),
                },
            },
        }
    }
}

/// The graph Laplacian accumulated from the first `k` game
/// collections, or nothing when a weight leaves the 64-bit range.
pub open spec fn arb_matrix_upto(
    names: Seq<Seq<char>>,
    gcs: Seq<GameCollection>,
    k: int,
) -> Option<Seq<Seq<int>>>
    decreases k,
{
    if k <= 0 {
        Some(zero_matrix_model(names.len() as int))
    } else {
        match arb_matrix_upto(names, gcs, k - 1) {
            None => None,
            Some(m) => gc_step(m, names, gcs[k - 1]),
        }
    }
}

/// The graph Laplacian of a pairwise-graph session.
pub open spec fn arbitrary_matrix(
    names: Seq<Seq<char>>,
    gcs: Seq<GameCollection>,
) -> Option<Seq<Seq<int>>> {
    arb_matrix_upto(names, gcs, gcs.len() as int)
}

proof fn lemma_arb_none_propagates(names: Seq<Seq<char>>, gcs: Seq<GameCollection>, a: int, b: int)
    requires
        0 <= a <= b,
        arb_matrix_upto(names, gcs, a) is None,
    ensures
        arb_matrix_upto(names, gcs, b) is None,
    decreases b - a,
{
    if a < b {
        lemma_arb_none_propagates(names, gcs, a, b - 1);
    }
}

/// The first `s` of the nine window accumulations of round `r`: for
/// offsets `d0` and `d1` running over the window of width three, one
/// is added to the entry at `((r + d0) mod len, (r + d1) mod len)`
/// off the diagonal and two are subtracted on it.
pub open spec fn circ_round_upto(
    m: Seq<Seq<int>>,
    r: int,
    len: int,
    s: int,
) -> Option<Seq<Seq<int>>>
    decreases s,
{
    if s <= 0 {
        Some(m)
    } else {
        match circ_round_upto(m, r, len, s - 1) {
            None => None,
            Some(m2) => {
                let d0 = (s - 1) / 3;
                let d1 = (s - 1) % 3;
                let j0 = (r + d0) % len;
                let j1 = (r + d1) % len;
                mat_add(
                    m2,
                    j0,
                    j1,
                    if j0 == j1 {
                        -2
                    } else {
                        1
                    },
                )
            },
        }
    }
}

/// The synthesized cyclic matrix after the first `r` rounds.
pub open spec fn circ_matrix_upto(len: int, r: int) -> Option<Seq<Seq<int>>>
    decreases r,
{
    if r <= 0 {
        Some(zero_matrix_model(len))
    } else {
        match circ_matrix_upto(len, r - 1) {
            None => None,
            Some(m) => circ_round_upto(m, r - 1, len, 9),
        }
    }
}

/// The synthesized matrix of a cyclic triple-grouping session.
pub open spec fn circular_matrix(len: int, game_count: int) -> Option<Seq<Seq<int>>> {
    circ_matrix_upto(len, game_count)
}

proof fn lemma_circ_round_none_propagates(m: Seq<Seq<int>>, r: int, len: int, a: int, b: int)
    requires
        0 <= a <= b,
        circ_round_upto(m, r, len, a) is None,
    ensures
        circ_round_upto(m, r, len, b) is None,
    decreases b - a,
{
    if a < b {
        lemma_circ_round_none_propagates(m, r, len, a, b - 1);
    }
}

proof fn lemma_circ_none_propagates(len: int, a: int, b: int)
    requires
        0 <= a <= b,
        circ_matrix_upto(len, a) is None,
    ensures
        circ_matrix_upto(len, b) is None,
    decreases b - a,
{
    if a < b {
        lemma_circ_none_propagates(len, a, b - 1);
    }
}

/// The update models a session record can call for.
#[derive(Debug, PartialEq, Eq)]
pub enum ModelTask {
    /// The three-participant zero-sum decay formula, applied once per
    /// participant with this many games.
    ThreeWay { game_count: usize },
    /// The homogeneous group decay formula, applied once per
    /// participant with this many rounds.
    Group { round_count: usize },
    /// The graph-diffusion closed form over this Laplacian.
    Diffusion { laplacian: IntMatrix },
}

/// The complete input of one rating-update model invocation: the
/// decay coefficient, the participants in model order with their
/// current ratings and scores, and the model to run.
///
/// The caller computes the model's new ratings, aligned with
/// `players`, and hands them to [`Evaluation::apply_update`].
#[derive(Debug, PartialEq, Eq)]
pub struct ModelInput {
    pub alpha: Scalar,
    pub players: Vec<String>,
    pub ratings: Vec<Scalar>,
    pub scores: Vec<i64>,
    pub task: ModelTask,
}

/// The names of a sequence of outcomes, in order.
pub open spec fn outcome_names(os: Seq<Outcome>) -> Seq<Seq<char>> {
    os.map_values(|o: Outcome| o.player@)
}

/// The scores of a sequence of outcomes, in order.
pub open spec fn outcome_score_ints(os: Seq<Outcome>) -> Seq<int> {
    os.map_values(|o: Outcome| o.score as int)
}

/// The views of a sequence of names.
pub open spec fn views_of_names(v: Seq<String>) -> Seq<Seq<char>> {
    v.map_values(|s: String| s@)
}

/// The mathematical values of a sequence of scores.
pub open spec fn ints_of_scores(v: Seq<i64>) -> Seq<int> {
    v.map_values(|x: i64| x as int)
}

/// No name occurs twice.
pub open spec fn distinct_names(names: Seq<Seq<char>>) -> bool {
    forall|i: int, j: int| 0 <= i < j < names.len() ==> names[i] != names[j]
}

/// Every name is bound in the table.
pub open spec fn all_present(pairs: Seq<(Seq<char>, Scalar)>, names: Seq<Seq<char>>) -> bool {
    forall|i: int| 0 <= i < names.len() ==> spec_lookup(pairs, #[trigger] names[i]) is Some
}

/// The later of a known date and an optional new one; an absent date
/// compares as earliest.
pub open spec fn max_date(prev: Option<i64>, date: Option<i64>) -> Option<i64> {
    match date {
        Option::None => prev,
        Option::Some(d) => match prev {
            Option::None => Option::Some(d),
            Option::Some(p) => Option::Some(
                if p >= d {
                    p
                } else {
                    d
                },
            ),
        },
    }
}

/// Whether `mi` is exactly the model input assembled from coefficient
/// `alpha`, ratings table `pairs`, participants `names` and their
/// `scores`.
pub open spec fn input_matches(
    mi: ModelInput,
    alpha: Scalar,
    pairs: Seq<(Seq<char>, Scalar)>,
    names: Seq<Seq<char>>,
    scores: Seq<int>,
) -> bool {
    &&& mi.alpha == alpha
    &&& views_of_names(mi.players@) == names
    &&& ints_of_scores(mi.scores@) == scores
    &&& mi.ratings@.len() == names.len()
    &&& forall|i: int|
        0 <= i < names.len() ==> Some(#[trigger] mi.ratings@[i]) == spec_lookup(pairs, names[i])
}

/// The exact relation between an evaluation before a change record is
/// folded, the record, the fold's result, and the evaluation after.
///
/// Validation happens strictly before any state is touched, so every
/// failing fold leaves the evaluation as it was.
pub open spec fn step_spec(
    pre: Evaluation,
    c: Change,
    r: Result<Option<ModelInput>, Error>,
    post: Evaluation,
) -> bool {
    match c {
        Change::AddPlayer(a) => {
            &&& r == Ok::<Option<ModelInput>, Error>(None)
            &&& post.alpha == pre.alpha
            &&& post.last_date == pre.last_date
            &&& post.ratings@ == spec_set(pre.ratings@, a.name@, a.rating)
        },
        Change::AdjustAlpha(v) => {
            &&& r == Ok::<Option<ModelInput>, Error>(None)
            &&& post.alpha == v
            &&& post.last_date == pre.last_date
            &&& post.ratings@ == pre.ratings@
        },
        Change::Play(p) => {
            let names = outcome_names(p.outcomes@);
            if p.game_count == 0 {
                r == Err::<Option<ModelInput>, Error>(Error::InvalidInput) && post == pre
            } else if !all_present(pre.ratings@, names) {
                r == Err::<Option<ModelInput>, Error>(Error::MissingPlayer) && post == pre
            } else {
                &&& post.alpha == pre.alpha
                &&& post.ratings@ == pre.ratings@
                &&& post.last_date == max_date(pre.last_date, Some(p.date))
                &&& (r matches Ok(Some(mi)) && input_matches(
                    mi,
                    pre.alpha,
                    pre.ratings@,
                    names,
                    outcome_score_ints(p.outcomes@),
                ) && (mi.task matches ModelTask::ThreeWay { game_count } && game_count
                    == p.game_count))
            }
        },
        Change::Symmetric(s) => {
            let names = outcome_names(s.scores@);
            if !distinct_names(names) {
                r == Err::<Option<ModelInput>, Error>(Error::InvalidInput) && post == pre
            } else if s.scores@.len() < 3 {
                r == Err::<Option<ModelInput>, Error>(Error::DegenerateGroupSize) && post == pre
            } else if s.round_count == 0 {
                r == Err::<Option<ModelInput>, Error>(Error::InvalidInput) && post == pre
            } else if !all_present(pre.ratings@, names) {
                r == Err::<Option<ModelInput>, Error>(Error::MissingPlayer) && post == pre
            } else {
                &&& post.alpha == pre.alpha
                &&& post.ratings@ == pre.ratings@
                &&& post.last_date == max_date(pre.last_date, Some(s.date))
                &&& (r matches Ok(Some(mi)) && input_matches(
                    mi,
                    pre.alpha,
                    pre.ratings@,
                    names,
                    outcome_score_ints(s.scores@),
                ) && (mi.task matches ModelTask::Group { round_count } && round_count
                    == s.round_count))
            }
        },
        Change::Circular(c) => {
            let names = outcome_names(c.outcomes@);
            if c.game_count == 0 {
                r == Err::<Option<ModelInput>, Error>(Error::InvalidInput) && post == pre
            } else if c.outcomes@.len() == 0 {
                r == Err::<Option<ModelInput>, Error>(Error::InvalidInput) && post == pre
            } else if !all_present(pre.ratings@, names) {
                r == Err::<Option<ModelInput>, Error>(Error::MissingPlayer) && post == pre
            } else if circular_matrix(c.outcomes@.len() as int, c.game_count as int) is None {
                r == Err::<Option<ModelInput>, Error>(Error::InvalidInput) && post == pre
            } else {
                &&& post.alpha == pre.alpha
                &&& post.ratings@ == pre.ratings@
                &&& post.last_date == max_date(pre.last_date, Some(c.date))
                &&& (r matches Ok(Some(mi)) && input_matches(
                    mi,
                    pre.alpha,
                    pre.ratings@,
                    names,
                    outcome_score_ints(c.outcomes@),
                ) && (mi.task matches ModelTask::Diffusion { laplacian } && laplacian.wf()
                    && Some(laplacian.model()) == circular_matrix(
                    c.outcomes@.len() as int,
                    c.game_count as int,
                )))
            }
        },
        Change::Arbitrary(a) => {
            let names = outcome_names(a.scores@);
            if !distinct_names(names) {
                r == Err::<Option<ModelInput>, Error>(Error::InvalidInput) && post == pre
            } else if !gcs_known(names, a.game_collections@) {
                r == Err::<Option<ModelInput>, Error>(Error::InvalidInput) && post == pre
            } else if !all_present(pre.ratings@, names) {
                r == Err::<Option<ModelInput>, Error>(Error::MissingPlayer) && post == pre
            } else if arbitrary_matrix(names, a.game_collections@) is None {
                r == Err::<Option<ModelInput>, Error>(Error::InvalidInput) && post == pre
            } else {
                &&& post.alpha == pre.alpha
                &&& post.ratings@ == pre.ratings@
                &&& post.last_date == max_date(pre.last_date, Some(a.date))
                &&& (r matches Ok(Some(mi)) && input_matches(
                    mi,
                    pre.alpha,
                    pre.ratings@,
                    names,
                    outcome_score_ints(a.scores@),
                ) && (mi.task matches ModelTask::Diffusion { laplacian } && laplacian.wf()
                    && Some(laplacian.model()) == arbitrary_matrix(names, a.game_collections@)))
            }
        },
    }
}

/// The ratings table after writing `vals[..k]` to `names[..k]`, in
/// order; a later write to the same name wins.
pub open spec fn write_upto(
    pairs: Seq<(Seq<char>, Scalar)>,
    names: Seq<Seq<char>>,
    vals: Seq<Scalar>,
    k: int,
) -> Seq<(Seq<char>, Scalar)>
    decreases k,
{
    if k <= 0 {
        pairs
    } else {
        spec_set(write_upto(pairs, names, vals, k - 1), names[k - 1], vals[k - 1])
    }
}

/// The ratings table after writing every pair, in order.
pub open spec fn write_pairs(
    pairs: Seq<(Seq<char>, Scalar)>,
    names: Seq<Seq<char>>,
    vals: Seq<Scalar>,
) -> Seq<(Seq<char>, Scalar)> {
    write_upto(pairs, names, vals, names.len() as int)
}

/// The exact relation between an evaluation before a model result is
/// written back, the participants and their new ratings, the
/// write-back's result, and the evaluation after.
pub open spec fn apply_spec(
    pre: Evaluation,
    players: Seq<String>,
    vals: Seq<Scalar>,
    r: Result<(), Error>,
    post: Evaluation,
) -> bool {
    if players.len() != vals.len() {
        r == Err::<(), Error>(Error::InvalidInput) && post == pre
    } else if !all_present(pre.ratings@, views_of_names(players)) {
        r == Err::<(), Error>(Error::MissingPlayer) && post == pre
    } else {
        &&& r == Ok::<(), Error>(())
        &&& post.alpha == pre.alpha
        &&& post.last_date == pre.last_date
        &&& post.ratings@ == write_pairs(pre.ratings@, views_of_names(players), vals)
    }
}

/// All matching keys, in table order.
pub open spec fn matching_keys(keys: Seq<Seq<char>>, pattern: Seq<char>) -> Seq<Seq<char>> {
    keys.filter(|k: Seq<char>| name_matches(k, pattern))
}

/// A point-in-time ratings snapshot: the current decay coefficient,
/// the ratings table, and the latest advisory date seen so far.
#[derive(Debug, PartialEq, Eq)]
pub struct Evaluation {
    pub alpha: Scalar,
    pub ratings: Ratings,
    pub last_date: Option<i64>,
}

impl Evaluation {
    /// The ratings table binds each name at most once.
    pub open spec fn wf(self) -> bool {
        self.ratings.wf()
    }

    /// The empty snapshot at decay coefficient `alpha`.
    pub fn new(alpha: Scalar) -> (r: Evaluation)
        ensures
            r.alpha == alpha,
            r.ratings@ == Seq::<(Seq<char>, Scalar)>::empty(),
            r.last_date is None,
            r.wf(),
    {
        Evaluation { alpha, ratings: Ratings::new(), last_date: None }
    }

    /// The names that `pattern` refers to: the name itself when it is
    /// bound exactly, otherwise every bound name the pattern matches,
    /// in table order.
    pub fn matching_names(&self, pattern: &str) -> (r: Vec<String>)
        ensures
            self.ratings.contains_name(pattern@) ==> r@.len() == 1 && r@[0]@ == pattern@,
            !self.ratings.contains_name(pattern@) ==> views_of_names(r@) == matching_keys(
                self.ratings.key_seq(),
                pattern@,
            ),
    {
        if self.ratings.contains(pattern) {
            let mut r: Vec<String> = Vec::new();
            r.push(String::from_str(pattern));
            return r;
        }
        let n = self.ratings.len();
        let ghost keys = self.ratings.key_seq();
        let mut r: Vec<String> = Vec::new();
        let mut i: usize = 0;
        proof {
            reveal(Seq::filter);
            assert(keys.take(0) =~= Seq::<Seq<char>>::empty());
            assert(views_of_names(r@) =~= matching_keys(keys.take(0), pattern@));
        }
        while i < n
            invariant
                i <= n,
                n == self.ratings@.len(),
                keys == self.ratings.key_seq(),
                views_of_names(r@) == matching_keys(keys.take(i as int), pattern@),
            decreases n - i,
        {
            let name = self.ratings.name_at(i);
            let ghost prior = r@;
            if match_names(name.as_str(), pattern) {
                r.push(name);
            }
            proof {
                reveal(Seq::filter);
                assert(keys.take(i + 1).drop_last() =~= keys.take(i as int));
                assert(keys.take(i + 1).last() == keys[i as int]);
                if name_matches(keys[i as int], pattern@) {
                    assert(views_of_names(r@) =~= views_of_names(prior).push(name@));
                } else {
                    assert(views_of_names(r@) =~= views_of_names(prior));
                }
            }
            i += 1;
        }
        proof {
            assert(keys.take(n as int) =~= keys);
        }
        r
    }

    /// Raises the latest-seen date to `d` if `d` is later.
    fn bump_date(&mut self, d: i64)
        ensures
            final(self).alpha == old(self).alpha,
            final(self).ratings == old(self).ratings,
            final(self).last_date == max_date(old(self).last_date, Some(d)),
    {
        self.last_date = match self.last_date {
            None => Some(d),
            Some(p) => Some(
                if p >= d {
                    p
                } else {
                    d
                },
            ),
        };
    }

    /// The current ratings of `players`, in order; fails when one of
    /// them is not bound.
    fn gather_ratings(&self, players: &Vec<String>) -> (r: Result<Vec<Scalar>, Error>)
        ensures
            match r {
                Ok(v) => {
                    &&& all_present(self.ratings@, views_of_names(players@))
                    &&& v@.len() == players@.len()
                    &&& forall|i: int|
                        0 <= i < players@.len() ==> Some(#[trigger] v@[i]) == spec_lookup(
                            self.ratings@,
                            players@[i]@,
                        )
                },
                Err(e) => e == Error::MissingPlayer && !all_present(
                    self.ratings@,
                    views_of_names(players@),
                ),
            },
    {
        let n = players.len();
        let mut out: Vec<Scalar> = Vec::new();
        let mut i: usize = 0;
        while i < n
            invariant
                i <= n,
                n == players@.len(),
                out@.len() == i,
                forall|k: int|
                    0 <= k < i ==> Some(#[trigger] out@[k]) == spec_lookup(
                        self.ratings@,
                        players@[k]@,
                    ),
            decreases n - i,
        {
            match self.ratings.get(players[i].as_str()) {
                Some(s) => out.push(s),
                None => {
                    proof {
                        assert(views_of_names(players@)[i as int] == players@[i as int]@);
                        assert(!all_present(self.ratings@, views_of_names(players@))) by {
                            if all_present(self.ratings@, views_of_names(players@)) {
                                assert(spec_lookup(
                                    self.ratings@,
                                    views_of_names(players@)[i as int],
                                ) is Some);
                            }
                        }
                    }
                    return Err(Error::MissingPlayer);
                },
            }
            i += 1;
        }
        proof {
            assert forall|k: int|
                0 <= k < players@.len() implies spec_lookup(
                self.ratings@,
                #[trigger] views_of_names(players@)[k],
            ) is Some by {
                assert(views_of_names(players@)[k] == players@[k]@);
                assert(Some(out@[k]) == spec_lookup(self.ratings@, players@[k]@));
            }
        }
        Ok(out)
    }

    /// Folds one change record: registrations and coefficient
    /// adjustments update the snapshot directly; a session record is
    /// validated and handed back as the input of its update model.
    pub fn change(&mut self, change: &Change) -> (r: Result<Option<ModelInput>, Error>)
        requires
            old(self).wf(),
        ensures
            final(self).wf(),
            step_spec(*old(self), *change, r, *final(self)),
    {
        match change {
            Change::AddPlayer(a) => {
                self.ratings.set(a.name.as_str(), a.rating);
                Ok(None)
            },
            Change::AdjustAlpha(v) => {
                self.alpha = *v;
                Ok(None)
            },
            Change::Play(p) => self.prepare_play(p),
            Change::Symmetric(s) => self.prepare_symmetric(s),
            Change::Circular(c) => self.prepare_circular(c),
            Change::Arbitrary(a) => self.prepare_arbitrary(a),
        }
    }

    /// Validates a three-participant session and assembles its model
    /// input.
    fn prepare_play(&mut self, p: &Play) -> (r: Result<Option<ModelInput>, Error>)
        requires
            old(self).wf(),
        ensures
            final(self).wf(),
            step_spec(*old(self), Change::Play(*p), r, *final(self)),
    {
        if p.game_count == 0 {
            return Err(Error::InvalidInput);
        }
        let mut players: Vec<String> = Vec::new();
        players.push(array_index_get(&p.outcomes, 0).player.clone());
        players.push(array_index_get(&p.outcomes, 1).player.clone());
        players.push(array_index_get(&p.outcomes, 2).player.clone());
        let mut scores: Vec<i64> = Vec::new();
        scores.push(array_index_get(&p.outcomes, 0).score);
        scores.push(array_index_get(&p.outcomes, 1).score);
        scores.push(array_index_get(&p.outcomes, 2).score);
        proof {
            assert(views_of_names(players@) =~= outcome_names(p.outcomes@));
            assert(ints_of_scores(scores@) =~= outcome_score_ints(p.outcomes@));
        }
        let ratings = match self.gather_ratings(&players) {
            Ok(v) => v,
            Err(e) => {
                return Err(e);
            },
        };
        self.bump_date(p.date);
        Ok(
            Some(
                ModelInput {
                    alpha: self.alpha,
                    players,
                    ratings,
                    scores,
                    task: ModelTask::ThreeWay { game_count: p.game_count },
                },
            ),
        )
    }

    /// Validates a homogeneous group session and assembles its model
    /// input.
    fn prepare_symmetric(&mut self, s: &Symmetric) -> (r: Result<Option<ModelInput>, Error>)
        requires
            old(self).wf(),
        ensures
            final(self).wf(),
            step_spec(*old(self), Change::Symmetric(*s), r, *final(self)),
    {
        let (players, scores) = split_outcomes(&s.scores);
        if !distinct_players(&players) {
            return Err(Error::InvalidInput);
        }
        if s.scores.len() < 3 {
            return Err(Error::DegenerateGroupSize);
        }
        if s.round_count == 0 {
            return Err(Error::InvalidInput);
        }
        let ratings = match self.gather_ratings(&players) {
            Ok(v) => v,
            Err(e) => {
                return Err(e);
            },
        };
        self.bump_date(s.date);
        Ok(
            Some(
                ModelInput {
                    alpha: self.alpha,
                    players,
                    ratings,
                    scores,
                    task: ModelTask::Group { round_count: s.round_count },
                },
            ),
        )
    }

    /// Validates a cyclic triple-grouping session and assembles its
    /// model input.
    fn prepare_circular(&mut self, c: &Circular) -> (r: Result<Option<ModelInput>, Error>)
        requires
            old(self).wf(),
        ensures
            final(self).wf(),
            step_spec(*old(self), Change::Circular(*c), r, *final(self)),
    {
        if c.game_count == 0 {
            return Err(Error::InvalidInput);
        }
        let len = c.outcomes.len();
        if len == 0 {
            return Err(Error::InvalidInput);
        }
        let (players, scores) = split_outcomes(&c.outcomes);
        let ratings = match self.gather_ratings(&players) {
            Ok(v) => v,
            Err(e) => {
                return Err(e);
            },
        };
        let laplacian = match build_circular_matrix(len, c.game_count) {
            Some(m) => m,
            None => {
                return Err(Error::InvalidInput);
            },
        };
        self.bump_date(c.date);
        Ok(
            Some(
                ModelInput {
                    alpha: self.alpha,
                    players,
                    ratings,
                    scores,
                    task: ModelTask::Diffusion { laplacian },
                },
            ),
        )
    }

    /// Validates a pairwise-graph session and assembles its model
    /// input.
    fn prepare_arbitrary(&mut self, a: &Arbitrary) -> (r: Result<Option<ModelInput>, Error>)
        requires
            old(self).wf(),
        ensures
            final(self).wf(),
            step_spec(*old(self), Change::Arbitrary(*a), r, *final(self)),
    {
        let (players, scores) = split_outcomes(&a.scores);
        if !distinct_players(&players) {
            return Err(Error::InvalidInput);
        }
        if !check_gcs_known(&players, &a.game_collections) {
            return Err(Error::InvalidInput);
        }
        let ratings = match self.gather_ratings(&players) {
            Ok(v) => v,
            Err(e) => {
                return Err(e);
            },
        };
        let laplacian = match build_arbitrary_matrix(&players, &a.game_collections) {
            Some(m) => m,
            None => {
                return Err(Error::InvalidInput);
            },
        };
        self.bump_date(a.date);
        Ok(
            Some(
                ModelInput {
                    alpha: self.alpha,
                    players,
                    ratings,
                    scores,
                    task: ModelTask::Diffusion { laplacian },
                },
            ),
        )
    }

    /// Writes a model's new ratings over its participants' bindings,
    /// in order.  Fails, leaving the snapshot untouched, when the two
    /// sequences disagree in length or a participant is not bound.
    pub fn apply_update(&mut self, players: &Vec<String>, new_ratings: &Vec<Scalar>) -> (r: Result<
        (),
        Error,
    >)
        requires
            old(self).wf(),
        ensures
            final(self).wf(),
            apply_spec(*old(self), players@, new_ratings@, r, *final(self)),
    {
        let n = players.len();
        if n != new_ratings.len() {
            return Err(Error::InvalidInput);
        }
        let mut i: usize = 0;
        while i < n
            invariant
                i <= n,
                n == players@.len(),
                n == new_ratings@.len(),
                *self == *old(self),
                old(self).wf(),
                forall|k: int|
                    0 <= k < i ==> spec_lookup(
                        self.ratings@,
                        #[trigger] views_of_names(players@)[k],
                    ) is Some,
            decreases n - i,
        {
            if !self.ratings.contains(players[i].as_str()) {
                proof {
                    assert(views_of_names(players@)[i as int] == players@[i as int]@);
                    assert(!all_present(self.ratings@, views_of_names(players@))) by {
                        if all_present(self.ratings@, views_of_names(players@)) {
                            assert(spec_lookup(
                                self.ratings@,
                                views_of_names(players@)[i as int],
                            ) is Some);
                        }
                    }
                }
                return Err(Error::MissingPlayer);
            }
            proof {
                assert(views_of_names(players@)[i as int] == players@[i as int]@);
            }
            i += 1;
        }
        let ghost orig = self.ratings@;
        let mut j: usize = 0;
        while j < n
            invariant
                j <= n,
                n == players@.len(),
                n == new_ratings@.len(),
                self.wf(),
                self.alpha == old(self).alpha,
                self.last_date == old(self).last_date,
                orig == old(self).ratings@,
                self.ratings@ == write_upto(orig, views_of_names(players@), new_ratings@, j as int),
            decreases n - j,
        {
            self.ratings.set(players[j].as_str(), new_ratings[j]);
            j += 1;
        }
        Ok(())
    }
}

/// The players and scores of a score list, as parallel vectors.
fn split_outcomes(os: &Vec<Outcome>) -> (r: (Vec<String>, Vec<i64>))
    ensures
        views_of_names(r.0@) == outcome_names(os@),
        ints_of_scores(r.1@) == outcome_score_ints(os@),
        r.0@.len() == os@.len(),
        r.1@.len() == os@.len(),
{
    let n = os.len();
    let mut players: Vec<String> = Vec::new();
    let mut scores: Vec<i64> = Vec::new();
    let mut i: usize = 0;
    while i < n
        invariant
            i <= n,
            n == os@.len(),
            players@.len() == i,
            scores@.len() == i,
            forall|k: int| 0 <= k < i ==> (#[trigger] players@[k])@ == os@[k].player@,
            forall|k: int| 0 <= k < i ==> #[trigger] scores@[k] == os@[k].score,
        decreases n - i,
    {
        players.push(os[i].player.clone());
        scores.push(os[i].score);
        i += 1;
    }
    proof {
        assert(views_of_names(players@) =~= outcome_names(os@));
        assert(ints_of_scores(scores@) =~= outcome_score_ints(os@));
    }
    (players, scores)
}

/// Whether no player name occurs twice.
fn distinct_players(players: &Vec<String>) -> (r: bool)
    ensures
        r == distinct_names(views_of_names(players@)),
{
    let n = players.len();
    let ghost views = views_of_names(players@);
    let mut i: usize = 0;
    while i < n
        invariant
            i <= n,
            n == players@.len(),
            views == views_of_names(players@),
            forall|a: int, b: int| 0 <= a < i && a < b < n ==> views[a] != views[b],
        decreases n - i,
    {
        let mut j: usize = i + 1;
        while j < n
            invariant
                i < j <= n,
                n == players@.len(),
                views == views_of_names(players@),
                forall|b: int| i < b < j ==> views[i as int] != views[b],
            decreases n - j,
        {
            if crate::names::str_eq(players[i].as_str(), players[j].as_str()) {
                proof {
                    assert(views[i as int] == players@[i as int]@);
                    assert(views[j as int] == players@[j as int]@);
                    assert(!distinct_names(views));
                }
                return false;
            }
            proof {
                assert(views[i as int] == players@[i as int]@);
                assert(views[j as int] == players@[j as int]@);
            }
            j += 1;
        }
        i += 1;
    }
    true
}

/// The position of `name` among the players, or their number when it
/// is not among them.
fn find_name(players: &Vec<String>, name: &str) -> (r: usize)
    ensures
        r == name_index(views_of_names(players@), name@),
        r <= players@.len(),
{
    let n = players.len();
    let ghost views = views_of_names(players@);
    let mut i: usize = 0;
    while i < n
        invariant
            i <= n,
            n == players@.len(),
            views == views_of_names(players@),
            forall|k: int| 0 <= k < i ==> views[k] != name@,
        decreases n - i,
    {
        if crate::names::str_eq(players[i].as_str(), name) {
            proof {
                assert(views[i as int] == players@[i as int]@);
                lemma_name_index(views, name@);
                let ni = name_index(views, name@);
                if ni < i as int {
                    assert(views[ni] != name@);
                }
                assert(ni == i as int);
            }
            return i;
        }
        proof {
            assert(views[i as int] == players@[i as int]@);
        }
        i += 1;
    }
    proof {
        lemma_name_index(views, name@);
        let ni = name_index(views, name@);
        if ni < n as int {
            assert(views[ni] == name@);
        }
        assert(ni == n as int);
    }
    n
}

/// Whether every edge names two listed players.
fn check_gcs_known(players: &Vec<String>, gcs: &Vec<GameCollection>) -> (r: bool)
    ensures
        r == gcs_known(views_of_names(players@), gcs@),
{
    let n = gcs.len();
    let ghost views = views_of_names(players@);
    let mut i: usize = 0;
    while i < n
        invariant
            i <= n,
            n == gcs@.len(),
            views == views_of_names(players@),
            forall|k: int|
                0 <= k < i ==> name_index(views, (#[trigger] gcs@[k]).players[0]@) < views.len()
                    && name_index(views, gcs@[k].players[1]@) < views.len(),
        decreases n - i,
    {
        let gc = &gcs[i];
        let i0 = find_name(players, array_index_get(&gc.players, 0).as_str());
        let i1 = find_name(players, array_index_get(&gc.players, 1).as_str());
        if i0 >= players.len() || i1 >= players.len() {
            proof {
                assert(!gcs_known(views, gcs@)) by {
                    if gcs_known(views, gcs@) {
                        assert(name_index(views, (gcs@[i as int]).players[0]@) < views.len()
                            && name_index(views, gcs@[i as int].players[1]@) < views.len());
                    }
                }
            }
            return false;
        }
        i += 1;
    }
    true
}

/// Accumulates the synthesized cyclic matrix, or reports the round at
/// which a weight left the 64-bit range.
fn build_circular_matrix(len: usize, game_count: usize) -> (r: Option<IntMatrix>)
    requires
        len > 0,
    ensures
        match r {
            Some(m) => m.wf() && m.dim() == len && Some(m.model()) == circular_matrix(
                len as int,
                game_count as int,
            ),
            None => circular_matrix(len as int, game_count as int) is None,
        },
{
    let mut m = zero_matrix(len);
    let mut round: usize = 0;
    while round < game_count
        invariant
            round <= game_count,
            len > 0,
            m.wf(),
            m.dim() == len,
            Some(m.model()) == circ_matrix_upto(len as int, round as int),
        decreases game_count - round,
    {
        let ghost start = m.model();
        let mut s: usize = 0;
        while s < 9
            invariant
                s <= 9,
                len > 0,
                round < game_count,
                m.wf(),
                m.dim() == len,
                Some(start) == circ_matrix_upto(len as int, round as int),
                circ_round_upto(start, round as int, len as int, s as int) == Some(m.model()),
            decreases 9 - s,
        {
            let d0 = s / 3;
            let d1 = s % 3;
            let j0w: u128 = ((round as u128) + (d0 as u128)) % (len as u128);
            let j1w: u128 = ((round as u128) + (d1 as u128)) % (len as u128);
            let j0 = j0w as usize;
            let j1 = j1w as usize;
            proof {
                assert(j0w < len as u128);
                assert(j1w < len as u128);
                assert(j0 as int == ((round as int) + (d0 as int)) % (len as int));
                assert(j1 as int == ((round as int) + (d1 as int)) % (len as int));
            }
            let delta: i128 = if j0 == j1 {
                -2
            } else {
                1
            };
            let ghost before = m.model();
            if !mat_add_exec(&mut m, j0, j1, delta) {
                proof {
                    assert(circ_round_upto(start, round as int, len as int, s + 1) is None);
                    lemma_circ_round_none_propagates(start, round as int, len as int, s + 1, 9);
                    assert(circ_matrix_upto(len as int, round + 1) is None);
                    lemma_circ_none_propagates(len as int, round + 1, game_count as int);
                }
                return None;
            }
            proof {
                assert(circ_round_upto(start, round as int, len as int, s + 1) == Some(
                    m.model(),
                ));
            }
            s += 1;
        }
        proof {
            assert(circ_matrix_upto(len as int, round + 1) == Some(m.model()));
        }
        round += 1;
    }
    Some(m)
}

/// Accumulates the graph Laplacian of a pairwise-graph session, or
/// reports that a weight left the 64-bit range.
fn build_arbitrary_matrix(players: &Vec<String>, gcs: &Vec<GameCollection>) -> (r: Option<
    IntMatrix,
>)
    requires
        gcs_known(views_of_names(players@), gcs@),
    ensures
        match r {
            Some(m) => m.wf() && m.dim() == players@.len() && Some(m.model()) == arbitrary_matrix(
                views_of_names(players@),
                gcs@,
            ),
            None => arbitrary_matrix(views_of_names(players@), gcs@) is None,
        },
{
    let ghost views = views_of_names(players@);
    let n = players.len();
    let ngc = gcs.len();
    let mut m = zero_matrix(n);
    let mut k: usize = 0;
    while k < ngc
        invariant
            k <= ngc,
            ngc == gcs@.len(),
            n == players@.len(),
            views == views_of_names(players@),
            gcs_known(views, gcs@),
            m.wf(),
            m.dim() == n,
            Some(m.model()) == arb_matrix_upto(views, gcs@, k as int),
        decreases ngc - k,
    {
        let gc = &gcs[k];
        let i0 = find_name(players, array_index_get(&gc.players, 0).as_str());
        let i1 = find_name(players, array_index_get(&gc.players, 1).as_str());
        proof {
            assert(name_index(views, (gcs@[k as int]).players[0]@) < views.len() && name_index(
                views,
                gcs@[k as int].players[1]@,
            ) < views.len());
        }
        let g: i128 = gc.game_count as i128;
        let ghost m0 = m.model();
        if !mat_add_exec(&mut m, i0, i1, g) {
            proof {
                assert(gc_step(m0, views, gcs@[k as int]) is None);
                assert(arb_matrix_upto(views, gcs@, k + 1) is None);
                lemma_arb_none_propagates(views, gcs@, k + 1, ngc as int);
            }
            return None;
        }
        let ghost m1 = m.model();
        if !mat_add_exec(&mut m, i1, i0, g) {
            proof {
                assert(gc_step(m0, views, gcs@[k as int]) is None);
                assert(arb_matrix_upto(views, gcs@, k + 1) is None);
                lemma_arb_none_propagates(views, gcs@, k + 1, ngc as int);
            }
            return None;
        }
        let ghost m2 = m.model();
        if !mat_add_exec(&mut m, i0, i0, -g) {
            proof {
                assert(gc_step(m0, views, gcs@[k as int]) is None);
                assert(arb_matrix_upto(views, gcs@, k + 1) is None);
                lemma_arb_none_propagates(views, gcs@, k + 1, ngc as int);
            }
            return None;
        }
        let ghost m3 = m.model();
        if !mat_add_exec(&mut m, i1, i1, -g) {
            proof {
                assert(gc_step(m0, views, gcs@[k as int]) is None);
                assert(arb_matrix_upto(views, gcs@, k + 1) is None);
                lemma_arb_none_propagates(views, gcs@, k + 1, ngc as int);
            }
            return None;
        }
        proof {
            assert(gc_step(m0, views, gcs@[k as int]) == Some(m.model()));
            assert(arb_matrix_upto(views, gcs@, k + 1) == Some(m.model()));
        }
        k += 1;
    }
    Some(m)
}

impl Data {
    /// The empty snapshot this history's replay starts from.
    pub fn starting_evaluation(&self) -> (r: Evaluation)
        ensures
            r.alpha == self.config.starting_alpha,
            r.ratings@ == Seq::<(Seq<char>, Scalar)>::empty(),
            r.last_date is None,
            r.wf(),
    {
        Evaluation::new(self.config.starting_alpha)
    }
}

} // verus!
