//! The replay model and the laws that hold of it.
//!
//! Replaying a history is a pure fold.  The verified fold steps —
//! [`Evaluation::change`](crate::evaluation::Evaluation::change) and
//! [`Evaluation::apply_update`](crate::evaluation::Evaluation::apply_update)
//! — carry relational contracts; this module gives the fold a single
//! functional definition, [`replay_model`], proves that the contracts
//! follow it exactly, and states the laws of the ledger over it.  The
//! update formulas themselves run on numbers outside the verified
//! core, so the fold takes their results as an explicit sequence of
//! answers: everything else about an evaluation is a function of the
//! history, the starting coefficient and those answers alone.

use crate::change::Change;
use crate::evaluation::{
    all_present, apply_spec, arbitrary_matrix, circular_matrix, distinct_names, gcs_known,
    input_matches, ints_of_scores, max_date, outcome_names, outcome_score_ints, step_spec,
    views_of_names, write_pairs, Evaluation, ModelInput, ModelTask,
};
use crate::ratings::{spec_lookup, spec_set};
use crate::{Error, Scalar};
use vstd::prelude::*;

verus! {

/// The mathematical content of a snapshot: the decay coefficient, the
/// name-to-rating bindings in table order, and the latest date seen.
pub ghost struct EvalModel {
    pub alpha: Scalar,
    pub ratings: Seq<(Seq<char>, Scalar)>,
    pub last_date: Option<i64>,
}

impl Evaluation {
    /// The snapshot's mathematical content.
    pub open spec fn model(self) -> EvalModel {
        EvalModel { alpha: self.alpha, ratings: self.ratings@, last_date: self.last_date }
    }
}

/// The update model a session record calls for, mathematically.
pub ghost enum TaskModel {
    ThreeWay { game_count: nat },
    Group { round_count: nat },
    Diffusion { laplacian: Seq<Seq<int>> },
}

/// The complete input of one update-model invocation, mathematically.
pub ghost struct UpdateCall {
    pub alpha: Scalar,
    pub names: Seq<Seq<char>>,
    pub ratings: Seq<Scalar>,
    pub scores: Seq<int>,
    pub task: TaskModel,
}

/// The current ratings of `names`, in order, read from `pairs`.
pub open spec fn gathered(pairs: Seq<(Seq<char>, Scalar)>, names: Seq<Seq<char>>) -> Seq<Scalar> {
    Seq::new(names.len(), |i: int| spec_lookup(pairs, names[i])->Some_0)
}

/// The snapshot with its latest date raised to `d`.
pub open spec fn bumped(pre: EvalModel, d: i64) -> EvalModel {
    EvalModel { alpha: pre.alpha, ratings: pre.ratings, last_date: max_date(pre.last_date, Some(d)) }
}

/// Folding one change record, mathematically: the successor snapshot
/// and, for a session record, the update-model invocation it asks for.
pub open spec fn step_model(pre: EvalModel, c: Change) -> Result<
    (EvalModel, Option<UpdateCall>),
    Error,
> {
    match c {
        Change::AddPlayer(a) => Ok(
            (
                EvalModel {
                    alpha: pre.alpha,
                    ratings: spec_set(pre.ratings, a.name@, a.rating),
                    last_date: pre.last_date,
                },
                None,
            ),
        ),
        Change::AdjustAlpha(v) => Ok(
            (EvalModel { alpha: v, ratings: pre.ratings, last_date: pre.last_date }, None),
        ),
        Change::Play(p) => {
            let names = outcome_names(p.outcomes@);
            if p.game_count == 0 {
                Err(Error::InvalidInput)
            } else if !all_present(pre.ratings, names) {
                Err(Error::MissingPlayer)
            } else {
                Ok(
                    (
                        bumped(pre, p.date),
                        Some(
                            UpdateCall {
                                alpha: pre.alpha,
                                names,
                                ratings: gathered(pre.ratings, names),
                                scores: outcome_score_ints(p.outcomes@),
                                task: TaskModel::ThreeWay { game_count: p.game_count as nat },
                            },
                        ),
                    ),
                )
            }
        },
        Change::Symmetric(s) => {
            let names = outcome_names(s.scores@);
            if !distinct_names(names) {
                Err(Error::InvalidInput)
            } else if s.scores@.len() < 3 {
                Err(Error::DegenerateGroupSize)
            } else if s.round_count == 0 {
                Err(Error::InvalidInput)
            } else if !all_present(pre.ratings, names) {
                Err(Error::MissingPlayer)
            } else {
                Ok(
                    (
                        bumped(pre, s.date),
                        Some(
                            UpdateCall {
                                alpha: pre.alpha,
                                names,
                                ratings: gathered(pre.ratings, names),
                                scores: outcome_score_ints(s.scores@),
                                task: TaskModel::Group { round_count: s.round_count as nat },
                            },
                        ),
                    ),
                )
            }
        },
        Change::Circular(c) => {
            let names = outcome_names(c.outcomes@);
            if c.game_count == 0 {
                Err(Error::InvalidInput)
            } else if c.outcomes@.len() == 0 {
                Err(Error::InvalidInput)
            } else if !all_present(pre.ratings, names) {
                Err(Error::MissingPlayer)
            } else if circular_matrix(c.outcomes@.len() as int, c.game_count as int) is None {
                Err(Error::InvalidInput)
            } else {
                Ok(
                    (
                        bumped(pre, c.date),
                        Some(
                            UpdateCall {
                                alpha: pre.alpha,
                                names,
                                ratings: gathered(pre.ratings, names),
                                scores: outcome_score_ints(c.outcomes@),
                                task: TaskModel::Diffusion {
                                    laplacian: circular_matrix(
                                        c.outcomes@.len() as int,
                                        c.game_count as int,
                                    )->Some_0,
                                },
                            },
                        ),
                    ),
                )
            }
        },
        Change::Arbitrary(a) => {
            let names = outcome_names(a.scores@);
            if !distinct_names(names) {
                Err(Error::InvalidInput)
            } else if !gcs_known(names, a.game_collections@) {
                Err(Error::InvalidInput)
            } else if !all_present(pre.ratings, names) {
                Err(Error::MissingPlayer)
            } else if arbitrary_matrix(names, a.game_collections@) is None {
                Err(Error::InvalidInput)
            } else {
                Ok(
                    (
                        bumped(pre, a.date),
                        Some(
                            UpdateCall {
                                alpha: pre.alpha,
                                names,
                                ratings: gathered(pre.ratings, names),
                                scores: outcome_score_ints(a.scores@),
                                task: TaskModel::Diffusion {
                                    laplacian: arbitrary_matrix(names, a.game_collections@)->Some_0,
                                },
                            },
                        ),
                    ),
                )
            }
        },
    }
}

/// Writing an update model's answer back, mathematically.
pub open spec fn apply_model(pre: EvalModel, names: Seq<Seq<char>>, vals: Seq<Scalar>) -> Result<
    EvalModel,
    Error,
> {
    if names.len() != vals.len() {
        Err(Error::InvalidInput)
    } else if !all_present(pre.ratings, names) {
        Err(Error::MissingPlayer)
    } else {
        Ok(
            EvalModel {
                alpha: pre.alpha,
                ratings: write_pairs(pre.ratings, names, vals),
                last_date: pre.last_date,
            },
        )
    }
}

/// Replaying a history from a starting snapshot: a pure fold.  The
/// update models' numeric results are taken as the explicit sequence
/// `answers`, consumed one per session record; a missing answer counts
/// as invalid input.
pub open spec fn replay_model(
    history: Seq<Change>,
    start: EvalModel,
    answers: Seq<Seq<Scalar>>,
) -> Result<EvalModel, Error>
    decreases history.len(),
{
    if history.len() == 0 {
        Ok(start)
    } else {
        match step_model(start, history[0]) {
            Err(e) => Err(e),
            Ok((next, opt)) => match opt {
                None => replay_model(history.drop_first(), next, answers),
                Some(call) => {
                    if answers.len() == 0 {
                        Err(Error::InvalidInput)
                    } else {
                        match apply_model(next, call.names, answers[0]) {
                            Err(e) => Err(e),
                            Ok(applied) => replay_model(
                                history.drop_first(),
                                applied,
                                answers.drop_first(),
                            ),
                        }
                    }
                },
            },
        }
    }
}

/// Whether an assembled model input is exactly an invocation of the
/// mathematical model.
pub open spec fn input_matches_call(mi: ModelInput, call: UpdateCall) -> bool {
    &&& mi.alpha == call.alpha
    &&& views_of_names(mi.players@) == call.names
    &&& mi.ratings@ == call.ratings
    &&& ints_of_scores(mi.scores@) == call.scores
    &&& match (mi.task, call.task) {
        (ModelTask::ThreeWay { game_count }, TaskModel::ThreeWay { game_count: g }) => game_count
            as nat == g,
        (ModelTask::Group { round_count }, TaskModel::Group { round_count: g }) => round_count
            as nat == g,
        (ModelTask::Diffusion { laplacian }, TaskModel::Diffusion { laplacian: l }) => laplacian.wf()
            && laplacian.model() == l,
        _ => false,
    }
}

/// The fold step's relational contract follows the mathematical fold:
/// whatever `Evaluation::change` promises of a result and a successor
/// snapshot is exactly what `step_model` computes.
pub proof fn lemma_step_follows_model(
    pre: Evaluation,
    c: Change,
    r: Result<Option<ModelInput>, Error>,
    post: Evaluation,
)
    requires
        step_spec(pre, c, r, post),
    ensures
        match step_model(pre.model(), c) {
            Err(e) => r == Err::<Option<ModelInput>, Error>(e) && post.model() == pre.model(),
            Ok((next, opt)) => {
                &&& post.model() == next
                &&& match opt {
                    None => r == Ok::<Option<ModelInput>, Error>(None),
                    Some(call) => r matches Ok(Some(mi)) && input_matches_call(mi, call),
                }
            },
        },
{
    match c {
        Change::AddPlayer(_) => {
        },
        Change::AdjustAlpha(_) => {
        },
        Change::Play(p) => {
            lemma_session_follows(pre, c, r, post);
        },
        Change::Symmetric(_) => {
            lemma_session_follows(pre, c, r, post);
        },
        Change::Circular(_) => {
            lemma_session_follows(pre, c, r, post);
        },
        Change::Arbitrary(_) => {
            lemma_session_follows(pre, c, r, post);
        },
    }
}

/// The session-record cases of [`lemma_step_follows_model`]: where the
/// step succeeds, the assembled input matches the mathematical call.
proof fn lemma_session_follows(
    pre: Evaluation,
    c: Change,
    r: Result<Option<ModelInput>, Error>,
    post: Evaluation,
)
    requires
        step_spec(pre, c, r, post),
        c is Play || c is Symmetric || c is Circular || c is Arbitrary,
    ensures
        match step_model(pre.model(), c) {
            Err(e) => r == Err::<Option<ModelInput>, Error>(e) && post.model() == pre.model(),
            Ok((next, opt)) => {
                &&& post.model() == next
                &&& match opt {
                    None => r == Ok::<Option<ModelInput>, Error>(None),
                    Some(call) => r matches Ok(Some(mi)) && input_matches_call(mi, call),
                }
            },
        },
{
    if step_model(pre.model(), c) is Ok {
        let (next, opt) = step_model(pre.model(), c)->Ok_0;
        if opt is Some {
            let call = opt->Some_0;
            let mi = r->Ok_0->Some_0;
            assert(input_matches(mi, pre.alpha, pre.ratings@, call.names, call.scores));
            assert(mi.ratings@ =~= gathered(pre.ratings@, call.names));
        }
    }
}

/// Determinism of replay: an evaluation is a function of the history,
/// the starting snapshot and the update models' answers alone, so
/// replaying the same history twice with the same answers yields the
/// same snapshot.
pub proof fn lemma_replay_deterministic(
    h1: Seq<Change>,
    h2: Seq<Change>,
    start1: EvalModel,
    start2: EvalModel,
    answers1: Seq<Seq<Scalar>>,
    answers2: Seq<Seq<Scalar>>,
)
    requires
        h1 == h2,
        start1 == start2,
        answers1 == answers2,
    ensures
        replay_model(h1, start1, answers1) == replay_model(h2, start2, answers2),
{
}

/// Undo inverts append: appending any record to a history and then
/// removing the last record restores the history exactly, and with it
/// every replayed evaluation.
pub proof fn lemma_undo_inverts_append(
    h: Seq<Change>,
    c: Change,
    start: EvalModel,
    answers: Seq<Seq<Scalar>>,
)
    ensures
        h.push(c).drop_last() == h,
        replay_model(h.push(c).drop_last(), start, answers) == replay_model(h, start, answers),
{
    assert(h.push(c).drop_last() =~= h);
}

} // verus!
