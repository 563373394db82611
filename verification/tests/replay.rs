//! End-to-end replay tests: the verified fold drives the numeric
//! update models, evaluated here on IEEE doubles.

use nalgebra::{DMatrix, DVector};
use ultira::change::{AddPlayer, Arbitrary, Change, Circular, GameCollection, Outcome, Play, Symmetric};
use ultira::evaluation::{Evaluation, ModelInput, ModelTask};
use ultira::ledger::{Config, Data};
use ultira::{Error, Scalar};

fn sc(x: f64) -> Scalar {
    Scalar { bits: x.to_bits() }
}

fn fs(s: Scalar) -> f64 {
    f64::from_bits(s.bits)
}

fn config() -> Config {
    Config { spread: sc(50.0), base_rating: sc(100.0), starting_alpha: sc(0.02) }
}

fn outcome(name: &str, score: i64) -> Outcome {
    Outcome { player: name.to_string(), score }
}

/// The three-participant zero-sum decay step: a convex blend between
/// the prior rating and the target `avg_rating + avg_score`, decayed
/// geometrically over the games.
fn update3(alpha: f64, games: usize, rating: f64, avg_rating: f64, avg_score: f64) -> f64 {
    let keep = (1.0 - alpha).powi(games as i32);
    (rating - avg_rating - avg_score) * keep + avg_rating + avg_score
}

/// The homogeneous group decay step.
fn update_n(
    alpha: f64,
    rounds: f64,
    rating: f64,
    avg_rating: f64,
    total_score: f64,
    player_count: f64,
) -> f64 {
    let offset = avg_rating + 3.0 / player_count / (player_count - 2.0) * total_score;
    (rating - offset) * (-player_count * (player_count - 2.0) / 3.0 * alpha * rounds).exp() + offset
}

/// The graph-diffusion closed form.
fn update_generic(
    alpha: f64,
    laplacian: DMatrix<f64>,
    start: DVector<f64>,
    scores: DVector<f64>,
    eps: f64,
) -> Result<DVector<f64>, &'static str> {
    let steady = -3.0 * laplacian.clone().pseudo_inverse(eps)? * scores;
    Ok((laplacian * alpha / 3.0).exp() * (start - steady.clone()) + steady)
}

/// Evaluates one model invocation assembled by the verified fold.
fn run_model(input: &ModelInput) -> Result<Vec<Scalar>, Error> {
    let alpha = fs(input.alpha);
    let ratings: Vec<f64> = input.ratings.iter().map(|s| fs(*s)).collect();
    let n = ratings.len();
    let new_ratings: Vec<f64> = match &input.task {
        ModelTask::ThreeWay { game_count } => {
            let avg = ratings.iter().sum::<f64>() / 3.0;
            (0..n)
                .map(|i| {
                    let avg_score = input.scores[i] as f64 / *game_count as f64;
                    update3(alpha, *game_count, ratings[i], avg, avg_score)
                })
                .collect()
        }
        ModelTask::Group { round_count } => {
            let count = n as f64;
            let avg = ratings.iter().sum::<f64>() / count;
            (0..n)
                .map(|i| {
                    update_n(alpha, *round_count as f64, ratings[i], avg, input.scores[i] as f64, count)
                })
                .collect()
        }
        ModelTask::Diffusion { laplacian } => {
            let lap = DMatrix::from_fn(n, n, |i, j| laplacian.rows[i][j] as f64);
            let start = DVector::from_iterator(n, ratings.iter().copied());
            let scores = DVector::from_iterator(n, input.scores.iter().map(|s| *s as f64));
            let out = update_generic(alpha, lap, start, scores, 1e-6)
                .map_err(|_| Error::SingularSystem)?;
            out.iter().copied().collect()
        }
    };
    for r in &new_ratings {
        assert!(r.is_finite());
    }
    Ok(new_ratings.into_iter().map(sc).collect())
}

/// Replays the whole history, the verified fold deciding and the
/// numeric models answering.
fn evaluate(data: &Data) -> Result<Evaluation, Error> {
    let mut eval = data.starting_evaluation();
    for change in data.history.iter() {
        match eval.change(change)? {
            None => {}
            Some(input) => {
                let answer = run_model(&input)?;
                eval.apply_update(&input.players, &answer)?;
            }
        }
    }
    Ok(eval)
}

fn rating_of(eval: &Evaluation, name: &str) -> f64 {
    fs(eval.ratings.get(name).expect("rating should be bound"))
}

fn base_history() -> Data {
    let mut data = Data { config: config(), history: Vec::new() };
    data.add_player("Anna".to_string(), sc(0.0));
    data.add_player("Bert".to_string(), sc(0.0));
    data.add_player("Cili".to_string(), sc(0.0));
    data
}

#[test]
fn concrete_play_scenario() {
    // Default configuration, three fresh players, one session of one
    // game at decay coefficient 0.1: internal ratings 0.4 / -0.2 /
    // -0.2, display ratings 120 / 90 / 90.
    let mut data = base_history();
    data.adjust_alpha(sc(0.1));
    data.play(Play {
        game_count: 1,
        date: 738000,
        outcomes: [outcome("Anna", 4), outcome("Bert", -2), outcome("Cili", -2)],
    });
    let eval = evaluate(&data).unwrap();
    assert_eq!(fs(eval.alpha), 0.1);
    assert_eq!(eval.last_date, Some(738000));
    let a = rating_of(&eval, "Anna");
    let b = rating_of(&eval, "Bert");
    let c = rating_of(&eval, "Cili");
    assert!((a - 0.4).abs() < 1e-4);
    assert!((b + 0.2).abs() < 1e-4);
    assert!((c + 0.2).abs() < 1e-4);
    let spread = fs(data.config.spread);
    let base = fs(data.config.base_rating);
    assert!((a * spread + base - 120.0).abs() < 1e-2);
    assert!((b * spread + base - 90.0).abs() < 1e-2);
    assert!((c * spread + base - 90.0).abs() < 1e-2);
}

#[test]
fn evaluation_is_deterministic() {
    let mut data = base_history();
    data.add_player("Dani".to_string(), sc(0.3));
    data.adjust_alpha(sc(0.15));
    data.play(Play {
        game_count: 3,
        date: 738010,
        outcomes: [outcome("Anna", 5), outcome("Bert", -2), outcome("Cili", -3)],
    });
    data.symmetric(Symmetric {
        date: 738011,
        scores: vec![outcome("Anna", 2), outcome("Bert", -1), outcome("Cili", 0), outcome("Dani", -1)],
        round_count: 2,
    });
    data.circular(Circular {
        date: 738012,
        outcomes: vec![outcome("Anna", 1), outcome("Bert", 0), outcome("Cili", -1), outcome("Dani", 0)],
        game_count: 2,
    });
    data.arbitrary(Arbitrary {
        date: 738009,
        scores: vec![outcome("Anna", 2), outcome("Bert", -2)],
        game_collections: vec![GameCollection {
            players: ["Anna".to_string(), "Bert".to_string()],
            game_count: 4,
        }],
    });
    let first = evaluate(&data).unwrap();
    let second = evaluate(&data).unwrap();
    assert_eq!(first, second);
    // The advisory dates may regress in the history; the snapshot
    // keeps their maximum.
    assert_eq!(first.last_date, Some(738012));
}

#[test]
fn zero_sum_play_conserves_rating_mass() {
    let mut data = Data { config: config(), history: Vec::new() };
    data.add_player("Anna".to_string(), sc(1.25));
    data.add_player("Bert".to_string(), sc(-0.5));
    data.add_player("Cili".to_string(), sc(2.0));
    data.adjust_alpha(sc(0.37));
    data.play(Play {
        game_count: 4,
        date: 1,
        outcomes: [outcome("Anna", 6), outcome("Bert", -2), outcome("Cili", -4)],
    });
    let eval = evaluate(&data).unwrap();
    let sum = rating_of(&eval, "Anna") + rating_of(&eval, "Bert") + rating_of(&eval, "Cili");
    assert!((sum - (1.25 - 0.5 + 2.0)).abs() < 1e-9);
}

#[test]
fn play_update_stays_between_rating_and_target() {
    let mut data = Data { config: config(), history: Vec::new() };
    let ratings = [1.0, 2.0, -0.5];
    let scores: [i64; 3] = [3, -1, -2];
    data.add_player("Anna".to_string(), sc(ratings[0]));
    data.add_player("Bert".to_string(), sc(ratings[1]));
    data.add_player("Cili".to_string(), sc(ratings[2]));
    data.adjust_alpha(sc(0.3));
    let games = 2;
    data.play(Play {
        game_count: games,
        date: 1,
        outcomes: [outcome("Anna", scores[0]), outcome("Bert", scores[1]), outcome("Cili", scores[2])],
    });
    let eval = evaluate(&data).unwrap();
    let avg = (ratings[0] + ratings[1] + ratings[2]) / 3.0;
    for (i, name) in ["Anna", "Bert", "Cili"].iter().enumerate() {
        let new = rating_of(&eval, name);
        let target = avg + scores[i] as f64 / games as f64;
        let lo = ratings[i].min(target) - 1e-12;
        let hi = ratings[i].max(target) + 1e-12;
        assert!(lo <= new && new <= hi);
    }
}

#[test]
fn diffusion_converges_to_steady_state() {
    // A connected two-node graph driven for a long effective time
    // converges to the steady state regardless of the starting
    // ratings (the shared mean, which diffusion conserves, is equal
    // in both runs).  For the edge weight 5 and scores +5/-5 the
    // steady state is +1.5/-1.5.
    let mut results = Vec::new();
    for starts in [[1.0, -1.0], [7.25, -7.25]] {
        let mut data = Data { config: config(), history: Vec::new() };
        data.add_player("Anna".to_string(), sc(starts[0]));
        data.add_player("Bert".to_string(), sc(starts[1]));
        data.adjust_alpha(sc(30.0));
        data.arbitrary(Arbitrary {
            date: 1,
            scores: vec![outcome("Anna", 5), outcome("Bert", -5)],
            game_collections: vec![GameCollection {
                players: ["Anna".to_string(), "Bert".to_string()],
                game_count: 5,
            }],
        });
        let eval = evaluate(&data).unwrap();
        results.push([rating_of(&eval, "Anna"), rating_of(&eval, "Bert")]);
    }
    for r in &results {
        assert!((r[0] - 1.5).abs() < 1e-6);
        assert!((r[1] + 1.5).abs() < 1e-6);
    }
    assert!((results[0][0] - results[1][0]).abs() < 1e-6);
    assert!((results[0][1] - results[1][1]).abs() < 1e-6);
}

#[test]
fn symmetric_group_size_guard() {
    let mut eval = Evaluation::new(sc(0.1));
    for name in ["Anna", "Bert", "Cili"] {
        eval.change(&Change::AddPlayer(AddPlayer { name: name.to_string(), rating: sc(0.0) }))
            .unwrap();
    }
    let two = Symmetric {
        date: 1,
        scores: vec![outcome("Anna", 1), outcome("Bert", -1)],
        round_count: 1,
    };
    assert_eq!(eval.change(&Change::Symmetric(two)), Err(Error::DegenerateGroupSize));
    let three = Symmetric {
        date: 1,
        scores: vec![outcome("Anna", 1), outcome("Bert", -1), outcome("Cili", 0)],
        round_count: 1,
    };
    let pending = eval.change(&Change::Symmetric(three)).unwrap();
    assert!(pending.is_some());
}

#[test]
fn symmetric_three_players_settles() {
    let mut data = base_history();
    data.adjust_alpha(sc(0.05));
    data.symmetric(Symmetric {
        date: 2,
        scores: vec![outcome("Anna", 3), outcome("Bert", -1), outcome("Cili", -2)],
        round_count: 2,
    });
    let eval = evaluate(&data).unwrap();
    // Zero-sum scores leave the rating mass unchanged here as well.
    let sum = rating_of(&eval, "Anna") + rating_of(&eval, "Bert") + rating_of(&eval, "Cili");
    assert!(sum.abs() < 1e-9);
    // For three players over two rounds at coefficient 0.05, a player
    // at rating 0 with total score s moves to (avg + s)(1 - e^(-0.1)).
    let factor = 1.0 - (-0.1_f64).exp();
    assert!((rating_of(&eval, "Anna") - 3.0 * factor).abs() < 1e-12);
    assert!((rating_of(&eval, "Bert") + 1.0 * factor).abs() < 1e-12);
    assert!((rating_of(&eval, "Cili") + 2.0 * factor).abs() < 1e-12);
}

#[test]
fn empty_history_evaluates_to_the_starting_snapshot() {
    let data = Data { config: config(), history: Vec::new() };
    let eval = evaluate(&data).unwrap();
    assert_eq!(fs(eval.alpha), 0.02);
    assert_eq!(eval.ratings.len(), 0);
    assert_eq!(eval.last_date, None);
}

#[test]
fn undo_restores_history_and_evaluation() {
    let mut data = base_history();
    data.adjust_alpha(sc(0.2));
    data.play(Play {
        game_count: 1,
        date: 5,
        outcomes: [outcome("Anna", 2), outcome("Bert", -1), outcome("Cili", -1)],
    });
    let history_before = data.history.clone();
    let eval_before = evaluate(&data).unwrap();
    data.play(Play {
        game_count: 2,
        date: 6,
        outcomes: [outcome("Anna", -3), outcome("Bert", 2), outcome("Cili", 1)],
    });
    data.undo().unwrap();
    assert_eq!(data.history, history_before);
    let eval_after = evaluate(&data).unwrap();
    assert_eq!(eval_before, eval_after);
}

#[test]
fn rename_keeps_rating_values() {
    let mut data = Data { config: config(), history: Vec::new() };
    data.add_player("Abe".to_string(), sc(0.0));
    data.add_player("Bert".to_string(), sc(0.0));
    data.add_player("Cili".to_string(), sc(0.0));
    data.adjust_alpha(sc(0.1));
    data.play(Play {
        game_count: 1,
        date: 9,
        outcomes: [outcome("Abe", 4), outcome("Bert", -2), outcome("Cili", -2)],
    });
    let before = evaluate(&data).unwrap();
    let abe = before.ratings.get("Abe").unwrap();
    data.rename("Abe", "Abraham").unwrap();
    let after = evaluate(&data).unwrap();
    assert_eq!(after.ratings.get("Abe"), None);
    assert_eq!(after.ratings.get("Abraham"), Some(abe));
    assert_eq!(after.ratings.get("Bert"), before.ratings.get("Bert"));
    assert_eq!(after.ratings.get("Cili"), before.ratings.get("Cili"));
}

#[test]
fn missing_player_aborts_evaluation() {
    let mut data = base_history();
    data.play(Play {
        game_count: 1,
        date: 1,
        outcomes: [outcome("Anna", 1), outcome("Ghost", -1), outcome("Cili", 0)],
    });
    assert_eq!(evaluate(&data), Err(Error::MissingPlayer));
}

#[test]
fn zero_game_count_is_invalid() {
    let mut data = base_history();
    data.play(Play {
        game_count: 0,
        date: 1,
        outcomes: [outcome("Anna", 1), outcome("Bert", -1), outcome("Cili", 0)],
    });
    assert_eq!(evaluate(&data), Err(Error::InvalidInput));
}

#[test]
fn repeated_name_in_score_map_is_invalid() {
    let mut data = base_history();
    data.symmetric(Symmetric {
        date: 1,
        scores: vec![outcome("Anna", 1), outcome("Anna", -1), outcome("Bert", 0)],
        round_count: 1,
    });
    assert_eq!(evaluate(&data), Err(Error::InvalidInput));
}

#[test]
fn edge_naming_non_participant_is_invalid() {
    let mut data = base_history();
    data.arbitrary(Arbitrary {
        date: 1,
        scores: vec![outcome("Anna", 1), outcome("Bert", -1)],
        game_collections: vec![GameCollection {
            players: ["Anna".to_string(), "Cili".to_string()],
            game_count: 1,
        }],
    });
    assert_eq!(evaluate(&data), Err(Error::InvalidInput));
}

#[test]
fn empty_circular_session_is_invalid() {
    let mut data = base_history();
    data.circular(Circular { date: 1, outcomes: Vec::new(), game_count: 1 });
    assert_eq!(evaluate(&data), Err(Error::InvalidInput));
}

#[test]
fn overflowing_edge_weight_is_invalid() {
    let mut data = base_history();
    data.arbitrary(Arbitrary {
        date: 1,
        scores: vec![outcome("Anna", 1), outcome("Bert", -1)],
        game_collections: vec![GameCollection {
            players: ["Anna".to_string(), "Bert".to_string()],
            game_count: usize::MAX,
        }],
    });
    assert_eq!(evaluate(&data), Err(Error::InvalidInput));
}

#[test]
fn arbitrary_session_builds_the_graph_laplacian() {
    let mut eval = Evaluation::new(sc(0.1));
    for name in ["Anna", "Bert", "Cili"] {
        eval.change(&Change::AddPlayer(AddPlayer { name: name.to_string(), rating: sc(0.0) }))
            .unwrap();
    }
    let session = Arbitrary {
        date: 1,
        scores: vec![outcome("Anna", 2), outcome("Bert", -1), outcome("Cili", -1)],
        game_collections: vec![
            GameCollection { players: ["Anna".to_string(), "Bert".to_string()], game_count: 3 },
            GameCollection { players: ["Bert".to_string(), "Cili".to_string()], game_count: 2 },
        ],
    };
    let input = eval.change(&Change::Arbitrary(session)).unwrap().unwrap();
    assert_eq!(input.players, vec!["Anna".to_string(), "Bert".to_string(), "Cili".to_string()]);
    assert_eq!(input.scores, vec![2, -1, -1]);
    match &input.task {
        ModelTask::Diffusion { laplacian } => {
            let rows: Vec<Vec<i64>> = laplacian.rows.clone();
            assert_eq!(rows, vec![vec![-3, 3, 0], vec![3, -5, 2], vec![0, 2, -2]]);
        }
        other => panic!("unexpected task {:?}", other),
    }
}

#[test]
fn circular_session_builds_the_window_matrix() {
    let mut eval = Evaluation::new(sc(0.1));
    for name in ["Anna", "Bert", "Cili"] {
        eval.change(&Change::AddPlayer(AddPlayer { name: name.to_string(), rating: sc(0.0) }))
            .unwrap();
    }
    let session = Circular {
        date: 1,
        outcomes: vec![outcome("Anna", 1), outcome("Bert", 0), outcome("Cili", -1)],
        game_count: 1,
    };
    let input = eval.change(&Change::Circular(session)).unwrap().unwrap();
    match &input.task {
        ModelTask::Diffusion { laplacian } => {
            let rows: Vec<Vec<i64>> = laplacian.rows.clone();
            assert_eq!(rows, vec![vec![-2, 1, 1], vec![1, -2, 1], vec![1, 1, -2]]);
        }
        other => panic!("unexpected task {:?}", other),
    }
}

#[test]
fn re_adding_a_player_overwrites_the_rating() {
    let mut data = base_history();
    data.add_player("Anna".to_string(), sc(3.5));
    let eval = evaluate(&data).unwrap();
    assert_eq!(eval.ratings.get("Anna"), Some(sc(3.5)));
    assert_eq!(eval.ratings.len(), 3);
}

#[test]
fn adjust_alpha_applies_to_later_records_only() {
    let mut data = base_history();
    data.play(Play {
        game_count: 1,
        date: 1,
        outcomes: [outcome("Anna", 4), outcome("Bert", -2), outcome("Cili", -2)],
    });
    let with_default = evaluate(&data).unwrap();
    // Re-evaluating after inserting an adjustment earlier in history
    // deterministically changes all downstream ratings.
    let mut adjusted = Data { config: data.config, history: Vec::new() };
    adjusted.adjust_alpha(sc(0.5));
    for change in &data.history {
        adjusted.history.push(change.clone());
    }
    let with_higher = evaluate(&adjusted).unwrap();
    assert_eq!(fs(with_default.alpha), 0.02);
    assert_eq!(fs(with_higher.alpha), 0.5);
    assert!(rating_of(&with_higher, "Anna") > rating_of(&with_default, "Anna"));
}
