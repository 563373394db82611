use ultira::change::{AddPlayer, Change, Circular, GameCollection, Outcome, Play, Renamable, Symmetric};
use ultira::ledger::{Config, Data};
use ultira::{Error, Scalar};

fn sc(x: f64) -> Scalar {
    Scalar { bits: x.to_bits() }
}

fn config() -> Config {
    Config { spread: sc(50.0), base_rating: sc(100.0), starting_alpha: sc(0.02) }
}

fn outcome(name: &str, score: i64) -> Outcome {
    Outcome { player: name.to_string(), score }
}

fn sample_play(date: i64) -> Play {
    Play {
        game_count: 2,
        date,
        outcomes: [outcome("Anna", 4), outcome("Bert", -1), outcome("Cili", -3)],
    }
}

#[test]
fn append_and_undo_restore_history() {
    let mut data = Data { config: config(), history: Vec::new() };
    data.add_player("Anna".to_string(), sc(0.0));
    let before = data.history.clone();
    data.play(sample_play(738000));
    assert_eq!(data.history.len(), 2);
    assert_eq!(data.undo(), Ok(()));
    assert_eq!(data.history, before);
}

#[test]
fn undo_on_empty_history_fails() {
    let mut data = Data { config: config(), history: Vec::new() };
    assert_eq!(data.undo(), Err(Error::EmptyHistory));
    assert!(data.history.is_empty());
}

#[test]
fn change_date_is_the_session_date() {
    assert_eq!(Change::AddPlayer(AddPlayer { name: "A".to_string(), rating: sc(0.0) }).date(), None);
    assert_eq!(Change::AdjustAlpha(sc(0.1)).date(), None);
    assert_eq!(Change::Play(sample_play(738001)).date(), Some(738001));
    let circ = Circular { date: 5, outcomes: vec![outcome("A", 0)], game_count: 1 };
    assert_eq!(Change::Circular(circ).date(), Some(5));
}

#[test]
fn play_now_keeps_games_and_outcomes() {
    let p = Play::now(3, [outcome("Anna", 2), outcome("Bert", -2), outcome("Cili", 0)]);
    assert_eq!(p.game_count, 3);
    assert_eq!(p.outcomes[0].player, "Anna");
    assert_eq!(p.outcomes[2].score, 0);
}

#[test]
fn rename_rewrites_players_and_registrations() {
    let mut data = Data { config: config(), history: Vec::new() };
    data.add_player("Abe".to_string(), sc(0.5));
    data.add_player("Bert".to_string(), sc(0.0));
    data.play(Play {
        game_count: 1,
        date: 10,
        outcomes: [outcome("Abe", 2), outcome("Bert", -1), outcome("Abe", -1)],
    });
    data.circular(Circular {
        date: 11,
        outcomes: vec![outcome("Abe", 1), outcome("Bert", -1)],
        game_count: 1,
    });
    assert_eq!(data.rename("Abe", "Abraham"), Ok(()));
    match &data.history[0] {
        Change::AddPlayer(a) => {
            assert_eq!(a.name, "Abraham");
            assert_eq!(a.rating, sc(0.5));
        }
        other => panic!("unexpected record {:?}", other),
    }
    match &data.history[2] {
        Change::Play(p) => {
            assert_eq!(p.outcomes[0].player, "Abraham");
            assert_eq!(p.outcomes[1].player, "Bert");
            assert_eq!(p.outcomes[2].player, "Abraham");
        }
        other => panic!("unexpected record {:?}", other),
    }
    match &data.history[3] {
        Change::Circular(c) => {
            assert_eq!(c.outcomes[0].player, "Abraham");
            assert_eq!(c.outcomes[1].player, "Bert");
        }
        other => panic!("unexpected record {:?}", other),
    }
}

#[test]
fn rename_rejects_map_keyed_records() {
    let mut data = Data { config: config(), history: Vec::new() };
    data.add_player("Abe".to_string(), sc(0.0));
    data.symmetric(Symmetric {
        date: 3,
        scores: vec![outcome("Abe", 0), outcome("Bert", 1), outcome("Cili", -1)],
        round_count: 1,
    });
    let before = data.history.clone();
    assert_eq!(data.rename("Abe", "Abraham"), Err(Error::UnsupportedRename));
    assert_eq!(data.history, before);

    let mut data2 = Data { config: config(), history: Vec::new() };
    data2.arbitrary(ultira::change::Arbitrary {
        date: 4,
        scores: vec![outcome("Abe", 0)],
        game_collections: vec![GameCollection {
            players: ["Abe".to_string(), "Abe".to_string()],
            game_count: 1,
        }],
    });
    assert_eq!(data2.rename("Abe", "Abraham"), Err(Error::UnsupportedRename));
}

#[test]
fn outcome_rename_rewrites_only_the_named_player() {
    let mut o = outcome("Abe", 7);
    o.rename("Bert", "Robert");
    assert_eq!(o, outcome("Abe", 7));
    o.rename("Abe", "Abraham");
    assert_eq!(o, outcome("Abraham", 7));
}
