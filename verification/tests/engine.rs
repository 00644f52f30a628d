use jatsi::dice::{roll_dice, roll_dice_keeping};
use jatsi::errors::InvalidAction;
use jatsi::game::{Game, GameMessage, PlayerMessage, State};
use jatsi::rules::{ee_rules, mini_rules, roleplayers_rules, update_score_sheet, Scoring};

/// A two-player game under `mini_rules`, already started: player 0 in turn,
/// first roll pending.
fn started_game() -> Game {
    let mut game = Game::new(mini_rules());
    let events = vec![
        GameMessage::PlayerMessage(0, PlayerMessage::JoinGame("Ada".into())),
        GameMessage::PlayerMessage(1, PlayerMessage::JoinGame("Bo".into())),
        GameMessage::PlayerMessage(0, PlayerMessage::StartGame),
        GameMessage::PlayerTurn(0),
    ];
    for e in events {
        game.commit(&e).unwrap();
    }
    game
}

#[test]
fn prepare_rejects_wrong_player() {
    let game = started_game();
    let res = game.prepare(1, &PlayerMessage::Roll);
    assert_eq!(res, Err(InvalidAction::NotYourTurn));
}

#[test]
fn prepare_rejects_wrong_state() {
    let game = started_game();
    // Holding dice is only legal between rolls.
    let res = game.prepare(0, &PlayerMessage::ToggleHold(0));
    assert_eq!(res, Err(InvalidAction::WrongState));
    // The game has already started.
    let res = game.prepare(0, &PlayerMessage::StartGame);
    assert_eq!(res, Err(InvalidAction::WrongState));
    // Nobody can roll before the game starts.
    let fresh = Game::new(mini_rules());
    let res = fresh.prepare(0, &PlayerMessage::Roll);
    assert_eq!(res, Err(InvalidAction::WrongState));
}

#[test]
fn prepare_rejects_out_of_bounds() {
    let mut game = started_game();
    game.commit(&GameMessage::PlayerMessage(0, PlayerMessage::Roll))
        .unwrap();
    game.commit(&GameMessage::RollResult(vec![5, 4, 3, 2, 1]))
        .unwrap();
    assert_eq!(game.state, State::Reroll);
    let res = game.prepare(0, &PlayerMessage::ToggleHold(9));
    assert_eq!(res, Err(InvalidAction::OutOfBounds));
    let res = game.prepare(0, &PlayerMessage::Place(17));
    assert_eq!(res, Err(InvalidAction::OutOfBounds));
}

#[test]
fn commit_toggle_hold_out_of_bounds() {
    let mut game = started_game();
    let res = game.commit(&GameMessage::PlayerMessage(0, PlayerMessage::ToggleHold(9)));
    assert_eq!(res, Err(InvalidAction::OutOfBounds));
}

#[test]
fn update_rejects_bad_row() {
    let scorings = vec![Scoring::Chance];
    let sheet: Vec<Option<u64>> = vec![None];
    let res = update_score_sheet(&sheet, &scorings, 1, &[1, 2, 3, 4, 5]);
    assert_eq!(res, Err(InvalidAction::OutOfBounds));
}

#[test]
fn update_rejects_bonus_row() {
    let scorings = vec![
        Scoring::Numbers { num: 1 },
        Scoring::Bonus {
            min_points: 8,
            value: 10,
        },
    ];
    let sheet: Vec<Option<u64>> = vec![None, None];
    let res = update_score_sheet(&sheet, &scorings, 1, &[1, 2, 3, 4, 5]);
    assert_eq!(res, Err(InvalidAction::NotSelectable));
}

#[test]
fn update_rejects_occupied_row() {
    let scorings = vec![Scoring::Chance, Scoring::Yahtzee { value: 50 }];
    let sheet: Vec<Option<u64>> = vec![Some(12), Some(50)];
    let res = update_score_sheet(&sheet, &scorings, 0, &[1, 2, 3, 4, 5]);
    assert_eq!(res, Err(InvalidAction::AlreadyOccupied));
    // The Yahtzee exception only applies when the new roll scores again.
    let res = update_score_sheet(&sheet, &scorings, 1, &[1, 2, 3, 4, 5]);
    assert_eq!(res, Err(InvalidAction::AlreadyOccupied));
}

#[test]
fn update_changes_only_the_selected_and_bonus_slots() {
    let scorings = vec![
        Scoring::Numbers { num: 1 },
        Scoring::Numbers { num: 2 },
        Scoring::Bonus {
            min_points: 100,
            value: 10,
        },
        Scoring::Chance,
    ];
    let sheet: Vec<Option<u64>> = vec![Some(2), None, None, Some(20)];
    let updated = update_score_sheet(&sheet, &scorings, 1, &[2, 2, 1, 1, 1]).unwrap();
    // Rows 0 and 1 are now filled, so the bonus row is decided: the
    // threshold was not reached, so it scores 0.
    assert_eq!(updated, [Some(2), Some(4), Some(0), Some(20)]);
}

#[test]
fn error_messages() {
    assert_eq!(InvalidAction::NotYourTurn.message(), "not your turn");
    assert_eq!(
        InvalidAction::WrongState.message(),
        "cannot perform this action in this state"
    );
    assert_eq!(InvalidAction::OutOfBounds.message(), "out of bounds");
    assert_eq!(
        InvalidAction::AlreadyOccupied.message(),
        "the selected scoring row is already occupied"
    );
    assert_eq!(
        InvalidAction::NotSelectable.message(),
        "the bonus row is not selectable"
    );
}

#[test]
fn category_names() {
    assert_eq!(Scoring::Numbers { num: 7 }.name(), "7's");
    assert_eq!(Scoring::Numbers { num: 12 }.name(), "12's");
    assert_eq!(Scoring::SetOf { num: 4 }.name(), "Set of 4");
    assert_eq!(
        Scoring::Straight {
            min_length: 6,
            value: 45
        }
        .name(),
        "Straight of 6"
    );
    assert_eq!(
        Scoring::Bonus {
            min_points: 63,
            value: 50
        }
        .name(),
        "Bonus"
    );
    assert_eq!(Scoring::TwoPairs {}.name(), "Two Pairs");
    assert_eq!(Scoring::FullHouse { value: 25 }.name(), "Full House");
    assert_eq!(Scoring::Yahtzee { value: 50 }.name(), "Yahtzee");
    assert_eq!(Scoring::Chance.name(), "Chance");
}

#[test]
fn rounds_count_skips_the_bonus_row() {
    assert_eq!(mini_rules().rounds(), 3);
    assert_eq!(ee_rules().rounds(), 13);
    assert_eq!(roleplayers_rules().rounds(), 17);
}

#[test]
fn rolls_stay_in_range_and_sorted() {
    let dice = [6u64, 6, 6, 6, 6];
    let roll = roll_dice(&dice);
    assert_eq!(roll.len(), 5);
    for &v in roll.iter() {
        assert!((1..=6).contains(&v));
    }
    for w in roll.windows(2) {
        assert!(w[0] >= w[1], "roll must be sorted descending");
    }
}

#[test]
fn mixed_dice_rolls_stay_in_range() {
    let dice = [4u64, 6, 8, 10, 10];
    let roll = roll_dice(&dice);
    assert_eq!(roll.len(), 5);
    for &v in roll.iter() {
        assert!((1..=10).contains(&v));
    }
    for w in roll.windows(2) {
        assert!(w[0] >= w[1], "roll must be sorted descending");
    }
}

#[test]
fn one_sided_dice_roll_ones() {
    assert_eq!(roll_dice(&[1, 1, 1]), vec![1, 1, 1]);
}

#[test]
fn rerolling_keeps_held_dice() {
    let dice = [6u64, 6, 6];
    // All dice held: the reroll is the old roll, sorted descending.
    let roll = roll_dice_keeping(&dice, &[3, 1, 2], &[true, true, true]);
    assert_eq!(roll, vec![3, 2, 1]);
    // Mixed dice: the held value must still be among the results.
    let roll = roll_dice_keeping(&[6, 6], &[6, 1], &[true, false]);
    assert!(roll.contains(&6));
}

#[test]
fn dummy_game_has_one_player() {
    let game = Game::dummy();
    assert_eq!(game.state, State::Start);
    assert_eq!(game.players.len(), 1);
    assert_eq!(game.players[0].name, "Japsu");
    assert!(game.players[0].score_sheet.iter().all(|s| s.is_none()));
}

#[test]
fn scoreboard_sorts_descending() {
    let mut game = Game::new(mini_rules());
    for (i, name) in ["Ada", "Bo", "Cyd"].iter().enumerate() {
        game.commit(&GameMessage::PlayerMessage(
            i,
            PlayerMessage::JoinGame((*name).into()),
        ))
        .unwrap();
    }
    game.players[0].score_sheet[0] = Some(5);
    game.players[1].score_sheet[0] = Some(30);
    game.players[2].score_sheet[2] = Some(25);
    assert_eq!(
        game.scoreboard(),
        [(30, "Bo"), (25, "Cyd"), (5, "Ada")]
    );
}

#[test]
fn replaying_a_log_rebuilds_the_same_game() {
    let mut game = started_game();
    let events = vec![
        GameMessage::PlayerMessage(0, PlayerMessage::Roll),
        GameMessage::RollResult(vec![6, 6, 6, 5, 5]),
        GameMessage::PlayerMessage(0, PlayerMessage::ToggleHold(0)),
        GameMessage::PlayerMessage(0, PlayerMessage::Place(2)),
        GameMessage::PlayerTurn(1),
    ];
    for e in events {
        game.commit(&e).unwrap();
    }
    let mut replica = Game::new(mini_rules());
    for e in game.message_history.iter() {
        replica.commit(e).unwrap();
    }
    assert_eq!(game, replica);
}
