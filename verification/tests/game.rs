use std::collections::VecDeque;

use jatsi::game::{Game, GameMessage, PlayerMessage};
use jatsi::rules::mini_rules;

/// Runs a game and compares its messages to an expected transcript.
/// All PlayerMessages are sent to the Game, RollResults overwrite the actual
/// roll result, and other messages are checked to be equal.
fn run_game(game: &mut Game, expected_messages: Vec<GameMessage>) {
    let mut game_messages = VecDeque::new();

    for expected_message in expected_messages {
        println!("{:?}: {:?}", game.state, expected_message);

        match expected_message {
            GameMessage::PlayerMessage(from_player, ref player_msg) => {
                // Player message: Prepare the transaction, commit it and record the messages
                // to check that later messages will match them.
                let mut response_messages: VecDeque<GameMessage> = game
                    .prepare(from_player, &player_msg.clone())
                    .unwrap()
                    .into();

                let actual_player_msg = response_messages.pop_front().unwrap();
                assert_eq!(actual_player_msg, expected_message);
                game.commit(&expected_message).unwrap();
                game_messages.append(&mut response_messages);
            }
            GameMessage::RollResult(..) => {
                // Roll result: Fake the roll result for deterministic testing.
                let actual_roll_message = game_messages.pop_front().unwrap();
                assert!(matches!(actual_roll_message, GameMessage::RollResult(..)));
                game.commit(&expected_message).unwrap();
            }
            _ => {
                // Any other message: Check that the message matches the recorded one.
                let actual_message = game_messages.pop_front().unwrap();
                assert_eq!(actual_message, expected_message);
                game.commit(&expected_message).unwrap();
            }
        }
    }

    assert!(
        game_messages.is_empty(),
        "leftover actual messages without expected counterpart: {:?}",
        game_messages
    );
}

#[test]
fn game_test_full_game() {
    let mut game = Game::new(mini_rules());
    let (sixes, _bonus, full_house, small_straight) = (0, 1, 2, 3);

    run_game(
        &mut game,
        vec![
            GameMessage::PlayerMessage(0, PlayerMessage::JoinGame("Henry".into())),
            GameMessage::PlayerMessage(1, PlayerMessage::JoinGame("Bobby".into())),
            GameMessage::PlayerMessage(0, PlayerMessage::StartGame),
            // Round 1: Fight!
            GameMessage::PlayerTurn(0),
            GameMessage::PlayerMessage(0, PlayerMessage::Roll),
            GameMessage::RollResult(vec![5, 3, 4, 5, 2]), // bah! puny small straight! let's keep the 5 5 and reroll the 4 3 2
            GameMessage::PlayerMessage(0, PlayerMessage::ToggleHold(0)),
            GameMessage::PlayerMessage(0, PlayerMessage::ToggleHold(3)),
            GameMessage::PlayerMessage(0, PlayerMessage::Roll),
            GameMessage::RollResult(vec![5, 5, 1, 5, 1]),
            GameMessage::PlayerMessage(0, PlayerMessage::Place(full_house)),
            GameMessage::PlayerTurn(1),
            GameMessage::PlayerMessage(1, PlayerMessage::Roll),
            GameMessage::RollResult(vec![2, 3, 2, 4, 1]),
            GameMessage::PlayerMessage(1, PlayerMessage::Place(full_house)),
            // Round 2
            GameMessage::PlayerTurn(0),
            GameMessage::PlayerMessage(0, PlayerMessage::Roll),
            GameMessage::RollResult(vec![6, 6, 6, 6, 5]),
            GameMessage::PlayerMessage(0, PlayerMessage::Place(sixes)),
            GameMessage::PlayerTurn(1),
            GameMessage::PlayerMessage(1, PlayerMessage::Roll),
            GameMessage::RollResult(vec![6, 4, 5, 1, 1]),
            GameMessage::PlayerMessage(1, PlayerMessage::ToggleHold(0)),
            GameMessage::PlayerMessage(1, PlayerMessage::ToggleHold(1)),
            GameMessage::PlayerMessage(1, PlayerMessage::ToggleHold(2)),
            GameMessage::PlayerMessage(1, PlayerMessage::Roll),
            GameMessage::RollResult(vec![6, 4, 5, 1, 2]),
            GameMessage::PlayerMessage(1, PlayerMessage::Place(small_straight)),
            // Round 3
            GameMessage::PlayerTurn(0),
            GameMessage::PlayerMessage(0, PlayerMessage::Roll),
            GameMessage::RollResult(vec![2, 2, 1, 1, 1]),
            GameMessage::PlayerMessage(0, PlayerMessage::ToggleHold(1)),
            GameMessage::PlayerMessage(0, PlayerMessage::ToggleHold(2)),
            GameMessage::PlayerMessage(0, PlayerMessage::Roll),
            GameMessage::RollResult(vec![5, 2, 1, 5, 6]),
            GameMessage::PlayerMessage(0, PlayerMessage::Roll),
            GameMessage::RollResult(vec![3, 2, 1, 6, 6]), // drats! no small straight :(
            GameMessage::PlayerMessage(0, PlayerMessage::Place(small_straight)),
            GameMessage::PlayerTurn(1),
            GameMessage::PlayerMessage(1, PlayerMessage::Roll),
            GameMessage::RollResult(vec![1, 5, 1, 6, 2]),
            GameMessage::PlayerMessage(1, PlayerMessage::ToggleHold(3)),
            GameMessage::PlayerMessage(1, PlayerMessage::Roll),
            GameMessage::RollResult(vec![2, 4, 6, 6, 2]),
            GameMessage::PlayerMessage(1, PlayerMessage::ToggleHold(2)),
            GameMessage::PlayerMessage(1, PlayerMessage::Roll),
            GameMessage::RollResult(vec![1, 6, 6, 6, 1]), // drats! no 4x6 needed for bonus :(
            GameMessage::PlayerMessage(1, PlayerMessage::Place(sixes)),
            GameMessage::GameFinished,
        ],
    );

    assert_eq!(
        game.players[0].score_sheet,
        [Some(24), Some(50), Some(25), Some(0)],
        "player 0 score sheet"
    );
    assert_eq!(
        game.players[1].score_sheet,
        [Some(18), Some(0), Some(0), Some(0)],
        "player 1 score sheet"
    );
    assert_eq!(
        game.scoreboard(),
        [(24 + 50 + 25 + 0, "Henry"), (18 + 0 + 0 + 0, "Bobby")]
    );

    let mut game2 = Game::new(mini_rules());
    for message in game.message_history.iter() {
        game2.commit(message).unwrap();
    }
    assert_eq!(
        game, game2,
        "a game produced by replaying another's message history should be equal to the original one"
    );
}
