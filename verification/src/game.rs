//! The game state machine: players, commands, events, and the aggregate
//! `Game`.
//!
//! A command enters through [`Game::prepare`], which validates it against
//! the current state without mutating anything and returns the events the
//! game answers with.  Each event is then fed to [`Game::commit`], the only
//! operation that changes state.  `commit` applies a pure transition
//! function of the previous state and the event ([`commit_spec`]), so a game
//! can be rebuilt exactly by replaying its event log from an empty game with
//! the same ruleset ([`lemma_replay_determinism`]).

use vstd::prelude::*;

use crate::dice::{
    fresh_draws, fresh_roll_ok, kept_draws, kept_roll_ok, lemma_dice_bounded_by_max,
    lemma_multiset_value_bounds, roll_dice, roll_dice_keeping,
};
use crate::errors::InvalidAction;
use crate::rules::{
    ee_rules, ee_rules_spec, lemma_sheet_points_nonneg, lemma_sheet_points_take_le,
    lemma_sheet_points_take_step, rounds_spec, sheet_points, update_fits, update_score_sheet,
    update_spec, Ruleset, RulesetV,
};
use crate::sums::{lemma_seq_max_ge, seq_max};

verus! {

/// A participant: display name and score sheet, one slot per scoring
/// category of the ruleset, index-aligned.
#[derive(Debug, PartialEq)]
pub struct Player {
    pub name: String,
    pub score_sheet: Vec<Option<u64>>,
}

/// The mathematical value of a `Player`.
#[verifier::ext_equal]
pub ghost struct PlayerV {
    pub name: Seq<char>,
    pub score_sheet: Seq<Option<u64>>,
}

impl View for Player {
    type V = PlayerV;

    open spec fn view(&self) -> PlayerV {
        PlayerV { name: self.name@, score_sheet: self.score_sheet@ }
    }
}

impl Clone for Player {
    fn clone(&self) -> (r: Self)
        ensures
            r@ == self@,
    {
        Player {
            name: self.name.clone(),
            score_sheet: vstd::slice::slice_to_vec(self.score_sheet.as_slice()),
        }
    }
}

/// The machine state of a game.
#[derive(Clone, Copy, Debug, PartialEq)]
pub enum State {
    /// Players may join; the game has not begun.
    Start,
    /// The player in turn has not rolled yet.
    FirstRoll,
    /// The player in turn has rolled and may hold dice, reroll, or place.
    Reroll,
    /// The rolls are used up; the player in turn must place.
    Place,
    /// The game is over.  Terminal.
    End,
}

/// A command: what a player asks the game to do.
#[derive(Debug, PartialEq)]
pub enum PlayerMessage {
    JoinGame(String),
    StartGame,
    ToggleHold(usize),
    Roll,
    Place(usize),
}

/// The mathematical value of a `PlayerMessage`.
#[verifier::ext_equal]
pub ghost enum PlayerMessageV {
    JoinGame(Seq<char>),
    StartGame,
    ToggleHold(int),
    Roll,
    Place(int),
}

impl View for PlayerMessage {
    type V = PlayerMessageV;

    open spec fn view(&self) -> PlayerMessageV {
        match self {
            PlayerMessage::JoinGame(name) => PlayerMessageV::JoinGame(name@),
            PlayerMessage::StartGame => PlayerMessageV::StartGame,
            PlayerMessage::ToggleHold(i) => PlayerMessageV::ToggleHold(*i as int),
            PlayerMessage::Roll => PlayerMessageV::Roll,
            PlayerMessage::Place(i) => PlayerMessageV::Place(*i as int),
        }
    }
}

impl Clone for PlayerMessage {
    fn clone(&self) -> (r: Self)
        ensures
            r@ == self@,
    {
        match self {
            PlayerMessage::JoinGame(name) => PlayerMessage::JoinGame(name.clone()),
            PlayerMessage::StartGame => PlayerMessage::StartGame,
            PlayerMessage::ToggleHold(i) => PlayerMessage::ToggleHold(*i),
            PlayerMessage::Roll => PlayerMessage::Roll,
            PlayerMessage::Place(i) => PlayerMessage::Place(*i),
        }
    }
}

/// An event: one entry of the replicated, append-only event log.
#[derive(Debug, PartialEq)]
pub enum GameMessage {
    /// The echo of an accepted command, always first in a response batch.
    PlayerMessage(usize, PlayerMessage),
    /// The turn passes to this player.
    PlayerTurn(usize),
    /// The concrete outcome of a roll, drawn when the command was prepared.
    RollResult(Vec<u64>),
    /// The final event of a game.
    GameFinished,
}

/// The mathematical value of a `GameMessage`.
#[verifier::ext_equal]
pub ghost enum GameMessageV {
    PlayerMessage(int, PlayerMessageV),
    PlayerTurn(int),
    RollResult(Seq<u64>),
    GameFinished,
}

impl View for GameMessage {
    type V = GameMessageV;

    open spec fn view(&self) -> GameMessageV {
        match self {
            GameMessage::PlayerMessage(p, m) => GameMessageV::PlayerMessage(*p as int, m@),
            GameMessage::PlayerTurn(p) => GameMessageV::PlayerTurn(*p as int),
            GameMessage::RollResult(vals) => GameMessageV::RollResult(vals@),
            GameMessage::GameFinished => GameMessageV::GameFinished,
        }
    }
}

impl Clone for GameMessage {
    fn clone(&self) -> (r: Self)
        ensures
            r@ == self@,
    {
        match self {
            GameMessage::PlayerMessage(p, m) => GameMessage::PlayerMessage(*p, m.clone()),
            GameMessage::PlayerTurn(p) => GameMessage::PlayerTurn(*p),
            GameMessage::RollResult(vals) => GameMessage::RollResult(
                vstd::slice::slice_to_vec(vals.as_slice()),
            ),
            GameMessage::GameFinished => GameMessage::GameFinished,
        }
    }
}

/// The aggregate: event log, players, configuration and the current turn.
#[derive(Debug, PartialEq)]
pub struct Game {
    pub message_history: Vec<GameMessage>,
    pub players: Vec<Player>,
    pub ruleset: Ruleset,
    pub state: State,
    pub round: usize,
    pub player_in_turn: usize,
    pub times_rolled: u64,
    pub roll: Vec<u64>,
    pub keep: Vec<bool>,
}

/// The mathematical value of a `Game`.
#[verifier::ext_equal]
pub ghost struct GameV {
    pub message_history: Seq<GameMessageV>,
    pub players: Seq<PlayerV>,
    pub ruleset: RulesetV,
    pub state: State,
    pub round: int,
    pub player_in_turn: int,
    pub times_rolled: int,
    pub roll: Seq<u64>,
    pub keep: Seq<bool>,
}

impl View for Game {
    type V = GameV;

    open spec fn view(&self) -> GameV {
        GameV {
            message_history: Seq::new(
                self.message_history@.len(),
                |i: int| self.message_history@[i]@,
            ),
            players: Seq::new(self.players@.len(), |i: int| self.players@[i]@),
            ruleset: self.ruleset@,
            state: self.state,
            round: self.round as int,
            player_in_turn: self.player_in_turn as int,
            times_rolled: self.times_rolled as int,
            roll: self.roll@,
            keep: self.keep@,
        }
    }
}

impl GameV {
    /// The invariants of a game: the per-die vectors are as long as the die
    /// list, every roll value is a value some die can show, every score
    /// sheet is as long as the category list, and the turn counters are in
    /// range.
    pub open spec fn wf(self) -> bool {
        &&& self.ruleset.wf()
        &&& self.roll.len() == self.ruleset.dice.len()
        &&& self.keep.len() == self.ruleset.dice.len()
        &&& forall|i: int|
            0 <= i < self.roll.len() ==> 1 <= #[trigger] self.roll[i] <= seq_max(
                self.ruleset.dice,
            )
        &&& forall|p: int|
            0 <= p < self.players.len() ==> (#[trigger] self.players[p].score_sheet.len())
                == self.ruleset.scorings.len()
        &&& (self.state != State::Start ==> self.player_in_turn < self.players.len())
        &&& 0 <= self.player_in_turn
        &&& 0 <= self.times_rolled <= self.ruleset.rolls
        &&& 0 <= self.round
    }
}

/// A fresh game: no players, no history, the first turn not begun, and the
/// dice showing 1.
pub open spec fn initial_game(rs: RulesetV) -> GameV {
    GameV {
        message_history: Seq::empty(),
        players: Seq::empty(),
        ruleset: rs,
        state: State::Start,
        round: 0,
        player_in_turn: 0,
        times_rolled: 0,
        roll: Seq::new(rs.dice.len(), |i: int| 1u64),
        keep: Seq::new(rs.dice.len(), |i: int| false),
    }
}

/// What `commit` needs of an event so that no arithmetic overflows and the
/// game invariants are preserved.  Every event `prepare` produces against a
/// well-formed game satisfies this.
pub open spec fn event_ok(g: GameV, m: GameMessageV) -> bool {
    match m {
        GameMessageV::PlayerMessage(_from, pm) => match pm {
            PlayerMessageV::JoinGame(_) => true,
            PlayerMessageV::StartGame => true,
            PlayerMessageV::ToggleHold(_) => true,
            PlayerMessageV::Roll => g.times_rolled < g.ruleset.rolls,
            PlayerMessageV::Place(row) => 0 <= g.player_in_turn < g.players.len()
                ==> update_fits(
                g.players[g.player_in_turn].score_sheet,
                g.ruleset.scorings,
                row,
                g.roll,
            ),
        },
        GameMessageV::PlayerTurn(p) => 0 <= p < g.players.len() && (p == 0 ==> g.round
            < usize::MAX),
        GameMessageV::RollResult(vals) => g.player_in_turn < g.players.len() && vals.len()
            == g.ruleset.dice.len() && (forall|i: int|
            0 <= i < vals.len() ==> 1 <= #[trigger] vals[i] <= seq_max(g.ruleset.dice)),
        GameMessageV::GameFinished => g.player_in_turn < g.players.len(),
    }
}

/// The transition function of the state machine: what committing one event
/// does to a game.  This is the whole replication contract: every replica
/// applies exactly this function, so identical logs give identical games.
pub open spec fn commit_spec(g: GameV, m: GameMessageV) -> Result<GameV, InvalidAction> {
    match m {
        GameMessageV::PlayerMessage(_from, pm) => match pm {
            PlayerMessageV::JoinGame(name) => Ok(
                GameV {
                    players: g.players.push(
                        PlayerV {
                            name,
                            score_sheet: Seq::new(
                                g.ruleset.scorings.len(),
                                |i: int| None::<u64>,
                            ),
                        },
                    ),
                    message_history: g.message_history.push(m),
                    ..g
                },
            ),
            PlayerMessageV::StartGame => Ok(
                GameV { message_history: g.message_history.push(m), ..g },
            ),
            PlayerMessageV::ToggleHold(i) => if 0 <= i < g.keep.len() {
                Ok(
                    GameV {
                        keep: g.keep.update(i, !g.keep[i]),
                        message_history: g.message_history.push(m),
                        ..g
                    },
                )
            } else {
                Err(InvalidAction::OutOfBounds)
            },
            PlayerMessageV::Roll => Ok(
                GameV {
                    times_rolled: g.times_rolled + 1,
                    message_history: g.message_history.push(m),
                    ..g
                },
            ),
            PlayerMessageV::Place(row) => if 0 <= g.player_in_turn < g.players.len() {
                let p = g.players[g.player_in_turn];
                match update_spec(p.score_sheet, g.ruleset.scorings, row, g.roll) {
                    Ok(ns) => Ok(
                        GameV {
                            players: g.players.update(
                                g.player_in_turn,
                                PlayerV { score_sheet: ns, ..p },
                            ),
                            message_history: g.message_history.push(m),
                            ..g
                        },
                    ),
                    Err(e) => Err(e),
                }
            } else {
                Err(InvalidAction::OutOfBounds)
            },
        },
        GameMessageV::PlayerTurn(p) => Ok(
            GameV {
                times_rolled: 0,
                keep: Seq::new(g.ruleset.dice.len(), |i: int| false),
                roll: Seq::new(g.ruleset.dice.len(), |i: int| 1u64),
                player_in_turn: p,
                state: State::FirstRoll,
                round: if p == 0 {
                    g.round + 1
                } else {
                    g.round
                },
                message_history: g.message_history.push(m),
                ..g
            },
        ),
        GameMessageV::RollResult(vals) => Ok(
            GameV {
                roll: vals,
                state: if g.times_rolled < g.ruleset.rolls {
                    State::Reroll
                } else {
                    State::Place
                },
                message_history: g.message_history.push(m),
                ..g
            },
        ),
        GameMessageV::GameFinished => Ok(
            GameV { state: State::End, message_history: g.message_history.push(m), ..g },
        ),
    }
}

/// Committing a legal event to a well-formed game keeps it well-formed.
pub proof fn lemma_commit_preserves_wf(g: GameV, m: GameMessageV)
    requires
        g.wf(),
        event_ok(g, m),
        commit_spec(g, m) is Ok,
    ensures
        commit_spec(g, m)->Ok_0.wf(),
{
    let g2 = commit_spec(g, m)->Ok_0;
    match m {
        GameMessageV::PlayerMessage(_from, pm) => match pm {
            PlayerMessageV::JoinGame(_) => {
                assert(forall|p: int|
                    0 <= p < g.players.len() ==> g2.players[p] == g.players[p]);
                assert(g2.players[g.players.len() as int].score_sheet.len()
                    == g.ruleset.scorings.len());
            },
            PlayerMessageV::Place(row) => {
                if 0 <= g.player_in_turn < g.players.len() {
                    let sheet = g.players[g.player_in_turn].score_sheet;
                    let res = update_spec(sheet, g.ruleset.scorings, row, g.roll);
                    let ns = res->Ok_0;
                    crate::rules::lemma_update_changes_one_slot(
                        sheet,
                        g.ruleset.scorings,
                        row,
                        g.roll,
                    );
                    assert(ns.len() == sheet.len());
                    assert(forall|p: int|
                        0 <= p < g.players.len() && p != g.player_in_turn ==> g2.players[p]
                            == g.players[p]);
                }
            },
            _ => {},
        },
        GameMessageV::PlayerTurn(p) => {
            if g.ruleset.dice.len() > 0 {
                lemma_seq_max_ge(g.ruleset.dice, 0);
            }
        },
        _ => {},
    }
}

impl Game {
    /// A fresh game with the given configuration, in the `Start` state.
    pub fn new(ruleset: Ruleset) -> (r: Self)
        requires
            ruleset@.wf(),
        ensures
            r@ == initial_game(ruleset@),
            r@.wf(),
    {
        let num_dice = ruleset.dice.len();
        let mut roll: Vec<u64> = Vec::new();
        let mut keep: Vec<bool> = Vec::new();
        let mut k: usize = 0;
        while k < num_dice
            invariant
                0 <= k <= num_dice,
                roll@.len() == k,
                keep@.len() == k,
                forall|i: int| 0 <= i < k ==> roll@[i] == 1,
                forall|i: int| 0 <= i < k ==> keep@[i] == false,
            decreases num_dice - k,
        {
            roll.push(1);
            keep.push(false);
            k += 1;
        }
        let g = Game {
            message_history: Vec::new(),
            players: Vec::new(),
            ruleset,
            state: State::Start,
            round: 0,
            player_in_turn: 0,
            times_rolled: 0,
            roll,
            keep,
        };
        proof {
            assert(g@.roll =~= initial_game(g.ruleset@).roll);
            assert(g@.keep =~= initial_game(g.ruleset@).keep);
            assert(g@.message_history =~= Seq::<GameMessageV>::empty());
            assert(g@.players =~= Seq::<PlayerV>::empty());
            assert(g@ =~= initial_game(g.ruleset@));
            if num_dice > 0 {
                lemma_seq_max_ge(g.ruleset.dice@, 0);
            }
        }
        g
    }

    /// Given an event returned by `prepare`, commits it to the game state.
    /// This is the only operation that mutates a game; it applies exactly
    /// the transition `commit_spec` describes, and on any error leaves the
    /// game untouched.  Called at the followers to process game state
    /// updates from the leader.
    pub fn commit(&mut self, msg: &GameMessage) -> (r: Result<(), InvalidAction>)
        requires
            old(self)@.wf(),
            event_ok(old(self)@, msg@),
        ensures
            match r {
                Ok(()) => commit_spec(old(self)@, msg@) == Ok::<GameV, InvalidAction>(
                    final(self)@,
                ) && final(self)@.wf(),
                Err(e) => commit_spec(old(self)@, msg@) == Err::<GameV, InvalidAction>(e)
                    && final(self)@ == old(self)@,
            },
    {
        let num_rows = self.ruleset.scorings.len();
        let num_dice = self.ruleset.dice.len();

        match msg {
            GameMessage::PlayerMessage(_from_player, player_msg) => match player_msg {
                PlayerMessage::JoinGame(name) => {
                    let name = name.clone();
                    let mut score_sheet: Vec<Option<u64>> = Vec::new();
                    let mut k: usize = 0;
                    while k < num_rows
                        invariant
                            0 <= k <= num_rows,
                            score_sheet@.len() == k,
                            forall|i: int| 0 <= i < k ==> score_sheet@[i] is None,
                        decreases num_rows - k,
                    {
                        score_sheet.push(None);
                        k += 1;
                    }
                    proof {
                        assert(score_sheet@ =~= Seq::new(
                            self.ruleset.scorings@.len(),
                            |i: int| None::<u64>,
                        ));
                    }
                    self.players.push(Player { name, score_sheet });
                    proof {
                        assert(self@.players =~= old(self)@.players.push(
                            self.players@[self.players@.len() - 1]@,
                        ));
                    }
                },
                PlayerMessage::StartGame => {
                    // All turn logic is carried by the PlayerTurn event.
                },
                PlayerMessage::ToggleHold(num) => {
                    if *num >= self.keep.len() {
                        return Err(InvalidAction::OutOfBounds);
                    }
                    let cur = self.keep[*num];
                    self.keep.set(*num, !cur);
                },
                PlayerMessage::Roll => {
                    self.times_rolled = self.times_rolled + 1;
                },
                PlayerMessage::Place(selected_row) => {
                    let pit = self.player_in_turn;
                    if pit >= self.players.len() {
                        return Err(InvalidAction::OutOfBounds);
                    }
                    let res = update_score_sheet(
                        self.players[pit].score_sheet.as_slice(),
                        self.ruleset.scorings.as_slice(),
                        *selected_row,
                        self.roll.as_slice(),
                    );
                    match res {
                        Ok(ns) => {
                            let name = self.players[pit].name.clone();
                            self.players.set(pit, Player { name, score_sheet: ns });
                        },
                        Err(e) => {
                            return Err(e);
                        },
                    }
                },
            },
            GameMessage::PlayerTurn(player) => {
                self.times_rolled = 0;
                let mut roll: Vec<u64> = Vec::new();
                let mut keep: Vec<bool> = Vec::new();
                let mut k: usize = 0;
                while k < num_dice
                    invariant
                        0 <= k <= num_dice,
                        roll@.len() == k,
                        keep@.len() == k,
                        forall|i: int| 0 <= i < k ==> roll@[i] == 1,
                        forall|i: int| 0 <= i < k ==> keep@[i] == false,
                    decreases num_dice - k,
                {
                    roll.push(1);
                    keep.push(false);
                    k += 1;
                }
                proof {
                    assert(roll@ =~= Seq::new(self.ruleset.dice@.len(), |i: int| 1u64));
                    assert(keep@ =~= Seq::new(self.ruleset.dice@.len(), |i: int| false));
                    if num_dice > 0 {
                        lemma_seq_max_ge(self.ruleset.dice@, 0);
                    }
                }
                self.roll = roll;
                self.keep = keep;
                self.player_in_turn = *player;
                self.state = State::FirstRoll;
                if self.player_in_turn == 0 {
                    self.round = self.round + 1;
                }
            },
            GameMessage::RollResult(roll) => {
                self.roll = vstd::slice::slice_to_vec(roll.as_slice());
                if self.times_rolled < self.ruleset.rolls {
                    self.state = State::Reroll;
                } else {
                    self.state = State::Place;
                }
            },
            GameMessage::GameFinished => {
                self.state = State::End;
            },
        }

        self.message_history.push(msg.clone());
        proof {
            assert(self@.message_history =~= old(self)@.message_history.push(msg@));
            assert(self@.players =~= commit_spec(old(self)@, msg@)->Ok_0.players);
            assert(self@ =~= commit_spec(old(self)@, msg@)->Ok_0);
            lemma_commit_preserves_wf(old(self)@, msg@);
        }
        Ok(())
    }

    /// A fresh roll of every configured die, sorted descending.
    fn roll_dice(&self) -> (r: Vec<u64>)
        requires
            self@.wf(),
        ensures
            fresh_roll_ok(self@.ruleset.dice, r@),
            r@.len() == self@.ruleset.dice.len(),
            forall|k: int|
                0 <= k < r@.len() ==> 1 <= #[trigger] r@[k] <= seq_max(self@.ruleset.dice),
    {
        let r = roll_dice(self.ruleset.dice.as_slice());
        proof {
            let dice = self@.ruleset.dice;
            let w = choose|w: Seq<u64>|
                #[trigger] fresh_draws(dice, w) && r@.to_multiset() == w.to_multiset();
            lemma_dice_bounded_by_max(dice);
            lemma_multiset_value_bounds(r@, w, seq_max(dice));
        }
        r
    }

    /// A reroll that keeps the held dice of the current roll, sorted
    /// descending.
    fn roll_dice_keeping(&self) -> (r: Vec<u64>)
        requires
            self@.wf(),
        ensures
            kept_roll_ok(self@.ruleset.dice, self@.roll, self@.keep, r@),
            r@.len() == self@.ruleset.dice.len(),
            forall|k: int|
                0 <= k < r@.len() ==> 1 <= #[trigger] r@[k] <= seq_max(self@.ruleset.dice),
    {
        let r = roll_dice_keeping(
            self.ruleset.dice.as_slice(),
            self.roll.as_slice(),
            self.keep.as_slice(),
        );
        proof {
            let dice = self@.ruleset.dice;
            let w = choose|w: Seq<u64>|
                #[trigger] kept_draws(dice, self@.roll, self@.keep, w) && r@.to_multiset()
                    == w.to_multiset();
            lemma_dice_bounded_by_max(dice);
            lemma_multiset_value_bounds(r@, w, seq_max(dice));
        }
        r
    }

    /// Takes a command and produces the events the game would answer with,
    /// without mutating anything: it is safe to call speculatively to test
    /// whether an action would succeed.  The first event is always the echo
    /// of the command; a `Roll` adds the concrete outcome, a `StartGame` or
    /// `Place` adds whose turn is next (or that the game is finished).
    /// Unless the caller holds the authoritative game, a returned
    /// `RollResult` is not the final one.  Called at the leader to process
    /// actions from players.
    pub fn prepare(&self, from_player: usize, msg: &PlayerMessage) -> (r: Result<
        Vec<GameMessage>,
        InvalidAction,
    >)
        requires
            self@.wf(),
            self.round < usize::MAX,
        ensures
            match r {
                Ok(msgs) => {
                    &&& prepare_err(self@, from_player as int, msg@) is None
                    &&& msgs@.len() >= 1
                    &&& msgs@[0]@ == GameMessageV::PlayerMessage(from_player as int, msg@)
                    &&& match msg@ {
                        PlayerMessageV::JoinGame(_) => msgs@.len() == 1,
                        PlayerMessageV::StartGame => msgs@.len() == 2 && msgs@[1]@
                            == GameMessageV::PlayerTurn(self@.player_in_turn),
                        PlayerMessageV::ToggleHold(_) => msgs@.len() == 1,
                        PlayerMessageV::Roll => msgs@.len() == 2 && roll_followup_ok(
                            self@,
                            msgs@[1]@,
                        ),
                        PlayerMessageV::Place(_) => msgs@.len() == 2 && msgs@[1]@
                            == place_followup(self@),
                    }
                },
                Err(e) => prepare_err(self@, from_player as int, msg@) == Some(e),
            },
    {
        if from_player != self.player_in_turn {
            if matches!(self.state, State::Start) && matches!(msg, PlayerMessage::JoinGame(..)) {
                // Joining the game in the Start state does not care about
                // turn order.
            } else {
                return Err(InvalidAction::NotYourTurn);
            }
        }

        let mut messages: Vec<GameMessage> = Vec::with_capacity(2);
        messages.push(GameMessage::PlayerMessage(from_player, msg.clone()));

        match msg {
            PlayerMessage::JoinGame(..) => match self.state {
                State::Start => {},
                _ => {
                    return Err(InvalidAction::WrongState);
                },
            },
            PlayerMessage::StartGame => match self.state {
                State::Start => {
                    messages.push(GameMessage::PlayerTurn(self.player_in_turn));
                },
                _ => {
                    return Err(InvalidAction::WrongState);
                },
            },
            PlayerMessage::ToggleHold(num) => match self.state {
                State::Reroll => {
                    if *num >= self.ruleset.dice.len() {
                        return Err(InvalidAction::OutOfBounds);
                    }
                },
                _ => {
                    return Err(InvalidAction::WrongState);
                },
            },
            PlayerMessage::Roll => match self.state {
                State::FirstRoll => {
                    let roll = self.roll_dice();
                    messages.push(GameMessage::RollResult(roll));
                },
                State::Reroll => {
                    let roll = self.roll_dice_keeping();
                    messages.push(GameMessage::RollResult(roll));
                },
                _ => {
                    return Err(InvalidAction::WrongState);
                },
            },
            PlayerMessage::Place(num) => match self.state {
                State::Reroll | State::Place => {
                    if *num >= self.ruleset.scorings.len() {
                        return Err(InvalidAction::OutOfBounds);
                    }
                    let n_players = self.players.len();
                    let next_player = self.player_in_turn + 1;
                    let next_round = self.round + 1;
                    if next_player < n_players {
                        messages.push(GameMessage::PlayerTurn(next_player));
                    } else if next_round <= self.ruleset.rounds() {
                        messages.push(GameMessage::PlayerTurn(0));
                    } else {
                        messages.push(GameMessage::GameFinished);
                    }
                },
                _ => {
                    return Err(InvalidAction::WrongState);
                },
            },
        }

        Ok(messages)
    }

    /// A one-player demonstration game under the classic ruleset, with
    /// "Japsu" already joined.
    pub fn dummy() -> (r: Self)
        ensures
            r@.wf(),
            r@.state == State::Start,
            r@.round == 0,
            r@.players.len() == 1,
            r@.players[0].name == "Japsu"@,
            r@.players[0].score_sheet == Seq::new(
                r@.ruleset.scorings.len(),
                |i: int| None::<u64>,
            ),
            r@.message_history == seq![
                GameMessageV::PlayerMessage(0, PlayerMessageV::JoinGame("Japsu"@)),
            ],
            r@.ruleset == ee_rules_spec(),
    {
        let rules = ee_rules();
        let mut game = Self::new(rules);
        let join = PlayerMessage::JoinGame("Japsu".to_owned());
        let messages = game.prepare(0, &join).unwrap();
        let res = game.commit(&messages[0]);
        proof {
            assert(res is Ok);
            assert(game@.message_history =~= seq![
                GameMessageV::PlayerMessage(0, PlayerMessageV::JoinGame("Japsu"@)),
            ]);
        }
        game
    }

    /// The scoreboard: each player's total (the sum of the filled slots of
    /// the player's sheet, an empty slot counting 0) beside the player's
    /// name, sorted descending by total.
    pub fn scoreboard(&self) -> (r: Vec<(u64, &str)>)
        requires
            forall|p: int|
                0 <= p < self@.players.len() ==> sheet_points(
                    #[trigger] self@.players[p].score_sheet,
                ) <= u64::MAX,
        ensures
            r@.len() == self@.players.len(),
            forall|i: int, j: int| 0 <= i <= j < r@.len() ==> r@[i].0 >= r@[j].0,
            exists|perm: Seq<int>|
                #[trigger] perm_of(perm, self@.players.len() as int) && (forall|i: int|
                    0 <= i < r@.len() ==> r@[i].0 == sheet_points(
                        #[trigger] self@.players[perm[i]].score_sheet,
                    ) && r@[i].1@ == self@.players[perm[i]].name),
    {
        let n = self.players.len();
        let mut pairs: Vec<(u64, usize)> = Vec::new();
        let mut p: usize = 0;
        while p < n
            invariant
                0 <= p <= n,
                n == self.players@.len(),
                pairs@.len() == p,
                forall|k: int|
                    0 <= k < p ==> #[trigger] pairs@[k] == (
                        sheet_points(self@.players[k].score_sheet) as u64,
                        k as usize,
                    ),
                forall|q: int|
                    0 <= q < n ==> sheet_points(#[trigger] self@.players[q].score_sheet)
                        <= u64::MAX,
            decreases n - p,
        {
            proof {
                assert(self.players@[p as int]@ == self@.players[p as int]);
                assert(sheet_points(self@.players[p as int].score_sheet) <= u64::MAX);
                lemma_sheet_points_nonneg(self@.players[p as int].score_sheet);
            }
            let t = sum_sheet(self.players[p].score_sheet.as_slice());
            pairs.push((t, p));
            p += 1;
        }
        let ghost orig = pairs@;
        sort_pairs_desc(&mut pairs);
        let mut r: Vec<(u64, &str)> = Vec::new();
        let mut i: usize = 0;
        while i < n
            invariant
                0 <= i <= n,
                n == self.players@.len(),
                pairs@.len() == n,
                orig.len() == n,
                pairs@.to_multiset() == orig.to_multiset(),
                forall|k: int|
                    0 <= k < n ==> #[trigger] orig[k] == (
                        sheet_points(self@.players[k].score_sheet) as u64,
                        k as usize,
                    ),
                forall|k1: int, k2: int| 0 <= k1 <= k2 < n ==> pairs@[k1].0 >= pairs@[k2].0,
                r@.len() == i,
                forall|k: int|
                    0 <= k < i ==> {
                        let idx = #[trigger] pairs@[k].1 as int;
                        &&& 0 <= idx < n
                        &&& r@[k].0 == sheet_points(self@.players[idx].score_sheet)
                        &&& r@[k].1@ == self@.players[idx].name
                    },
                forall|k: int| 0 <= k < i ==> (#[trigger] r@[k].0) == pairs@[k].0,
                forall|q: int|
                    0 <= q < n ==> sheet_points(#[trigger] self@.players[q].score_sheet)
                        <= u64::MAX,
            decreases n - i,
        {
            proof {
                let k = lemma_pair_member(pairs@, orig, i as int);
                assert(orig[k] == pairs@[i as int]);
                assert(pairs@[i as int].1 == k as usize);
                lemma_sheet_points_nonneg(self@.players[k].score_sheet);
                assert(self.players@[k]@ == self@.players[k]);
            }
            let (t, idx) = pairs[i];
            r.push((t, self.players[idx].name.as_str()));
            i += 1;
        }
        proof {
            let perm = Seq::new(n as nat, |k: int| pairs@[k].1 as int);
            assert(perm_of(perm, n as int)) by {
                assert forall|k: int| 0 <= k < n implies 0 <= #[trigger] perm[k] < n by {
                    let k2 = lemma_pair_member(pairs@, orig, k);
                    assert(orig[k2] == pairs@[k]);
                }
                assert forall|v: int| 0 <= v < n implies perm.contains(v) by {
                    let k = lemma_pair_member(orig, pairs@, v);
                    assert(pairs@[k] == orig[v]);
                    assert(perm[k] == v);
                }
            }
            assert(perm_of(perm, self@.players.len() as int) && (forall|k: int|
                0 <= k < r@.len() ==> r@[k].0 == sheet_points(
                    #[trigger] self@.players[perm[k]].score_sheet,
                ) && r@[k].1@ == self@.players[perm[k]].name));
        }
        r
    }
}

/// `perm` lists each of `0 .. n` exactly once: it reorders the players.
pub open spec fn perm_of(perm: Seq<int>, n: int) -> bool {
    &&& perm.len() == n
    &&& forall|i: int| 0 <= i < n ==> 0 <= #[trigger] perm[i] < n
    &&& forall|v: int| 0 <= v < n ==> perm.contains(v)
}

/// Sum of the filled slots of a score sheet.
fn sum_sheet(sheet: &[Option<u64>]) -> (t: u64)
    requires
        sheet_points(sheet@) <= u64::MAX,
    ensures
        t as int == sheet_points(sheet@),
{
    let n = sheet.len();
    let mut t: u64 = 0;
    let mut i: usize = 0;
    while i < n
        invariant
            0 <= i <= n,
            n == sheet@.len(),
            sheet_points(sheet@) <= u64::MAX,
            t as int == sheet_points(sheet@.take(i as int)),
        decreases n - i,
    {
        proof {
            lemma_sheet_points_take_step(sheet@, i as int);
            lemma_sheet_points_take_le(sheet@, i as int + 1);
            lemma_sheet_points_nonneg(sheet@.take(i as int));
        }
        match sheet[i] {
            Some(p) => {
                t = t + p;
            },
            None => {},
        }
        i += 1;
    }
    proof {
        crate::sums::lemma_take_all(sheet@);
    }
    t
}

/// One element of a sequence is, under multiset equality, an element of the
/// other.
proof fn lemma_pair_member(s: Seq<(u64, usize)>, t: Seq<(u64, usize)>, i: int) -> (k: int)
    requires
        s.to_multiset() == t.to_multiset(),
        0 <= i < s.len(),
    ensures
        0 <= k < t.len() && t[k] == s[i],
{
    broadcast use vstd::seq_lib::group_to_multiset_ensures;

    assert(s.contains(s[i]));
    assert(s.to_multiset().count(s[i]) > 0);
    assert(t.to_multiset().count(s[i]) > 0);
    assert(t.contains(s[i]));
    let k = choose|k: int| 0 <= k < t.len() && t[k] == s[i];
    k
}

/// Sorts the (total, player) pairs largest total first, keeping exactly the
/// same pairs.
fn sort_pairs_desc(v: &mut Vec<(u64, usize)>)
    ensures
        final(v)@.len() == old(v)@.len(),
        final(v)@.to_multiset() == old(v)@.to_multiset(),
        forall|i: int, j: int|
            0 <= i <= j < final(v)@.len() ==> final(v)@[i].0 >= final(v)@[j].0,
{
    broadcast use vstd::seq_lib::group_to_multiset_ensures;

    let ghost orig = v@;
    let mut i: usize = 1;
    while i < v.len()
        invariant
            1 <= i,
            v@.len() == 0 || i <= v@.len(),
            v@.len() == orig.len(),
            v@.to_multiset() == orig.to_multiset(),
            forall|k1: int, k2: int| 0 <= k1 <= k2 < i ==> v@[k1].0 >= v@[k2].0,
        decreases v@.len() - i,
    {
        let x = v[i];
        let mut j: usize = 0;
        while j < i && v[j].0 >= x.0
            invariant
                0 <= j <= i,
                i < v@.len(),
                x == v@[i as int],
                forall|k: int| 0 <= k < j ==> v@[k].0 >= x.0,
            decreases i - j,
        {
            j += 1;
        }
        let ghost pre = v@;
        let y = v.remove(i);
        v.insert(j, y);
        proof {
            assert(v@ =~= pre.remove(i as int).insert(j as int, x));
            vstd::seq_lib::to_multiset_remove(pre, i as int);
            vstd::seq_lib::to_multiset_insert(pre.remove(i as int), j as int, x);
            assert(v@.to_multiset() == pre.to_multiset().remove(x).insert(x));
            assert(pre.contains(x)) by {
                assert(pre[i as int] == x);
            }
            vstd::seq_lib::to_multiset_contains(pre, x);
            assert(v@.to_multiset() =~= pre.to_multiset());
            assert(forall|k: int| 0 <= k < j ==> v@[k] == pre[k]);
            assert(v@[j as int] == x);
            assert(forall|k: int| j < k <= i ==> v@[k] == pre[k - 1]);
            assert forall|k1: int, k2: int|
                0 <= k1 <= k2 <= i as int implies v@[k1].0 >= v@[k2].0 by {
                if k2 > j {
                    assert(pre[j as int].0 < x.0);
                }
            }
        }
        i += 1;
    }
}

/// Which error, if any, `prepare` rejects this command with: a command from
/// the wrong player is rejected first (joining during `Start` excepted),
/// then a command that is illegal in the current state, then an out-of-range
/// die or row index.
pub open spec fn prepare_err(g: GameV, from: int, m: PlayerMessageV) -> Option<InvalidAction> {
    if from != g.player_in_turn && !(g.state == State::Start && m is JoinGame) {
        Some(InvalidAction::NotYourTurn)
    } else {
        match m {
            PlayerMessageV::JoinGame(_) => if g.state == State::Start {
                None
            } else {
                Some(InvalidAction::WrongState)
            },
            PlayerMessageV::StartGame => if g.state == State::Start {
                None
            } else {
                Some(InvalidAction::WrongState)
            },
            PlayerMessageV::ToggleHold(i) => if g.state == State::Reroll {
                if i >= g.ruleset.dice.len() {
                    Some(InvalidAction::OutOfBounds)
                } else {
                    None
                }
            } else {
                Some(InvalidAction::WrongState)
            },
            PlayerMessageV::Roll => if g.state == State::FirstRoll || g.state == State::Reroll {
                None
            } else {
                Some(InvalidAction::WrongState)
            },
            PlayerMessageV::Place(i) => if g.state == State::Reroll || g.state == State::Place {
                if i >= g.ruleset.scorings.len() {
                    Some(InvalidAction::OutOfBounds)
                } else {
                    None
                }
            } else {
                Some(InvalidAction::WrongState)
            },
        }
    }
}

/// The event that follows a placement: the next player's turn, the next
/// round's first turn, or the end of the game once the final round for the
/// final player is placed.
pub open spec fn place_followup(g: GameV) -> GameMessageV {
    if g.player_in_turn + 1 < g.players.len() {
        GameMessageV::PlayerTurn(g.player_in_turn + 1)
    } else if g.round + 1 <= rounds_spec(g.ruleset.scorings) {
        GameMessageV::PlayerTurn(0)
    } else {
        GameMessageV::GameFinished
    }
}

/// What the roll outcome `prepare` packages satisfies: one legal value per
/// die, sorted descending, drawn afresh on the first roll of a turn and
/// keeping the held dice on a reroll.
pub open spec fn roll_followup_ok(g: GameV, m: GameMessageV) -> bool {
    match m {
        GameMessageV::RollResult(vals) => {
            &&& vals.len() == g.ruleset.dice.len()
            &&& forall|k: int|
                0 <= k < vals.len() ==> 1 <= #[trigger] vals[k] <= seq_max(g.ruleset.dice)
            &&& if g.state == State::FirstRoll {
                fresh_roll_ok(g.ruleset.dice, vals)
            } else {
                kept_roll_ok(g.ruleset.dice, g.roll, g.keep, vals)
            }
        },
        _ => false,
    }
}

/// The game a ruleset and an event log rebuild: the fold of `commit_spec`
/// over the log, from the fresh game, or `None` if some event is rejected.
pub open spec fn replay(rs: RulesetV, log: Seq<GameMessageV>) -> Option<GameV>
    decreases log.len(),
{
    if log.len() == 0 {
        Some(initial_game(rs))
    } else {
        match replay(rs, log.drop_last()) {
            Some(g) => match commit_spec(g, log.last()) {
                Ok(g2) => Some(g2),
                Err(_) => None,
            },
            None => None,
        }
    }
}

/// Committing an event appends exactly that event to the log and nothing
/// else.
pub proof fn lemma_commit_appends(g: GameV, m: GameMessageV)
    requires
        commit_spec(g, m) is Ok,
    ensures
        commit_spec(g, m)->Ok_0.message_history == g.message_history.push(m),
{
    match m {
        GameMessageV::PlayerMessage(_from, pm) => match pm {
            PlayerMessageV::JoinGame(_) => {},
            PlayerMessageV::StartGame => {},
            PlayerMessageV::ToggleHold(_) => {},
            PlayerMessageV::Roll => {},
            PlayerMessageV::Place(_) => {},
        },
        GameMessageV::PlayerTurn(_) => {},
        GameMessageV::RollResult(_) => {},
        GameMessageV::GameFinished => {},
    }
}

/// A game reached by replaying a log carries exactly that log in
/// `message_history`.
proof fn lemma_replay_history(rs: RulesetV, log: Seq<GameMessageV>)
    requires
        replay(rs, log) is Some,
    ensures
        replay(rs, log)->Some_0.message_history == log,
    decreases log.len(),
{
    if log.len() == 0 {
        assert(replay(rs, log)->Some_0.message_history =~= log);
    } else {
        lemma_replay_history(rs, log.drop_last());
        let g = replay(rs, log.drop_last())->Some_0;
        lemma_commit_appends(g, log.last());
        assert(g.message_history.push(log.last()) =~= log);
    }
}

/// Replay determinism: a game reached by a sequence of successful commits
/// carries that whole event sequence in `message_history`, so replaying its
/// own log from a fresh game with the same ruleset rebuilds exactly the
/// same game.
pub proof fn lemma_replay_determinism(rs: RulesetV, log: Seq<GameMessageV>)
    requires
        replay(rs, log) is Some,
    ensures
        replay(rs, log)->Some_0.message_history == log,
        replay(rs, replay(rs, log)->Some_0.message_history) == replay(rs, log),
{
    lemma_replay_history(rs, log);
}

} // verus!
