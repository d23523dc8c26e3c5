use vstd::prelude::*;

use crate::board::{opt_seq, GameBoard};
use crate::gameplay::{
    beats, spec_opponent, CardRef, GameOutcome, GameOverReason, Player, Rps, RpsOutcome, Step, Zone,
};
use crate::state::spec_board;
use crate::state::GameState;

verus! {

// ------------------------------------------------------------------
// steps and turns
// ------------------------------------------------------------------

/// The step that follows a step; after the end step, the reset step of the next turn.
pub open spec fn step_after(step: Step) -> Step {
    match step {
        Step::Setup => Step::Reset,
        Step::Reset => Step::Draw,
        Step::Draw => Step::Cheer,
        Step::Cheer => Step::Main,
        Step::Main => Step::Performance,
        Step::Performance => Step::End,
        Step::End => Step::Reset,
        Step::GameOver => Step::GameOver,
    }
}

impl GameState {
    /// Moves the game to its next step. A game that is over stays as it is and gives its
    /// outcome. After the end step the other player becomes active; a reset step starts a new
    /// turn, which counts one more, and the result says so.
    pub fn advance_step(&mut self) -> (res: Result<bool, GameOutcome>)
        requires
            old(self).game_outcome is None ==> old(self).active_step != Step::GameOver,
            old(self).game_outcome is None && old(self).active_step == Step::End
                ==> old(self).active_player != Player::Both,
            old(self).game_outcome is None && step_after(old(self).active_step) == Step::Reset
                ==> old(self).turn_number < 255,
        ensures
            match old(self).game_outcome {
                Some(o) => res == Err::<bool, GameOutcome>(o) && *final(self) == *old(self),
                None => {
                    let next = step_after(old(self).active_step);
                    &&& res == Ok::<bool, GameOutcome>(next == Step::Reset)
                    &&& *final(self) == (GameState {
                        active_step: next,
                        active_player: if old(self).active_step == Step::End {
                            spec_opponent(old(self).active_player)
                        } else {
                            old(self).active_player
                        },
                        turn_number: if next == Step::Reset {
                            (old(self).turn_number + 1) as u8
                        } else {
                            old(self).turn_number
                        },
                        ..*old(self)
                    })
                },
            },
    {
        match self.game_outcome {
            Some(o) => {
                return Err(o);
            },
            None => {},
        }
        let next = match self.active_step {
            Step::Setup => Step::Reset,
            Step::Reset => Step::Draw,
            Step::Draw => Step::Cheer,
            Step::Cheer => Step::Main,
            Step::Main => Step::Performance,
            Step::Performance => Step::End,
            Step::End => {
                self.active_player = self.active_player.opponent();
                Step::Reset
            },
            Step::GameOver => Step::GameOver,
        };
        self.active_step = next;
        if next == Step::Reset {
            self.turn_number = self.turn_number + 1;
            Ok(true)
        } else {
            Ok(false)
        }
    }
}

// ------------------------------------------------------------------
// what the steps of a turn do
// ------------------------------------------------------------------

/// What the reset step does for the active player.
#[derive(Debug, Clone)]
pub struct ResetStep {
    /// The members on the stage, which stop resting.
    pub wake_up: Vec<CardRef>,
    /// The collab member, which goes back to the back stage and rests.
    pub collab_to_back: Option<CardRef>,
    /// Whether the player then chooses a new center from the back stage.
    pub choose_center: bool,
}

/// A board needs a new center when its center is empty and its back stage is not.
pub open spec fn spec_needs_center(b: GameBoard) -> bool {
    b.center_stage is None && b.back_stage@.len() > 0
}

impl GameBoard {
    /// Whether the board needs a new center: its center is empty and its back stage is not.
    pub fn needs_new_center(&self) -> (res: bool)
        ensures
            res == spec_needs_center(*self),
    {
        self.center_stage.is_none() && self.back_stage.len() > 0
    }
}

impl GameState {
    /// The reset step of the active player: every member on the stage stops resting, then
    /// the collab member goes back to the back stage and rests, then a new center is chosen
    /// if the center is empty and the back stage, with the member that came back, is not.
    pub fn reset_step(&self) -> (res: ResetStep)
        requires
            self.active_player != Player::Both,
        ensures
            ({
                let b = spec_board(*self, self.active_player);
                &&& res.wake_up@ == b.zone_cards(Zone::Stage)
                &&& res.collab_to_back == b.collab
                &&& res.choose_center == (b.center_stage is None && (b.back_stage@.len() > 0
                    || b.collab is Some))
            }),
    {
        let board = self.board(self.active_player);
        let wake_up = board.stage();
        let collab_to_back = board.collab;
        let choose_center = board.center_stage.is_none() && (board.back_stage.len() > 0
            || collab_to_back.is_some());
        ResetStep { wake_up, collab_to_back, choose_center }
    }

    /// The draw step of the active player: it loses when its main deck is empty, and else
    /// draws one card.
    pub fn draw_step(&self) -> (res: Option<GameOverReason>)
        requires
            self.active_player != Player::Both,
        ensures
            res == if spec_board(*self, self.active_player).main_deck@.len() == 0 {
                Some(GameOverReason::EmptyDeckInDrawStep)
            } else {
                None
            },
    {
        if self.board(self.active_player).main_deck.len() == 0 {
            Some(GameOverReason::EmptyDeckInDrawStep)
        } else {
            None
        }
    }

    /// The end step of the active player: whether it chooses a new center.
    pub fn end_step(&self) -> (res: bool)
        requires
            self.active_player != Player::Both,
        ensures
            res == spec_needs_center(spec_board(*self, self.active_player)),
    {
        self.board(self.active_player).needs_new_center()
    }
}

// ------------------------------------------------------------------
// winning and losing
// ------------------------------------------------------------------

/// Why a board loses the game: no member on the stage, else no life left.
pub open spec fn board_loss(b: GameBoard) -> Option<GameOverReason> {
    if opt_seq(b.center_stage).len() + opt_seq(b.collab).len() + b.back_stage@.len() == 0 {
        Some(GameOverReason::EmptyStage)
    } else if b.life@.len() == 0 {
        Some(GameOverReason::EmptyLife)
    } else {
        None
    }
}

/// The player who loses and why: player one is looked at first; nobody loses during the
/// setup.
pub open spec fn spec_loss(s: GameState) -> Option<(Player, GameOverReason)> {
    if s.active_step == Step::Setup {
        None
    } else {
        match board_loss(s.player_1) {
            Some(r) => Some((Player::One, r)),
            None => match board_loss(s.player_2) {
                Some(r) => Some((Player::Two, r)),
                None => None,
            },
        }
    }
}

fn board_loss_exec(b: &GameBoard) -> (res: Option<GameOverReason>)
    ensures
        res == board_loss(*b),
{
    if b.main_stage().len() == 0 && b.back_stage.len() == 0 {
        Some(GameOverReason::EmptyStage)
    } else if b.life.len() == 0 {
        Some(GameOverReason::EmptyLife)
    } else {
        None
    }
}

impl GameState {
    /// Who loses the game now, and why: a player with no member on the stage, or with no
    /// life left.
    pub fn loss_condition(&self) -> (res: Option<(Player, GameOverReason)>)
        ensures
            res == spec_loss(*self),
    {
        if self.active_step == Step::Setup {
            return None;
        }
        match board_loss_exec(&self.player_1) {
            Some(r) => Some((Player::One, r)),
            None => match board_loss_exec(&self.player_2) {
                Some(r) => Some((Player::Two, r)),
                None => None,
            },
        }
    }

    /// The outcome when the active player wins.
    pub fn win_game(&self, reason: GameOverReason) -> (res: GameOutcome)
        requires
            self.active_player != Player::Both,
        ensures
            res == (GameOutcome { winning_player: Some(self.active_player), reason }),
    {
        GameOutcome { winning_player: Some(self.active_player), reason }
    }

    /// The active player loses: the other player becomes active and wins.
    pub fn lose_game(&mut self, reason: GameOverReason) -> (res: GameOutcome)
        requires
            old(self).active_player != Player::Both,
        ensures
            *final(self) == (GameState {
                active_player: spec_opponent(old(self).active_player),
                ..*old(self)
            }),
            res == (GameOutcome {
                winning_player: Some(spec_opponent(old(self).active_player)),
                reason,
            }),
    {
        self.active_player = self.active_player.opponent();
        self.win_game(reason)
    }
}

// ------------------------------------------------------------------
// the setup
// ------------------------------------------------------------------

/// The number of cards of a first hand.
pub const STARTING_HAND_SIZE: usize = 7;

/// Who goes first: the winner of rock, paper, scissors; nobody on a draw, which is played
/// again.
pub fn rps_winner(rps_1: Rps, rps_2: Rps) -> (res: Option<Player>)
    ensures
        res == if beats(rps_1, rps_2) {
            Some(Player::One)
        } else if beats(rps_2, rps_1) {
            Some(Player::Two)
        } else {
            None
        },
{
    match rps_1.vs(rps_2) {
        RpsOutcome::Win => Some(Player::One),
        RpsOutcome::Lose => Some(Player::Two),
        RpsOutcome::Draw => None,
    }
}

/// What happens to a hand after a look at it.
#[derive(Debug, Clone, Copy, PartialEq, Eq, Structural)]
pub enum Mulligan {
    /// The player keeps the hand.
    Keep,
    /// The hand goes back to the deck, which is shuffled, and `cards` are drawn; a forced
    /// mulligan after the first shows the hand first. The next hand is one card smaller, and
    /// the player loses when it would hold none.
    Redraw { reveal: bool, cards: usize, next_draw: usize, lost: bool },
}

/// Whether the player is asked for a mulligan: only for the first hand, and only when none
/// is forced.
pub open spec fn asks_mulligan(draw: usize, forced: bool) -> bool {
    !forced && draw == STARTING_HAND_SIZE
}

/// What follows a look at a hand of `draw` cards: a mulligan is forced when the hand holds no
/// debut member, and may be chosen for the first hand.
pub fn mulligan_step(draw: usize, forced: bool, wants: bool) -> (res: Mulligan)
    requires
        0 < draw <= STARTING_HAND_SIZE,
    ensures
        res == if forced || (asks_mulligan(draw, forced) && wants) {
            Mulligan::Redraw {
                reveal: forced && draw != STARTING_HAND_SIZE,
                cards: draw,
                next_draw: (draw - 1) as usize,
                lost: draw == 1,
            }
        } else {
            Mulligan::Keep
        },
{
    let voluntary = draw == STARTING_HAND_SIZE;
    if forced || (voluntary && wants) {
        Mulligan::Redraw { reveal: forced && !voluntary, cards: draw, next_draw: draw - 1, lost: draw == 1 }
    } else {
        Mulligan::Keep
    }
}

} // verus!
