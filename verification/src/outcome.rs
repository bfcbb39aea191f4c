//! The result of applying an action: a decisive end of the game, or the
//! list of legal actions of the position that was reached.

use vstd::prelude::*;
use crate::player::Player;

verus! {

/// Result of one applied action. `Actions` carries the legal actions of
/// the new position, in the game's enumeration order.
pub enum Outcome<A> {
    P1Win,
    P2Win,
    Draw,
    Actions(Vec<A>),
}

/// Mathematical image of an [`Outcome`]: the action list as a sequence.
pub enum OutcomeView<A> {
    P1Win,
    P2Win,
    Draw,
    Actions(Seq<A>),
}

impl<A> View for Outcome<A> {
    type V = OutcomeView<A>;

    open spec fn view(&self) -> OutcomeView<A> {
        match self {
            Outcome::P1Win => OutcomeView::P1Win,
            Outcome::P2Win => OutcomeView::P2Win,
            Outcome::Draw => OutcomeView::Draw,
            Outcome::Actions(v) => OutcomeView::Actions(v@),
        }
    }
}

impl<A> OutcomeView<A> {
    /// The game has ended: a win or a draw, not a continuing position.
    pub open spec fn is_decisive(self) -> bool {
        !(self matches OutcomeView::Actions(_))
    }

    /// Reward of this outcome image for `player`, in half-points.
    pub open spec fn spec_reward(self, player: Player) -> u64 {
        match self {
            OutcomeView::P1Win => if player == Player::P1 {
                2
            } else {
                0
            },
            OutcomeView::P2Win => if player == Player::P2 {
                2
            } else {
                0
            },
            _ => 1,
        }
    }
}

impl<A> Outcome<A> {
    /// The game has ended: a win or a draw, not a continuing position.
    pub open spec fn is_decisive(self) -> bool {
        !(self matches Outcome::Actions(_))
    }

    /// The action list carried by a continuing outcome; empty otherwise.
    pub open spec fn spec_actions(self) -> Seq<A> {
        match self {
            Outcome::Actions(v) => v@,
            _ => Seq::empty(),
        }
    }

    /// Reward of this outcome for `player`, in half-points:
    /// 2 for a win of `player`, 0 for a win of the opponent, 1 otherwise.
    pub open spec fn spec_reward(self, player: Player) -> u64 {
        match self {
            Outcome::P1Win => if player == Player::P1 { 2 } else { 0 },
            Outcome::P2Win => if player == Player::P2 { 2 } else { 0 },
            _ => 1,
        }
    }

    /// Returns the reward of this outcome for `player` in half-points.
    pub fn reward(&self, player: Player) -> (r: u64)
        ensures
            r == self.spec_reward(player),
            r <= 2,
    {
        match self {
            Outcome::P1Win => if player == Player::P1 { 2 } else { 0 },
            Outcome::P2Win => if player == Player::P2 { 2 } else { 0 },
            _ => 1,
        }
    }

    /// The decisive outcome in which `player` has won.
    pub fn from_player(player: Player) -> (r: Self)
        ensures
            player == Player::P1 ==> r matches Outcome::P1Win,
            player == Player::P2 ==> r matches Outcome::P2Win,
    {
        match player {
            Player::P1 => Outcome::P1Win,
            Player::P2 => Outcome::P2Win,
        }
    }

    /// An outcome and its image agree on the reward.
    pub proof fn lemma_reward_view(self, player: Player)
        ensures
            self.spec_reward(player) == self@.spec_reward(player),
    {
    }

    /// Extracts the action list: the carried actions of a continuing
    /// outcome, or an empty list for a decisive one.
    pub fn as_actions(self) -> (r: Vec<A>)
        ensures
            r@ == self.spec_actions(),
    {
        match self {
            Outcome::Actions(v) => v,
            _ => Vec::new(),
        }
    }
}

} // verus!
