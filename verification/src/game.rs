//! The capability set a game must implement for the search engine: apply
//! an action, enumerate legal actions, report whose turn it is, report a
//! win. Every operation is deterministic: the executable methods are tied
//! to spec functions of the position's mathematical image alone.

use vstd::prelude::*;
use crate::player::Player;
use crate::outcome::{Outcome, OutcomeView};
use crate::randsrc::rng_below;

verus! {

/// One game position. `Self::V` is the mathematical image of a position;
/// the spec functions pin every operation down as a function of it.
pub trait State: Sized + View {
    /// An action: a small copyable value meaningful only to the game.
    type Action: Copy;

    /// The player to move.
    spec fn spec_next(v: Self::V) -> Player;

    /// Whether `p` has won in the position.
    spec fn won(v: Self::V, p: Player) -> bool;

    /// The legal actions of `p`, in the game's enumeration order.
    spec fn legal_actions(v: Self::V, p: Player) -> Seq<Self::Action>;

    /// The position reached by `a`.
    spec fn next_view(v: Self::V, a: Self::Action) -> Self::V;

    /// The outcome reported when `a` is applied.
    spec fn action_outcome(v: Self::V, a: Self::Action) -> OutcomeView<Self::Action>;

    /// An upper bound on the length of any line of play from the
    /// position: applying a legal action strictly decreases it. Random
    /// playouts terminate because of it.
    spec fn measure(v: Self::V) -> nat;

    /// Structural soundness of the position's representation (board
    /// sizes and the like), established by `initial` and kept by
    /// `do_action`.
    spec fn inv(v: Self::V) -> bool;

    /// A fresh starting position.
    fn initial() -> (s: Self)
        ensures
            Self::inv(s@),
    ;

    /// Returns the player to move.
    fn next_player(&self) -> (p: Player)
        ensures
            p == Self::spec_next(self@),
    ;

    /// Returns whether `p` has won.
    fn has_won(&self, p: Player) -> (r: bool)
        requires
            Self::inv(self@),
        ensures
            r == Self::won(self@, p),
    ;

    /// Returns the legal actions of `p`, in enumeration order. Repeated
    /// calls on an unmodified state yield the same list.
    fn valid_actions(&self, p: Player) -> (r: Vec<Self::Action>)
        requires
            Self::inv(self@),
        ensures
            r@ == Self::legal_actions(self@, p),
    ;

    /// Applies `a` to the position and reports the outcome, a function of
    /// the old position and `a` alone. A continuing outcome carries
    /// exactly the legal actions of the player to move next, and a legal
    /// action shrinks the measure.
    fn do_action(&mut self, a: Self::Action) -> (o: Outcome<Self::Action>)
        requires
            Self::inv(old(self)@),
        ensures
            Self::inv(final(self)@),
            final(self)@ == Self::next_view(old(self)@, a),
            o@ == Self::action_outcome(old(self)@, a),
            o matches Outcome::Actions(v)
                ==> v@ == Self::legal_actions(final(self)@, Self::spec_next(final(self)@)),
            Self::legal_actions(old(self)@, Self::spec_next(old(self)@)).contains(a)
                ==> Self::measure(final(self)@) < Self::measure(old(self)@),
    ;

    /// Returns a copy of the position: a state with the same image.
    fn clone_state(&self) -> (r: Self)
        ensures
            r@ == self@,
    ;

    /// Decides equality of two actions.
    fn actions_equal(a: Self::Action, b: Self::Action) -> (r: bool)
        ensures
            r == (a == b),
    ;
}

/// The outcome of a standing position: a win if one exists, a draw when no
/// action is left, and the legal action list otherwise.
pub open spec fn spec_outcome_of<S: State>(v: S::V) -> OutcomeView<S::Action> {
    if S::won(v, Player::P1) {
        OutcomeView::P1Win
    } else if S::won(v, Player::P2) {
        OutcomeView::P2Win
    } else if S::legal_actions(v, S::spec_next(v)).len() == 0 {
        OutcomeView::Draw
    } else {
        OutcomeView::Actions(S::legal_actions(v, S::spec_next(v)))
    }
}

/// Evaluates a standing position, without applying any action.
pub fn outcome_of<S: State>(s: &S) -> (o: Outcome<S::Action>)
    requires
        S::inv(s@),
    ensures
        o@ == spec_outcome_of::<S>(s@),
{
    if s.has_won(Player::P1) {
        Outcome::P1Win
    } else if s.has_won(Player::P2) {
        Outcome::P2Win
    } else {
        let actions = s.valid_actions(s.next_player());
        if actions.len() == 0 {
            Outcome::Draw
        } else {
            Outcome::Actions(actions)
        }
    }
}

/// The rollout relation: from position `v`, some sequence of at most
/// `fuel` legal actions — each drawn from the legal set of the position
/// it is applied to — leads to `w`, and the last action's outcome was
/// decisive with reward `r` for `player`; or a position with no legal
/// action was met, which counts as a draw (`r == 1`) on the spot. This
/// is exactly what a playout may produce; which branch the random draws
/// pick is not determined.
pub open spec fn rollout_reaches<S: State>(
    v: S::V,
    w: S::V,
    player: Player,
    r: u64,
    fuel: nat,
) -> bool
    decreases fuel,
{
    if S::legal_actions(v, S::spec_next(v)).len() == 0 {
        w == v && r == 1
    } else {
        &&& fuel > 0
        &&& exists|a: S::Action|
            {
                &&& #[trigger] S::legal_actions(v, S::spec_next(v)).contains(a)
                &&& match S::action_outcome(v, a) {
                    OutcomeView::Actions(x) => rollout_reaches::<S>(
                        S::next_view(v, a),
                        w,
                        player,
                        r,
                        (fuel - 1) as nat,
                    ),
                    o => w == S::next_view(v, a) && r == o.spec_reward(player),
                }
            }
    }
}

/// A uniformly random playout from `state`, whose own outcome is already
/// `outcome`. If that outcome is decisive its reward is returned at once:
/// no action is applied and no random draw is consumed. Otherwise actions
/// are sampled uniformly from the current legal set until the game ends;
/// a continuing outcome with no actions counts as a draw. The reward is
/// for `player`, in half-points. The sampling loop terminates because a
/// legal action strictly shrinks the game's measure.
#[verifier::loop_isolation(false)]
pub fn playout<S: State>(
    state: &mut S,
    rng: &mut rand::rngs::StdRng,
    player: Player,
    outcome: &Outcome<S::Action>,
) -> (r: u64)
    requires
        S::inv(old(state)@),
        (*outcome) matches Outcome::Actions(v)
            ==> v@ == S::legal_actions(old(state)@, S::spec_next(old(state)@)),
    ensures
        r <= 2,
        outcome.is_decisive() ==> r == outcome.spec_reward(player),
        outcome.is_decisive() ==> *final(state) == *old(state),
        outcome.is_decisive() ==> *final(rng) == *old(rng),
        (*outcome) matches Outcome::Actions(first) ==> exists|fuel: nat|
            rollout_reaches::<S>(old(state)@, final(state)@, player, r, fuel),
        ((*outcome) matches Outcome::Actions(first) && first@.len() > 0) ==> S::measure(
            final(state)@,
        ) < S::measure(old(state)@),
{
    match outcome {
        Outcome::Actions(first) => {
            let mut acts: Vec<S::Action> = Vec::new();
            let mut k: usize = 0;
            while k < first.len()
                invariant
                    acts@ == first@.take(k as int),
                    k <= first@.len(),
                decreases first@.len() - k,
            {
                acts.push(first[k]);
                proof {
                    assert(acts@ =~= first@.take(k + 1));
                }
                k = k + 1;
            }
            proof {
                assert(first@.take(first@.len() as int) =~= first@);
            }
            let ghost v0 = state@;
            let ghost mut steps: nat = 0;
            loop
                invariant
                    S::inv(state@),
                    !outcome.is_decisive(),
                    acts@ == S::legal_actions(state@, S::spec_next(state@)),
                    steps == 0 ==> state@ == v0,
                    steps > 0 ==> S::measure(state@) < S::measure(v0),
                    forall|w: S::V, rr: u64, f: nat|
                        #[trigger] rollout_reaches::<S>(state@, w, player, rr, f)
                            ==> rollout_reaches::<S>(v0, w, player, rr, (f + steps) as nat),
                decreases S::measure(state@),
            {
                if acts.len() == 0 {
                    proof {
                        assert(rollout_reaches::<S>(state@, state@, player, 1, 0));
                        assert(rollout_reaches::<S>(v0, state@, player, 1, steps));
                        if first@.len() > 0 {
                            assert(steps > 0);
                        }
                    }
                    return 1;
                }
                let i = rng_below(rng, acts.len());
                let a = acts[i];
                let ghost pre = state@;
                proof {
                    assert(S::legal_actions(state@, S::spec_next(state@)).contains(a));
                }
                let o = state.do_action(a);
                match o {
                    Outcome::Actions(v) => {
                        acts = v;
                        proof {
                            steps = steps + 1;
                            assert forall|w: S::V, rr: u64, f: nat|
                                #[trigger] rollout_reaches::<S>(state@, w, player, rr, f)
                                    implies rollout_reaches::<S>(
                                    v0,
                                    w,
                                    player,
                                    rr,
                                    (f + steps) as nat,
                                ) by {
                                assert(S::legal_actions(pre, S::spec_next(pre)).contains(
                                    a,
                                ));
                                assert(rollout_reaches::<S>(
                                    pre,
                                    w,
                                    player,
                                    rr,
                                    (f + 1) as nat,
                                ));
                            }
                        }
                    },
                    _ => {
                        let rew = o.reward(player);
                        proof {
                            o.lemma_reward_view(player);
                            assert(S::legal_actions(pre, S::spec_next(pre)).contains(a));
                            assert(rollout_reaches::<S>(pre, state@, player, rew, 1));
                            assert(rollout_reaches::<S>(
                                v0,
                                state@,
                                player,
                                rew,
                                (1 + steps) as nat,
                            ));
                        }
                        return rew;
                    },
                }
            }
        },
        _ => outcome.reward(player),
    }
}

} // verus!
