//! The search tree: owns the root, the committed position and the random
//! source; drives iterations for a time budget, recommends a move, and
//! re-roots when a real move is committed.

use vstd::prelude::*;
use crate::player::Player;
use crate::game::{State, outcome_of, spec_outcome_of, rollout_reaches};
use crate::outcome::OutcomeView;
use crate::node::{Node, select_step, counted, lemma_select_step_counted};
use crate::fixed::MAX_VISITS;
use crate::randsrc::rng_from_seed;
use crate::clock::{instant_now, elapsed_millis};

verus! {

/// A recoverable engine error.
#[derive(Clone, Copy, Debug, PartialEq, Eq, Structural)]
pub enum MctsError {
    /// A committed action has no expanded child under the root.
    ActionNotFound,
    /// The root has no children to recommend from.
    NoLegalMoves,
}

/// The search tree for one game from a fixed perspective.
pub struct MCTree<S: State> {
    /// The root: the node of the current committed position.
    pub root: Node<S>,
    /// The authoritative committed position, in lockstep with the root:
    /// every committed action, the root's own included, is applied to it.
    pub state: S,
    /// The injected, seeded random source for playouts.
    pub rng: rand::rngs::StdRng,
    /// The player whose win probability every node value estimates.
    pub perspective: Player,
}

impl<S: State> MCTree<S> {
    /// The tree is well formed when its root is, its visit accounting
    /// holds everywhere — every visit of a node beyond its seeding one
    /// is a visit of one of its children — and the committed position's
    /// representation is sound.
    pub open spec fn wf(self) -> bool {
        self.root.wf() && counted::<S>(self.root) && S::inv(self.state@)
    }

    /// Builds a tree over `state`, in which `to_move` plays next,
    /// estimating win probability for `perspective`. `seed` fixes the
    /// random source, making the search reproducible. The root is seeded
    /// with one playout, so it starts with one visit.
    pub fn new(state: S, perspective: Player, to_move: Player, seed: u64) -> (t: MCTree<S>)
        requires
            S::inv(state@),
        ensures
            t.wf(),
            t.root.visits == 1,
            t.root.action is None,
            t.root.just_acted == to_move.spec_other(),
            t.perspective == perspective,
            t.state == state,
            t.root.untried_from == 0,
            t.root.children@.len() == 0,
            spec_outcome_of::<S>(state@) matches OutcomeView::Actions(v) ==> t.root.actions@
                == v,
            spec_outcome_of::<S>(state@) matches OutcomeView::P1Win ==> t.root.actions@.len()
                == 0 && t.root.reward == (if perspective == Player::P1 {
                2int
            } else {
                0int
            }),
            spec_outcome_of::<S>(state@) matches OutcomeView::P2Win ==> t.root.actions@.len()
                == 0 && t.root.reward == (if perspective == Player::P2 {
                2int
            } else {
                0int
            }),
            spec_outcome_of::<S>(state@) matches OutcomeView::Draw ==> t.root.actions@.len()
                == 0 && t.root.reward == 1,
            spec_outcome_of::<S>(state@) matches OutcomeView::Actions(v) ==> exists|
                fuel: nat,
                w: S::V,
            |
                rollout_reaches::<S>(state@, w, perspective, t.root.reward, fuel),
    {
        let mut rng = rng_from_seed(seed);
        let st = state.clone_state();
        let outcome = outcome_of(&state);
        let root = Node::new(None, to_move.other(), st, outcome, perspective, &mut rng);
        MCTree { root, state, rng, perspective }
    }

    /// One search iteration: clones the committed position, runs the tree
    /// policy from the root, and backs the playout result up into it. The
    /// root gains exactly one visit and the result in reward.
    pub fn iter(&mut self) -> (r: u64)
        requires
            old(self).wf(),
            old(self).root.visits < MAX_VISITS,
        ensures
            final(self).wf(),
            r <= 2,
            final(self).root.visits == old(self).root.visits + 1,
            final(self).root.reward == old(self).root.reward + r,
            final(self).root.action == old(self).root.action,
            final(self).root.just_acted == old(self).root.just_acted,
            final(self).root.actions == old(self).root.actions,
            final(self).state == old(self).state,
            final(self).perspective == old(self).perspective,
            select_step::<S>(old(self).root, final(self).root, r),
            (old(self).root.untried_from == old(self).root.actions@.len() && old(
                self,
            ).root.children@.len() == 0) ==> final(self).rng == old(self).rng,
    {
        let st = self.state.clone_state();
        let mut root = Node {
            action: None,
            just_acted: Player::P1,
            visits: 1,
            reward: 0,
            actions: Vec::new(),
            untried_from: 0,
            children: Vec::new(),
        };
        core::mem::swap(&mut self.root, &mut root);
        let ghost pre_root = root;
        let (root2, val) = root.select(st, &mut self.rng, self.perspective);
        self.root = root2;
        proof {
            lemma_select_step_counted::<S>(pre_root, self.root, val);
        }
        val
    }

    /// Runs whole iterations until `milliseconds` of wall-clock time have
    /// passed — the deadline is only checked between iterations — or the
    /// visit cap is reached. Returns how many iterations ran: the root
    /// gains exactly that many visits.
    pub fn search_for(&mut self, milliseconds: u64) -> (iters: u64)
        requires
            old(self).wf(),
        ensures
            final(self).wf(),
            final(self).root.visits == old(self).root.visits + iters,
            final(self).root.action == old(self).root.action,
            final(self).root.just_acted == old(self).root.just_acted,
            final(self).root.actions == old(self).root.actions,
            final(self).state == old(self).state,
            final(self).perspective == old(self).perspective,
    {
        let start = instant_now();
        let mut iters: u64 = 0;
        let ghost v0 = self.root.visits;
        let ghost s0 = self.state;
        let ghost p0 = self.perspective;
        let ghost a0 = self.root.action;
        let ghost j0 = self.root.just_acted;
        let ghost l0 = self.root.actions;
        while self.root.visits < MAX_VISITS && elapsed_millis(&start) < milliseconds as u128
            invariant
                self.wf(),
                self.root.visits == v0 + iters,
                self.state == s0,
                self.perspective == p0,
                self.root.action == a0,
                self.root.just_acted == j0,
                self.root.actions == l0,
            decreases MAX_VISITS - self.root.visits,
        {
            self.iter();
            iters = iters + 1;
        }
        iters
    }

    /// A read-only snapshot of the root: its visit count, its estimated
    /// value as the exact fraction `numerator / denominator`, and the
    /// least and greatest depth of any line explored beneath it.
    pub fn root_statistics(&self) -> (r: (u64, u64, u64, u64, u64))
        requires
            self.wf(),
            self.root.visits <= MAX_VISITS,
        ensures
            r.0 == self.root.visits,
            r.1 == self.root.reward,
            r.2 == 2 * self.root.visits,
            r.3 as int == self.root.spec_min_depth(),
            r.4 as int == self.root.spec_max_depth(),
    {
        let (num, den) = self.root.value();
        (self.root.visits(), num, den, self.root.min_depth(), self.root.max_depth())
    }

    /// Finds the first child of `root` whose action equals `action`.
    fn find_child(root: &Node<S>, action: S::Action) -> (r: Option<usize>)
        ensures
            r matches Some(i) ==> 0 <= i < root.children@.len() && root.children[
                i as int
            ].action == Some(action) && (forall|j: int|
                0 <= j < i ==> (#[trigger] root.children[j]).action != Some(action)),
            r is None ==> forall|j: int|
                0 <= j < root.children@.len() ==> (#[trigger] root.children[j]).action
                    != Some(action),
    {
        let n = root.children.len();
        let mut i: usize = 0;
        while i < n
            invariant
                i <= n,
                n == root.children@.len(),
                forall|j: int|
                    0 <= j < i ==> (#[trigger] root.children[j]).action != Some(action),
            decreases n - i,
        {
            let c = &root.children[i];
            match c.action {
                Some(ca) => {
                    if S::actions_equal(ca, action) {
                        return Some(i);
                    }
                },
                None => {},
            }
            i = i + 1;
        }
        None
    }

    /// Commits `action`: the child expanded for it is detached and
    /// becomes the new root with its visits, reward and subtree kept
    /// exactly; the old root and every sibling subtree are discarded, and
    /// the committed position advances by `action`. If no child matches,
    /// `ActionNotFound` comes back and the tree and position stand
    /// unmodified.
    pub fn do_action(&mut self, action: S::Action) -> (res: Result<(), MctsError>)
        requires
            old(self).wf(),
        ensures
            final(self).wf(),
            res matches Err(e) ==> e == MctsError::ActionNotFound && *final(self) == *old(
                self,
            ) && (forall|j: int|
                0 <= j < old(self).root.children@.len() ==> (#[trigger] old(
                    self,
                ).root.children[j]).action != Some(action)),
            res matches Ok(u) ==> exists|i: int|
                {
                    &&& 0 <= i < old(self).root.children@.len()
                    &&& (#[trigger] old(self).root.children[i]).action == Some(action)
                    &&& (forall|j: int|
                        0 <= j < i ==> old(self).root.children[j].action != Some(action))
                    &&& final(self).root == old(self).root.children[i]
                },
            res matches Ok(u) ==> final(self).state@ == S::next_view(old(self).state@, action),
            res matches Ok(u) ==> final(self).perspective == old(self).perspective,
    {
        match Self::find_child(&self.root, action) {
            None => Err(MctsError::ActionNotFound),
            Some(i) => {
                proof {
                    assert(self.root.children[i as int].wf());
                }
                let new_root = self.root.children.remove(i);
                self.root = new_root;
                let _advanced = self.state.do_action(action);
                Ok(())
            },
        }
    }

    /// Recommends the action of the first root child of greatest raw
    /// value and commits it at once, re-rooting onto that child. With no
    /// children there is nothing to recommend: `NoLegalMoves` comes back
    /// and nothing changes.
    pub fn choose_and_do_action(&mut self) -> (res: Result<S::Action, MctsError>)
        requires
            old(self).wf(),
        ensures
            final(self).wf(),
            (res matches Ok(_)) <==> old(self).root.children@.len() > 0,
            res matches Err(e) ==> e == MctsError::NoLegalMoves && *final(self) == *old(
                self,
            ),
            res matches Ok(a) ==> exists|i: int|
                #[trigger] old(self).root.is_first_best(i) && old(self).root.children[
                    i
                ].action == Some(a),
            res matches Ok(a) ==> exists|i: int|
                {
                    &&& 0 <= i < old(self).root.children@.len()
                    &&& (#[trigger] old(self).root.children[i]).action == Some(a)
                    &&& (forall|j: int|
                        0 <= j < i ==> old(self).root.children[j].action != Some(a))
                    &&& final(self).root == old(self).root.children[i]
                },
            res matches Ok(a) ==> final(self).state@ == S::next_view(old(self).state@, a),
    {
        let chosen = self.root.best_action();
        match chosen {
            None => Err(MctsError::NoLegalMoves),
            Some(a) => {
                match self.do_action(a) {
                    Ok(u) => Ok(a),
                    Err(e) => {
                        proof {
                            let i = choose|i: int|
                                old(self).root.is_first_best(i) && old(
                                    self,
                                ).root.children[i].action == Some(a);
                            assert(old(self).root.children[i].action != Some(a));
                        }
                        Err(MctsError::NoLegalMoves)
                    },
                }
            },
        }
    }
}

} // verus!
