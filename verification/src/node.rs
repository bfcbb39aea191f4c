//! One vertex of the search tree, with the select–expand–simulate–
//! backpropagate iteration.

use vstd::prelude::*;
use crate::player::Player;
use crate::outcome::Outcome;
use crate::game::{State, playout, rollout_reaches};
use crate::fixed::{MAX_VISITS, score_fp, score_of};

verus! {

/// A search-tree vertex for one position.
///
/// `actions` is the position's legal action list, fixed at creation;
/// `children[i]` is the expanded child for `actions[i]`, so the actions at
/// indices below `untried_from` are expanded and those from `untried_from`
/// on are still untried. `reward` is the half-point sum of all rewards
/// backed up through this node, so the node's estimated value is
/// `reward / (2 * visits)`.
pub struct Node<S: State> {
    /// The action that led from the parent to this node; `None` only for
    /// a root that was never advanced.
    pub action: Option<S::Action>,
    /// The player who made that action.
    pub just_acted: Player,
    /// How many playout results were backed up through this node.
    pub visits: u64,
    /// Half-point sum of those results, for the perspective player.
    pub reward: u64,
    /// The legal actions of this position, in enumeration order.
    pub actions: Vec<S::Action>,
    /// Actions below this index are expanded into `children`.
    pub untried_from: usize,
    /// Exclusively owned children, one per expanded action.
    pub children: Vec<Node<S>>,
}

/// All entries but `i` agree between `pre` and `post`.
pub open spec fn sibling_frame<S: State>(pre: Seq<Node<S>>, post: Seq<Node<S>>, i: int) -> bool {
    forall|j: int| 0 <= j < pre.len() && j != i ==> #[trigger] post[j] == pre[j]
}

/// The shape of one select–expand–backpropagate pass from `pre` to
/// `post` with backed-up result `r`: statistics grow by one visit and
/// `r` reward at every node on the descended path, and nothing else
/// changes. With untried actions left, the first of them is expanded
/// into exactly one new child, fresh and seeded with `r`; otherwise,
/// with children present, exactly one child is descended into,
/// recursively of this same shape, its siblings untouched; otherwise the
/// node is a terminal leaf, no child is added, the random source is not
/// consulted, and the result is the leaf's own settled value
/// (`r * visits == reward`), so its mean is unchanged.
pub open spec fn select_step<S: State>(pre: Node<S>, post: Node<S>, r: u64) -> bool
    decreases pre, 1int,
{
    &&& post.visits == pre.visits + 1
    &&& post.reward == pre.reward + r
    &&& post.action == pre.action
    &&& post.just_acted == pre.just_acted
    &&& post.actions == pre.actions
    &&& if pre.untried_from < pre.actions@.len() {
        &&& post.untried_from == pre.untried_from + 1
        &&& post.children@.len() == pre.children@.len() + 1
        &&& (forall|j: int|
            0 <= j < pre.children@.len() ==> #[trigger] post.children[j]
                == pre.children[j])
        &&& post.children[pre.children@.len() as int].action == Some(
            pre.actions[pre.untried_from as int],
        )
        &&& post.children[pre.children@.len() as int].visits == 1
        &&& post.children[pre.children@.len() as int].reward == r
        &&& post.children[pre.children@.len() as int].untried_from == 0
        &&& post.children[pre.children@.len() as int].children@.len() == 0
    } else if pre.children@.len() > 0 {
        &&& post.untried_from == pre.untried_from
        &&& post.children@.len() == pre.children@.len()
        &&& exists|i: int|
            {
                &&& 0 <= i < pre.children@.len()
                &&& #[trigger] sibling_frame::<S>(pre.children@, post.children@, i)
                &&& select_step::<S>(pre.children[i], post.children[i], r)
            }
    } else {
        &&& post.untried_from == pre.untried_from
        &&& post.children@.len() == 0
        &&& r * pre.visits == pre.reward
    }
}

/// Packs the selection case: the statistics step at the parent together
/// with a descended-child witness make one select pass.
proof fn lemma_select_step_selection<S: State>(pre: Node<S>, post: Node<S>, r: u64, i: int)
    requires
        post.visits == pre.visits + 1,
        post.reward == pre.reward + r,
        post.action == pre.action,
        post.just_acted == pre.just_acted,
        post.actions == pre.actions,
        pre.untried_from == pre.actions@.len(),
        pre.children@.len() > 0,
        post.untried_from == pre.untried_from,
        post.children@.len() == pre.children@.len(),
        0 <= i < pre.children@.len(),
        sibling_frame::<S>(pre.children@, post.children@, i),
        select_step::<S>(pre.children[i], post.children[i], r),
    ensures
        select_step::<S>(pre, post, r),
{
}

/// Sum of the visit counts of the first `k` nodes of `s`.
pub open spec fn visits_sum_upto<S: State>(s: Seq<Node<S>>, k: int) -> int
    decreases k,
{
    if k <= 0 {
        0
    } else {
        visits_sum_upto::<S>(s, k - 1) + s[k - 1].visits
    }
}

/// Visit accounting, everywhere in a tree: a node with children carries
/// one visit for its seeding playout plus one for every visit of a
/// child, and a node with untried actions and no children carries only
/// its seeding visit. Only a terminal leaf accumulates visits without
/// children.
pub open spec fn counted<S: State>(n: Node<S>) -> bool
    decreases n,
{
    &&& (n.children@.len() > 0 ==> n.visits == 1 + visits_sum_upto::<S>(
        n.children@,
        n.children@.len() as int,
    ))
    &&& (n.untried_from < n.actions@.len() && n.children@.len() == 0 ==> n.visits == 1)
    &&& (forall|i: int| 0 <= i < n.children@.len() ==> counted::<S>(#[trigger] n.children[i]))
}

/// Visit sums agree on windows where the sequences agree.
proof fn lemma_sum_prefix_eq<S: State>(s1: Seq<Node<S>>, s2: Seq<Node<S>>, k: int)
    requires
        forall|j: int| 0 <= j < k ==> s1[j] == s2[j],
    ensures
        visits_sum_upto::<S>(s1, k) == visits_sum_upto::<S>(s2, k),
    decreases k,
{
    if k > 0 {
        lemma_sum_prefix_eq::<S>(s1, s2, k - 1);
    }
}

/// One extra visit at position `i` raises a window's visit sum by one
/// exactly when the window covers `i`.
proof fn lemma_sum_one_more<S: State>(s1: Seq<Node<S>>, s2: Seq<Node<S>>, i: int, k: int)
    requires
        forall|j: int| 0 <= j < k && j != i ==> s1[j] == s2[j],
        0 <= i < k ==> s2[i].visits == s1[i].visits + 1,
    ensures
        visits_sum_upto::<S>(s2, k) == visits_sum_upto::<S>(s1, k) + if 0 <= i < k {
            1int
        } else {
            0int
        },
    decreases k,
{
    if k > 0 {
        lemma_sum_one_more::<S>(s1, s2, i, k - 1);
    }
}

/// One select pass keeps the visit accounting: the one new or descended
/// child accounts exactly for the parent's new visit.
pub proof fn lemma_select_step_counted<S: State>(pre: Node<S>, post: Node<S>, r: u64)
    requires
        select_step::<S>(pre, post, r),
        counted::<S>(pre),
    ensures
        counted::<S>(post),
    decreases pre,
{
    if pre.untried_from < pre.actions@.len() {
        lemma_sum_prefix_eq::<S>(pre.children@, post.children@, pre.children@.len() as int);
        assert forall|j: int| 0 <= j < post.children@.len() implies counted::<S>(
            #[trigger] post.children[j],
        ) by {
            if j < pre.children@.len() {
                assert(post.children[j] == pre.children[j]);
                assert(counted::<S>(pre.children[j]));
            } else {
                assert(post.children[j].children@.len() == 0);
                assert(post.children[j].visits == 1);
            }
        }
    } else if pre.children@.len() > 0 {
        let i = choose|i: int|
            {
                &&& 0 <= i < pre.children@.len()
                &&& #[trigger] sibling_frame::<S>(pre.children@, post.children@, i)
                &&& select_step::<S>(pre.children[i], post.children[i], r)
            };
        assert(counted::<S>(pre.children[i]));
        lemma_select_step_counted::<S>(pre.children[i], post.children[i], r);
        lemma_sum_one_more::<S>(
            pre.children@,
            post.children@,
            i,
            pre.children@.len() as int,
        );
        assert forall|j: int| 0 <= j < post.children@.len() implies counted::<S>(
            #[trigger] post.children[j],
        ) by {
            if j != i {
                assert(post.children[j] == pre.children[j]);
                assert(counted::<S>(pre.children[j]));
            }
        }
    }
}

/// Transitivity of the division-free value comparison: if `a <= b` and
/// `b < c` as fractions `r / v`, then `a < c`.
proof fn lemma_value_chain(ar: int, av: int, br: int, bv: int, cr: int, cv: int)
    requires
        1 <= av,
        1 <= bv,
        1 <= cv,
        ar * bv <= br * av,
        br * cv < cr * bv,
    ensures
        ar * cv < cr * av,
{
    assert(ar * cv < cr * av) by (nonlinear_arith)
        requires
            1 <= av,
            1 <= bv,
            1 <= cv,
            ar * bv <= br * av,
            br * cv < cr * bv,
        {
        }
}

/// A terminal node's backed-up value is unchanged by a visit: its reward
/// is a whole multiple `k * visits` with `k <= 2`, and adding `k` again
/// keeps it a whole multiple of `visits + 1`.
proof fn lemma_terminal_update(reward: int, visits: int)
    requires
        1 <= visits,
        0 <= reward <= 2 * visits,
        reward % visits == 0,
    ensures
        0 <= reward / visits <= 2,
        (reward / visits) * visits == reward,
        (reward + reward / visits) % (visits + 1) == 0,
        reward + reward / visits <= 2 * (visits + 1),
{
    let k = reward / visits;
    vstd::arithmetic::div_mod::lemma_fundamental_div_mod(reward, visits);
    assert(reward == visits * k);
    assert(0 <= k <= 2) by (nonlinear_arith)
        requires
            reward == visits * k,
            1 <= visits,
            0 <= reward <= 2 * visits,
        {
        }
    assert(reward + k == k * (visits + 1)) by (nonlinear_arith)
        requires
            reward == visits * k,
        {
        }
    vstd::arithmetic::div_mod::lemma_mod_multiples_basic(k, visits + 1);
}

impl<S: State> Node<S> {
    /// Well-formedness, kept by every engine operation: at least one
    /// visit; a value within `[0, 1]`, that is `reward <= 2 * visits`; a
    /// terminal node's reward a whole multiple of its visits; children
    /// matching the expanded prefix of `actions` one for one; and every
    /// child strictly less visited than its parent.
    pub open spec fn wf(self) -> bool
        decreases self,
    {
        &&& 1 <= self.visits
        &&& self.reward <= 2 * self.visits
        &&& self.untried_from <= self.actions.len()
        &&& self.children.len() == self.untried_from
        &&& (self.actions.len() == 0 ==> self.reward % self.visits == 0)
        &&& (forall|i: int|
            0 <= i < self.children.len() ==> (#[trigger] self.children[i]).wf())
        &&& (forall|i: int|
            0 <= i < self.children.len() ==> (#[trigger] self.children[i]).action
                == Some(self.actions[i]))
        &&& (forall|i: int|
            0 <= i < self.children.len() ==> (#[trigger] self.children[i]).visits
                < self.visits)
        &&& (forall|i: int|
            0 <= i < self.children.len() ==> (#[trigger] self.children[i]).just_acted
                == self.just_acted.spec_other())
    }

    /// Creates a node for the position reached by `action`, seeded with
    /// one playout; `outcome` is what applying `action` reported, and
    /// `state` is the position it produced.
    pub fn new(
        action: Option<S::Action>,
        just_acted: Player,
        state: S,
        outcome: Outcome<S::Action>,
        perspective: Player,
        rng: &mut rand::rngs::StdRng,
    ) -> (n: Node<S>)
        requires
            S::inv(state@),
            outcome matches Outcome::Actions(v)
                ==> v@ == S::legal_actions(state@, S::spec_next(state@)),
        ensures
            n.wf(),
            n.visits == 1,
            n.reward <= 2,
            n.action == action,
            n.just_acted == just_acted,
            n.untried_from == 0,
            n.children@.len() == 0,
            n.actions@ == outcome.spec_actions(),
            outcome.is_decisive() ==> n.reward == outcome.spec_reward(perspective),
            outcome matches Outcome::Actions(first) ==> exists|fuel: nat, w: S::V|
                rollout_reaches::<S>(state@, w, perspective, n.reward, fuel),
    {
        let mut st = state;
        let val = playout(&mut st, rng, perspective, &outcome);
        proof {
            if !outcome.is_decisive() {
                let f = choose|f: nat|
                    rollout_reaches::<S>(state@, st@, perspective, val, f);
                assert(rollout_reaches::<S>(state@, st@, perspective, val, f));
            }
        }
        let actions = outcome.as_actions();
        Node {
            action,
            just_acted,
            visits: 1,
            reward: val,
            actions,
            untried_from: 0,
            children: Vec::new(),
        }
    }

    /// This node's estimated value is at most `other`'s:
    /// `reward / (2 visits) <= other.reward / (2 other.visits)`, stated
    /// without division.
    pub open spec fn value_le(self, other: Node<S>) -> bool {
        self.reward * other.visits <= other.reward * self.visits
    }

    /// `i` indexes the first child of greatest estimated value: no child
    /// beats it, and it beats every child before it.
    pub open spec fn is_first_best(self, i: int) -> bool {
        &&& 0 <= i < self.children.len()
        &&& (forall|j: int|
            0 <= j < self.children.len() ==> (#[trigger] self.children[j]).value_le(
                self.children[i],
            ))
        &&& (forall|j: int|
            0 <= j < i ==> !(#[trigger] self.children[i]).value_le(self.children[j]))
    }

    /// Among the children, returns the action of the first one of
    /// greatest estimated raw value, or `None` if there are no children.
    /// The exploration term plays no part here.
    pub fn best_action(&self) -> (r: Option<S::Action>)
        requires
            self.wf(),
        ensures
            (r matches Some(_)) <==> self.children@.len() > 0,
            r matches Some(a) ==> exists|i: int|
                #[trigger] self.is_first_best(i) && self.children[i].action == Some(a),
    {
        if self.children.len() == 0 {
            return None;
        }
        let mut best: usize = 0;
        let mut k: usize = 1;
        while k < self.children.len()
            invariant
                self.wf(),
                best < k <= self.children@.len(),
                forall|j: int|
                    0 <= j < k ==> (#[trigger] self.children[j]).value_le(
                        self.children[best as int],
                    ),
                forall|j: int|
                    0 <= j < best ==> !(#[trigger] self.children[best as int]).value_le(
                        self.children[j],
                    ),
            decreases self.children@.len() - k,
        {
            let ck = &self.children[k];
            let cb = &self.children[best];
            proof {
                vstd::arithmetic::mul::lemma_mul_upper_bound(
                    ck.reward as int,
                    u64::MAX as int,
                    cb.visits as int,
                    u64::MAX as int,
                );
                vstd::arithmetic::mul::lemma_mul_upper_bound(
                    cb.reward as int,
                    u64::MAX as int,
                    ck.visits as int,
                    u64::MAX as int,
                );
            }
            let lhs: u128 = (ck.reward as u128) * (cb.visits as u128);
            let rhs: u128 = (cb.reward as u128) * (ck.visits as u128);
            if lhs > rhs {
                proof {
                    assert forall|j: int| 0 <= j < k implies (#[trigger] self.children[j])
                        .value_le(self.children[k as int]) by {
                        assert(self.children[j].wf());
                        assert(self.children[best as int].wf());
                        assert(self.children[k as int].wf());
                        lemma_value_chain(
                            self.children[j].reward as int,
                            self.children[j].visits as int,
                            self.children[best as int].reward as int,
                            self.children[best as int].visits as int,
                            self.children[k as int].reward as int,
                            self.children[k as int].visits as int,
                        );
                    }
                    assert forall|j: int| 0 <= j < k implies !(#[trigger] self.children[k as int].value_le(self.children[j])) by {
                        assert(self.children[j].wf());
                        assert(self.children[best as int].wf());
                        assert(self.children[k as int].wf());
                        lemma_value_chain(
                            self.children[j].reward as int,
                            self.children[j].visits as int,
                            self.children[best as int].reward as int,
                            self.children[best as int].visits as int,
                            self.children[k as int].reward as int,
                            self.children[k as int].visits as int,
                        );
                    }
                }
                best = k;
            }
            k = k + 1;
        }
        proof {
            assert(self.is_first_best(best as int));
        }
        match self.children[best].action {
            Some(a) => Some(a),
            None => {
                proof {
                    assert(false);
                }
                None
            },
        }
    }

    /// The UCB1 score of child `j`, maximizing or minimizing the
    /// perspective player's estimated value according to whose move led
    /// to the children.
    pub open spec fn child_score(self, j: int, maximize: bool) -> int {
        score_fp(
            self.visits as int,
            self.children[j].reward as int,
            self.children[j].visits as int,
            maximize,
        )
    }

    /// Picks the child with the greatest UCB1 score; the first one wins a
    /// tie.
    fn choose_child_index(&self, maximize: bool) -> (i: usize)
        requires
            self.wf(),
            self.children@.len() >= 1,
            self.visits <= MAX_VISITS,
        ensures
            i < self.children@.len(),
            forall|j: int|
                0 <= j < self.children@.len() ==> #[trigger] self.child_score(j, maximize)
                    <= self.child_score(i as int, maximize),
            forall|j: int|
                0 <= j < i ==> #[trigger] self.child_score(j, maximize) < self.child_score(
                    i as int,
                    maximize,
                ),
    {
        let c0 = &self.children[0];
        proof {
            assert(self.children[0].wf());
        }
        let mut best: usize = 0;
        let mut best_score: u64 = score_of(self.visits, c0.reward, c0.visits, maximize);
        let mut k: usize = 1;
        while k < self.children.len()
            invariant
                self.wf(),
                self.visits <= MAX_VISITS,
                best < k <= self.children@.len(),
                best_score as int == self.child_score(best as int, maximize),
                forall|j: int|
                    0 <= j < k ==> #[trigger] self.child_score(j, maximize)
                        <= best_score as int,
                forall|j: int|
                    0 <= j < best ==> #[trigger] self.child_score(j, maximize)
                        < best_score as int,
            decreases self.children@.len() - k,
        {
            let ck = &self.children[k];
            proof {
                assert(self.children[k as int].wf());
            }
            let s = score_of(self.visits, ck.reward, ck.visits, maximize);
            if s > best_score {
                best = k;
                best_score = s;
            }
            k = k + 1;
        }
        best
    }

    /// One search iteration below this node. `state` is this node's own
    /// position; the caller has already applied this node's action.
    ///
    /// If an untried action remains, the first one is expanded into a new
    /// child seeded by one playout; otherwise, if children exist, the
    /// child of greatest UCB1 score is descended into; otherwise the
    /// position is final and the node's own settled value is the result.
    /// Either way the result `res.1` is backed up into the node: visits
    /// grow by one, the reward sum by the result.
    pub fn select(
        self,
        state: S,
        rng: &mut rand::rngs::StdRng,
        perspective: Player,
    ) -> (res: (Node<S>, u64))
        requires
            self.wf(),
            self.visits < MAX_VISITS,
            S::inv(state@),
        ensures
            res.0.wf(),
            res.1 <= 2,
            select_step::<S>(self, res.0, res.1),
            self.untried_from == self.actions@.len() && self.children@.len() == 0
                ==> *final(rng) == *old(rng),
        decreases self,
    {
        let ghost pre = self;
        let mut node = self;
        let mut st = state;
        if node.untried_from < node.actions.len() {
            let a = node.actions[node.untried_from];
            let outcome = st.do_action(a);
            let child = Node::new(
                Some(a),
                node.just_acted.other(),
                st,
                outcome,
                perspective,
                rng,
            );
            let val = child.reward;
            node.children.push(child);
            node.untried_from = node.untried_from + 1;
            node.reward = node.reward + val;
            node.visits = node.visits + 1;
            proof {
                assert(node.children@[pre.children@.len() as int] == child);
                assert(select_step::<S>(pre, node, val));
            }
            (node, val)
        } else if node.children.len() > 0 {
            let maximize = perspective != node.just_acted;
            let i = node.choose_child_index(maximize);
            let a = node.actions[i];
            let _advanced = st.do_action(a);
            let ghost pre_children = node.children@;
            let child = node.children.remove(i);
            proof {
                assert(decreases_to!(self => child));
            }
            let (child2, val) = child.select(st, rng, perspective);
            node.children.insert(i, child2);
            proof {
                assert(node.children@ =~= pre_children.update(i as int, child2));
                assert(node.children@[i as int] == child2);
                assert(forall|j: int|
                    0 <= j < pre_children.len() && j != i ==> #[trigger] node.children@[j]
                        == pre_children[j]);
            }
            node.reward = node.reward + val;
            node.visits = node.visits + 1;
            proof {
                assert(sibling_frame::<S>(pre.children@, node.children@, i as int));
                lemma_select_step_selection::<S>(pre, node, val, i as int);
            }
            (node, val)
        } else {
            let r0 = node.reward / node.visits;
            proof {
                lemma_terminal_update(node.reward as int, node.visits as int);
            }
            node.reward = node.reward + r0;
            node.visits = node.visits + 1;
            proof {
                assert(r0 * pre.visits == pre.reward) by (nonlinear_arith)
                    requires
                        r0 as int == pre.reward as int / pre.visits as int,
                        (pre.reward as int / pre.visits as int) * (pre.visits as int)
                            == pre.reward as int,
                    {
                    }
                assert(select_step::<S>(pre, node, r0));
            }
            (node, r0)
        }
    }

    /// Returns how many playout results this node has absorbed.
    pub fn visits(&self) -> (r: u64)
        ensures
            r == self.visits,
    {
        self.visits
    }

    /// Returns the node's estimated value for the perspective player as
    /// an exact fraction: numerator `reward`, denominator `2 * visits`.
    pub fn value(&self) -> (r: (u64, u64))
        requires
            self.visits <= MAX_VISITS,
        ensures
            r.0 == self.reward,
            r.1 == 2 * self.visits,
    {
        (self.reward, 2 * self.visits)
    }

    /// `1` plus the least depth among children `0..k`.
    pub open spec fn depth_min_upto(self, k: int) -> int
        decreases self, 0int, k,
    {
        if self.children.len() == 0 {
            0
        } else if k <= 1 {
            1 + self.children[0].spec_min_depth()
        } else if k <= self.children.len() {
            let rest = self.depth_min_upto(k - 1);
            let here = 1 + self.children[k - 1].spec_min_depth();
            if here < rest {
                here
            } else {
                rest
            }
        } else {
            self.depth_min_upto(self.children.len() as int)
        }
    }

    /// The least depth of a leaf below this node: 0 at a leaf, else one
    /// more than the least child depth.
    pub open spec fn spec_min_depth(self) -> int
        decreases self, 1int, 0int,
    {
        if self.children.len() == 0 {
            0
        } else {
            self.depth_min_upto(self.children.len() as int)
        }
    }

    /// `1` plus the greatest depth among children `0..k`.
    pub open spec fn depth_max_upto(self, k: int) -> int
        decreases self, 0int, k,
    {
        if self.children.len() == 0 {
            0
        } else if k <= 1 {
            1 + self.children[0].spec_max_depth()
        } else if k <= self.children.len() {
            let rest = self.depth_max_upto(k - 1);
            let here = 1 + self.children[k - 1].spec_max_depth();
            if here > rest {
                here
            } else {
                rest
            }
        } else {
            self.depth_max_upto(self.children.len() as int)
        }
    }

    /// The greatest depth of a leaf below this node: 0 at a leaf, else
    /// one more than the greatest child depth.
    pub open spec fn spec_max_depth(self) -> int
        decreases self, 1int, 0int,
    {
        if self.children.len() == 0 {
            0
        } else {
            self.depth_max_upto(self.children.len() as int)
        }
    }

    /// Returns the least depth of a leaf below this node: how many moves
    /// ahead every line has been explored.
    pub fn min_depth(&self) -> (r: u64)
        requires
            self.wf(),
        ensures
            r as int == self.spec_min_depth(),
            r < self.visits,
        decreases *self,
    {
        if self.children.len() == 0 {
            return 0;
        }
        let c0 = &self.children[0];
        proof {
            assert(self.children[0].wf());
            assert(decreases_to!(*self => self.children[0]));
        }
        let d0 = c0.min_depth();
        let mut m: u64 = d0 + 1;
        let mut k: usize = 1;
        while k < self.children.len()
            invariant
                self.wf(),
                1 <= k <= self.children@.len(),
                m as int == self.depth_min_upto(k as int),
                m < self.visits,
            decreases self.children@.len() - k,
        {
            let c = &self.children[k];
            proof {
                assert(self.children[k as int].wf());
                assert(decreases_to!(*self => self.children[k as int]));
            }
            let d = c.min_depth();
            let cand = d + 1;
            if cand < m {
                m = cand;
            }
            k = k + 1;
        }
        m
    }

    /// Returns the greatest depth of a leaf below this node: how many
    /// moves ahead the deepest line has ventured.
    pub fn max_depth(&self) -> (r: u64)
        requires
            self.wf(),
        ensures
            r as int == self.spec_max_depth(),
            r < self.visits,
        decreases *self,
    {
        if self.children.len() == 0 {
            return 0;
        }
        let c0 = &self.children[0];
        proof {
            assert(self.children[0].wf());
            assert(decreases_to!(*self => self.children[0]));
        }
        let d0 = c0.max_depth();
        let mut m: u64 = d0 + 1;
        let mut k: usize = 1;
        while k < self.children.len()
            invariant
                self.wf(),
                1 <= k <= self.children@.len(),
                m as int == self.depth_max_upto(k as int),
                m < self.visits,
            decreases self.children@.len() - k,
        {
            let c = &self.children[k];
            proof {
                assert(self.children[k as int].wf());
                assert(decreases_to!(*self => self.children[k as int]));
            }
            let d = c.max_depth();
            let cand = d + 1;
            if cand > m {
                m = cand;
            }
            k = k + 1;
        }
        m
    }

    /// The actions not yet expanded: the tail of the creation-time list.
    pub open spec fn untried_actions(self) -> Seq<S::Action> {
        self.actions@.skip(self.untried_from as int)
    }

    /// The actions already expanded into children: the head of the
    /// creation-time list.
    pub open spec fn child_actions(self) -> Seq<S::Action> {
        self.actions@.take(self.untried_from as int)
    }
}

/// A well-formed node was visited at least once and its estimated value
/// lies in `[0, 1]`: its reward sum is at most `2 * visits` half-points.
/// Its children are well-formed in turn, so the bounds hold of every node
/// of the tree.
pub proof fn lemma_node_bounds<S: State>(n: Node<S>)
    requires
        n.wf(),
    ensures
        1 <= n.visits,
        n.reward <= 2 * n.visits,
        forall|i: int| 0 <= i < n.children@.len() ==> (#[trigger] n.children[i]).wf(),
{
}

/// The partition law: the actions expanded into children and the untried
/// actions are complementary slices of the node's creation-time legal
/// action list — child `i` carries action `child_actions()[i]`, together
/// the two slices are exactly the list, and when the list has no
/// duplicates no action is in both.
pub proof fn lemma_untried_children_partition<S: State>(n: Node<S>)
    requires
        n.wf(),
    ensures
        n.child_actions() + n.untried_actions() == n.actions@,
        forall|i: int|
            0 <= i < n.children@.len() ==> (#[trigger] n.children[i]).action == Some(
                n.child_actions()[i],
            ),
        n.actions@.no_duplicates() ==> forall|a: S::Action|
            !(#[trigger] n.child_actions().contains(a) && n.untried_actions().contains(a)),
{
    assert(n.child_actions() + n.untried_actions() =~= n.actions@);
    if n.actions@.no_duplicates() {
        assert forall|a: S::Action|
            !(#[trigger] n.child_actions().contains(a) && n.untried_actions().contains(
                a,
            )) by {
            if n.child_actions().contains(a) && n.untried_actions().contains(a) {
                let i = choose|i: int|
                    0 <= i < n.child_actions().len() && n.child_actions()[i] == a;
                let j = choose|j: int|
                    0 <= j < n.untried_actions().len() && n.untried_actions()[j] == a;
                assert(n.actions@[i] == a);
                assert(n.actions@[j + n.untried_from] == a);
            }
        }
    }
}

/// With a single expanded child there is no tie to break: that child is
/// the first best one, so the recommended action is its action.
pub proof fn lemma_sole_child_best<S: State>(n: Node<S>)
    requires
        n.wf(),
        n.children@.len() == 1,
    ensures
        n.is_first_best(0),
{
}

} // verus!
