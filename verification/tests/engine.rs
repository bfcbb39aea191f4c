//! Engine-level behaviour: statistics, re-rooting, recommendation and
//! the error cases, driven through the connect-four game.

use mcts::connect4::{C4Cell, C4State};
use mcts::fixed::{isqrt, log2_floor, score_of};
use mcts::game::State;
use mcts::node::Node;
use mcts::outcome::Outcome;
use mcts::player::Player;
use mcts::tree::{MCTree, MctsError};

fn fresh_tree(seed: u64) -> MCTree<C4State> {
    MCTree::new(C4State::initial(), Player::P2, Player::P1, seed)
}

/// A board whose bottom row already holds four X pieces: P1 has won.
fn p1_won_board() -> C4State {
    let mut s = C4State::initial();
    // Columns 0..4 for P1, interleaved with P2 elsewhere; last P1 drop wins.
    s.do_action(0); // P1
    s.do_action(6); // P2
    s.do_action(1); // P1
    s.do_action(6); // P2
    s.do_action(2); // P1
    s.do_action(5); // P2
    s.do_action(3); // P1 completes the row
    s
}

#[test]
fn construction_seeds_one_visit() {
    let t = fresh_tree(7);
    assert_eq!(t.root.visits(), 1);
}

#[test]
fn visits_count_iterations() {
    let mut t = fresh_tree(42);
    for _ in 0..10 {
        t.iter();
    }
    assert_eq!(t.root.visits(), 11);
}

#[test]
fn search_for_reports_its_iterations() {
    let mut t = fresh_tree(3);
    let n = t.search_for(20);
    assert!(n >= 1);
    assert_eq!(t.root.visits(), 1 + n);
}

fn check_bounds(n: &Node<C4State>) {
    assert!(n.visits >= 1);
    assert!(n.reward <= 2 * n.visits);
    for c in n.children.iter() {
        check_bounds(c);
    }
}

#[test]
fn values_stay_within_bounds_everywhere() {
    let mut t = fresh_tree(9);
    for _ in 0..200 {
        t.iter();
    }
    check_bounds(&t.root);
}

fn check_partition(n: &Node<C4State>) {
    assert_eq!(n.children.len(), n.untried_from);
    assert!(n.untried_from <= n.actions.len());
    for (i, c) in n.children.iter().enumerate() {
        assert_eq!(c.action, Some(n.actions[i]));
    }
    // Expanded and untried actions are disjoint for distinct action lists.
    for (i, c) in n.children.iter().enumerate() {
        let a = c.action.unwrap();
        assert!(!n.actions[n.untried_from..].contains(&a), "untried holds {a} at child {i}");
    }
    for c in n.children.iter() {
        check_partition(c);
    }
}

#[test]
fn untried_and_children_partition_the_action_list() {
    let mut t = fresh_tree(11);
    for _ in 0..150 {
        t.iter();
    }
    check_partition(&t.root);
}

#[test]
fn rerooting_keeps_the_child_exactly() {
    let mut t = fresh_tree(5);
    for _ in 0..100 {
        t.iter();
    }
    let a = t.root.children[0].action.unwrap();
    let visits = t.root.children[0].visits;
    let reward = t.root.children[0].reward;
    let kids = t.root.children[0].children.len();
    let untried = t.root.children[0].untried_from;
    assert_eq!(t.do_action(a), Ok(()));
    assert_eq!(t.root.action, Some(a));
    assert_eq!(t.root.visits, visits);
    assert_eq!(t.root.reward, reward);
    assert_eq!(t.root.children.len(), kids);
    assert_eq!(t.root.untried_from, untried);
}

#[test]
fn best_action_comes_from_the_children() {
    let mut t = fresh_tree(13);
    for _ in 0..50 {
        t.iter();
    }
    let a = t.root.best_action().unwrap();
    assert!(t.root.children.iter().any(|c| c.action == Some(a)));
    }

#[test]
fn absent_action_is_reported_and_changes_nothing() {
    let mut t = fresh_tree(17);
    for _ in 0..20 {
        t.iter();
    }
    let visits = t.root.visits();
    let kids = t.root.children.len();
    assert_eq!(t.do_action(9), Err(MctsError::ActionNotFound));
    assert_eq!(t.root.visits(), visits);
    assert_eq!(t.root.children.len(), kids);
}

#[test]
fn no_children_means_no_recommendation() {
    // A decided position: no legal action, so no child is ever expanded.
    let mut t = MCTree::new(p1_won_board(), Player::P1, Player::P2, 23);
    assert_eq!(t.root.children.len(), 0);
    assert_eq!(t.choose_and_do_action(), Err(MctsError::NoLegalMoves));
}

#[test]
fn sole_expanded_child_is_recommended() {
    let mut t = fresh_tree(29);
    t.iter();
    assert_eq!(t.root.children.len(), 1);
    let a = t.root.children[0].action.unwrap();
    assert_eq!(t.choose_and_do_action(), Ok(a));
}

#[test]
fn terminal_visits_keep_the_value() {
    // The root of a decided position is a terminal leaf: every further
    // iteration adds a visit, runs no playout, and backs up the leaf's
    // own settled value, so the mean stays exactly where it was.
    let mut t = MCTree::new(p1_won_board(), Player::P1, Player::P2, 41);
    assert_eq!(t.root.value(), (2, 2));
    let r = t.iter();
    assert_eq!(r, 2);
    assert_eq!(t.root.visits(), 2);
    assert_eq!(t.root.value(), (4, 4));
    assert_eq!(t.root.children.len(), 0);
}

fn check_counted(n: &Node<C4State>) {
    if !n.children.is_empty() {
        let sum: u64 = n.children.iter().map(|c| c.visits).sum();
        assert_eq!(n.visits, 1 + sum);
    } else if n.untried_from < n.actions.len() {
        assert_eq!(n.visits, 1);
    }
    for c in n.children.iter() {
        check_counted(c);
    }
}

#[test]
fn every_visit_is_accounted_to_a_child() {
    let mut t = fresh_tree(21);
    for _ in 0..180 {
        t.iter();
    }
    check_counted(&t.root);
}

#[test]
fn decisive_seed_scores_without_random_draws() {
    // The root of a tree over a decided position is seeded by a playout
    // that returns at once: probability one from the winner's viewpoint,
    // zero from the loser's.
    let t = MCTree::new(p1_won_board(), Player::P1, Player::P2, 31);
    assert_eq!(t.root.value(), (2, 2));
    let t2 = MCTree::new(p1_won_board(), Player::P2, Player::P1, 31);
    assert_eq!(t2.root.value(), (0, 2));
}

#[test]
fn seeded_search_is_reproducible() {
    let mut a = fresh_tree(99);
    let mut b = fresh_tree(99);
    for _ in 0..60 {
        a.iter();
        b.iter();
    }
    assert_eq!(a.root.visits(), b.root.visits());
    assert_eq!(a.root.value(), b.root.value());
    assert_eq!(a.root.best_action(), b.root.best_action());
}

#[test]
fn root_statistics_snapshot_matches_the_getters() {
    let mut t = fresh_tree(63);
    for _ in 0..40 {
        t.iter();
    }
    let (visits, num, den, min_d, max_d) = t.root_statistics();
    assert_eq!(visits, t.root.visits());
    assert_eq!((num, den), t.root.value());
    assert_eq!(min_d, t.root.min_depth());
    assert_eq!(max_d, t.root.max_depth());
    assert_eq!(visits, 41);
    assert_eq!(den, 82);
}

#[test]
fn depths_grow_with_search() {
    let mut t = fresh_tree(57);
    assert_eq!(t.root.min_depth(), 0);
    assert_eq!(t.root.max_depth(), 0);
    for _ in 0..100 {
        t.iter();
    }
    assert!(t.root.max_depth() >= t.root.min_depth());
    assert!(t.root.max_depth() >= 1);
}

fn leaf(action: u8, reward: u64) -> Node<C4State> {
    Node {
        action: Some(action),
        just_acted: Player::P2,
        visits: 1,
        reward,
        actions: Vec::new(),
        untried_from: 0,
        children: Vec::new(),
    }
}

#[test]
fn ties_go_to_the_first_child() {
    let parent = Node::<C4State> {
        action: None,
        just_acted: Player::P1,
        visits: 3,
        reward: 2,
        actions: vec![2, 5],
        untried_from: 2,
        children: vec![leaf(2, 1), leaf(5, 1)],
    };
    assert_eq!(parent.best_action(), Some(2));
    let parent2 = Node::<C4State> {
        action: None,
        just_acted: Player::P1,
        visits: 3,
        reward: 3,
        actions: vec![2, 5],
        untried_from: 2,
        children: vec![leaf(2, 1), leaf(5, 2)],
    };
    assert_eq!(parent2.best_action(), Some(5));
}

#[test]
fn outcome_rewards() {
    let o: Outcome<u8> = Outcome::P1Win;
    assert_eq!(o.reward(Player::P1), 2);
    assert_eq!(o.reward(Player::P2), 0);
    let d: Outcome<u8> = Outcome::Draw;
    assert_eq!(d.reward(Player::P1), 1);
    assert_eq!(d.reward(Player::P2), 1);
    let w2: Outcome<u8> = Outcome::from_player(Player::P2);
    assert_eq!(w2.reward(Player::P2), 2);
    assert_eq!(w2.reward(Player::P1), 0);
}

#[test]
fn player_other_swaps() {
    assert_eq!(Player::P1.other(), Player::P2);
    assert_eq!(Player::P2.other(), Player::P1);
    assert_eq!(Player::P1.other().other(), Player::P1);
}

#[test]
fn integer_square_roots() {
    assert_eq!(isqrt(0), 0);
    assert_eq!(isqrt(15), 3);
    assert_eq!(isqrt(16), 4);
    assert_eq!(isqrt(u64::MAX), 4294967295);
}

#[test]
fn base_two_logarithms() {
    assert_eq!(log2_floor(1), 0);
    assert_eq!(log2_floor(2), 1);
    assert_eq!(log2_floor(1023), 9);
    assert_eq!(log2_floor(1024), 10);
    assert_eq!(log2_floor(u64::MAX), 63);
}

#[test]
fn ucb_scores_are_exact() {
    // A sure win explored once under a twice-visited parent.
    assert_eq!(score_of(2, 2, 1, true), 142698);
    // Minimizing a drawn-looking child.
    assert_eq!(score_of(5, 1, 2, false), 115976);
    assert_eq!(score_of(10, 3, 4, true), 79138);
}

#[test]
fn empty_cells_on_a_fresh_board() {
    let s = C4State::initial();
    for r in 0..6 {
        for c in 0..7 {
            assert_eq!(s.get(r, c), C4Cell::Blank);
        }
    }
    assert!(!s.full());
}
