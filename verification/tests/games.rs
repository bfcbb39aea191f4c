//! Game-rule behaviour of the two boards: gravity, win detection, legal
//! move lists and the defensive handling of bad input.

use mcts::connect4::{C4Cell, C4State};
use mcts::game::{outcome_of, State};
use mcts::outcome::Outcome;
use mcts::player::Player;
use mcts::tictac::{T2Board, T4Board, T4Cell, T4Move};

#[test]
fn fourth_piece_in_a_row_wins_at_once() {
    // Three X pieces sit side by side on the bottom row with the next
    // cell open; dropping the fourth ends the game for X immediately.
    let mut s = C4State::initial();
    s.do_action(0); // P1
    s.do_action(6); // P2
    s.do_action(1); // P1
    s.do_action(6); // P2
    s.do_action(2); // P1
    s.do_action(5); // P2
    assert!(!s.has_won(Player::P1));
    assert!(!s.has_won(Player::P2));
    let o = s.do_action(3); // P1 completes the row
    assert!(s.has_won(Player::P1));
    assert!(matches!(o, Outcome::P1Win));
    assert!(s.valid_actions(Player::P2).is_empty());
}

#[test]
fn pieces_stack_bottom_up() {
    let mut s = C4State::initial();
    s.do_action(3); // P1 lands at the bottom
    s.do_action(3); // P2 lands on top of it
    assert_eq!(s.get(5, 3), C4Cell::X);
    assert_eq!(s.get(4, 3), C4Cell::O);
    assert_eq!(s.get(3, 3), C4Cell::Blank);
    assert_eq!(s.next_player(), Player::P1);
}

#[test]
fn vertical_and_diagonal_wins_are_seen() {
    let mut s = C4State::initial();
    // X stacks column 0; O fills column 1.
    s.do_action(0);
    s.do_action(1);
    s.do_action(0);
    s.do_action(1);
    s.do_action(0);
    s.do_action(1);
    assert!(!s.has_won(Player::P1));
    let o = s.do_action(0);
    assert!(s.has_won(Player::P1));
    assert!(matches!(o, Outcome::P1Win));
}

#[test]
fn full_or_unknown_column_is_a_defensive_draw() {
    let mut s = C4State::initial();
    let o = s.do_action(9);
    assert!(matches!(o, Outcome::Draw));
    assert_eq!(s.next_player(), Player::P1);
    for _ in 0..3 {
        s.do_action(2); // P1 and P2 alternate into column 2
        s.do_action(2);
    }
    assert_eq!(s.get(0, 2), C4Cell::O);
    let before = s.next_player();
    let o2 = s.do_action(2); // column 2 is full: nothing happens
    assert!(matches!(o2, Outcome::Draw));
    assert_eq!(s.next_player(), before);
}

#[test]
fn open_columns_are_listed_in_order() {
    let mut s = C4State::initial();
    assert_eq!(s.valid_actions(Player::P1), vec![0, 1, 2, 3, 4, 5, 6]);
    for _ in 0..3 {
        s.do_action(4);
        s.do_action(4);
    }
    assert_eq!(s.valid_actions(s.next_player()), vec![0, 1, 2, 3, 5, 6]);
}

#[test]
fn continuing_outcome_carries_the_new_legal_moves() {
    let mut s = C4State::initial();
    let o = s.do_action(0);
    match o {
        Outcome::Actions(v) => assert_eq!(v, s.valid_actions(s.next_player())),
        _ => panic!("expected a continuing outcome"),
    }
}

#[test]
fn standing_position_is_evaluated_without_moving() {
    let s = C4State::initial();
    let o = outcome_of(&s);
    assert!(matches!(o, Outcome::Actions(_)));
    let mut w = C4State::initial();
    w.do_action(0);
    w.do_action(6);
    w.do_action(1);
    w.do_action(6);
    w.do_action(2);
    w.do_action(5);
    w.do_action(3);
    assert!(matches!(outcome_of(&w), Outcome::P1Win));
}

#[test]
fn small_board_wins_and_moves() {
    let mut b = T2Board::new();
    assert!(b.valid(4));
    assert!(b.play(0, Player::P1));
    assert!(!b.play(0, Player::P2)); // occupied
    assert!(b.play(3, Player::P2));
    assert!(b.play(1, Player::P1));
    assert!(b.play(4, Player::P2));
    assert!(!b.has_won_p(Player::P1));
    assert!(b.play(2, Player::P1)); // X completes the top row
    assert!(b.has_won_p(Player::P1));
    assert_eq!(b.winning_piece, T4Cell::X);
    assert!(!b.full());
    assert_eq!(b.blanks(), vec![5, 6, 7, 8]);
}

#[test]
fn small_board_rejects_out_of_range() {
    let mut b = T2Board::new();
    assert!(!b.valid(9));
    assert!(!b.play(9, Player::P1));
    assert_eq!(b.blanks().len(), 9);
}

#[test]
fn nested_move_constrains_the_next_board() {
    let mut t = T4Board::new();
    assert!(t.play(T4Move::new(4, 7)));
    // The opponent must now play board 7.
    assert!(!t.valid(T4Move::new(4, 0)));
    assert!(t.valid(T4Move::new(7, 0)));
    assert!(!t.play(T4Move::new(4, 0)));
    assert!(t.play(T4Move::new(7, 4)));
    assert_eq!(t.next_player, Player::P1);
}

#[test]
fn nested_legal_moves_follow_the_constraint() {
    let mut t = T4Board::new();
    assert_eq!(t.valid_actions(Player::P1).len(), 81);
    t.play(T4Move::new(0, 5));
    let legal = t.valid_actions(t.next_player());
    assert_eq!(legal.len(), 9);
    assert!(legal.iter().all(|m| m.macro_ == 5));
}

#[test]
fn winning_three_boards_wins_the_game() {
    let mut t = T4Board::new();
    // X already owns boards 0 and 1 and holds two cells of board 2.
    for b in 0..2 {
        t.boards[b].play(0, Player::P1);
        t.boards[b].play(1, Player::P1);
        t.boards[b].play(2, Player::P1);
        assert_eq!(t.boards[b].winning_piece, T4Cell::X);
    }
    t.boards[2].play(0, Player::P1);
    t.boards[2].play(1, Player::P1);
    t.next_board = None;
    assert!(!t.has_won(Player::P1));
    // Completing board 2 completes the large-grid top row.
    let o = t.do_action(T4Move::new(2, 2));
    assert_eq!(t.winner, T4Cell::X);
    assert!(t.has_won(Player::P1));
    assert!(matches!(o, Outcome::P1Win));
}

#[test]
fn nested_board_play_reaches_a_recommendation() {
    let mut tree = mcts::tree::MCTree::new(T4Board::new(), Player::P2, Player::P1, 77);
    for _ in 0..120 {
        tree.iter();
    }
    let a = tree.root.best_action().unwrap();
    assert!(a.macro_ < 9 && a.micro < 9);
    assert!(tree.root.children.iter().any(|c| c.action == Some(a)));
}

#[test]
fn cell_pieces_match_players() {
    assert_eq!(T4Cell::from_player(Player::P1), T4Cell::X);
    assert_eq!(T4Cell::from_player(Player::P2), T4Cell::O);
    assert_eq!(C4State::piece(Player::P1), C4Cell::X);
    assert_eq!(C4State::piece(Player::P2), C4Cell::O);
}

#[test]
fn moves_carry_their_coordinates() {
    let m = T4Move::new(3, 8);
    assert_eq!(m.macro_, 3);
    assert_eq!(m.micro, 8);
    assert_eq!(m, T4Move::new(3, 8));
    assert_ne!(m, T4Move::new(8, 3));
}

#[test]
fn cloned_states_match_the_original() {
    let mut s = C4State::initial();
    s.do_action(3);
    s.do_action(4);
    let c = s.clone_state();
    for r in 0..6 {
        for col in 0..7 {
            assert_eq!(s.get(r, col), c.get(r, col));
        }
    }
    assert_eq!(s.next_player(), c.next_player());
    let mut t = T4Board::new();
    t.play(T4Move::new(2, 2));
    let tc = t.clone_state();
    assert_eq!(tc.next_board, t.next_board);
    assert_eq!(tc.next_player, t.next_player);
    assert_eq!(tc.boards[2].cells[2], t.boards[2].cells[2]);
}
