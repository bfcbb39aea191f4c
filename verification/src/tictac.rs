//! A nested tic-tac-toe board: nine small three-by-three boards arranged
//! in a three-by-three grid. A move names a small board and a cell in it;
//! winning a small board places the winner's piece on the large grid, and
//! three such pieces in a line win the game. The small board a move's
//! cell points at becomes the only playable board for the opponent,
//! unless it is full.

use vstd::prelude::*;
use crate::player::Player;
use crate::outcome::{Outcome, OutcomeView};
use crate::game::State;

verus! {

/// One cell: a piece of either player or blank.
#[derive(Clone, Copy, Debug, PartialEq, Eq, Structural)]
pub enum T4Cell {
    O,
    X,
    Blank,
}

/// The piece of `p`: X for the first player, O for the second.
pub open spec fn t4_piece(p: Player) -> T4Cell {
    match p {
        Player::P1 => T4Cell::X,
        Player::P2 => T4Cell::O,
    }
}

impl T4Cell {
    /// Returns the piece of `p`.
    pub fn from_player(p: Player) -> (r: T4Cell)
        ensures
            r == t4_piece(p),
    {
        match p {
            Player::P1 => T4Cell::X,
            Player::P2 => T4Cell::O,
        }
    }
}

/// Three equal pieces at cells `a`, `b`, `c`.
pub open spec fn t2_triple(cells: Seq<T4Cell>, pc: T4Cell, a: int, b: int, c: int) -> bool {
    cells[a] == pc && cells[b] == pc && cells[c] == pc
}

/// A three-in-a-row of `pc` on a small board: one of the three rows,
/// three columns or two diagonals.
pub open spec fn t2_line_won(cells: Seq<T4Cell>, pc: T4Cell) -> bool {
    ||| t2_triple(cells, pc, 0, 1, 2)
    ||| t2_triple(cells, pc, 3, 4, 5)
    ||| t2_triple(cells, pc, 6, 7, 8)
    ||| t2_triple(cells, pc, 0, 3, 6)
    ||| t2_triple(cells, pc, 1, 4, 7)
    ||| t2_triple(cells, pc, 2, 5, 8)
    ||| t2_triple(cells, pc, 0, 4, 8)
    ||| t2_triple(cells, pc, 2, 4, 6)
}

/// How many of the first `k` cells are blank.
pub open spec fn t2_count_blanks(cells: Seq<T4Cell>, k: int) -> int
    decreases k,
{
    if k <= 0 {
        0
    } else {
        t2_count_blanks(cells, k - 1) + if cells[k - 1] == T4Cell::Blank {
            1int
        } else {
            0int
        }
    }
}

/// The blank cells below `k`, ascending.
pub open spec fn t2_blanks_upto(cells: Seq<T4Cell>, k: int) -> Seq<u8>
    decreases k,
{
    if k <= 0 {
        Seq::empty()
    } else if cells[k - 1] == T4Cell::Blank {
        t2_blanks_upto(cells, k - 1).push((k - 1) as u8)
    } else {
        t2_blanks_upto(cells, k - 1)
    }
}

pub proof fn lemma_t2_count_bounds(cells: Seq<T4Cell>, k: int)
    ensures
        0 <= t2_count_blanks(cells, k),
        k >= 0 ==> t2_count_blanks(cells, k) <= k,
    decreases k,
{
    if k > 0 {
        lemma_t2_count_bounds(cells, k - 1);
    }
}

/// Filling one blank cell lowers the blank count of any window past it
/// by one and leaves earlier windows unchanged.
pub proof fn lemma_t2_count_update(cells: Seq<T4Cell>, i: int, v: T4Cell, k: int)
    requires
        k <= cells.len(),
        0 <= i < cells.len(),
        cells[i] == T4Cell::Blank,
        v != T4Cell::Blank,
    ensures
        t2_count_blanks(cells.update(i, v), k) == t2_count_blanks(cells, k) - if i < k {
            1int
        } else {
            0int
        },
    decreases k,
{
    if k > 0 {
        lemma_t2_count_update(cells, i, v, k - 1);
    }
}

/// A blank cell within the first `k` keeps the blank count positive.
pub proof fn lemma_t2_count_positive(cells: Seq<T4Cell>, i: int, k: int)
    requires
        0 <= i < k,
        cells[i] == T4Cell::Blank,
    ensures
        t2_count_blanks(cells, k) >= 1,
    decreases k,
{
    lemma_t2_count_bounds(cells, k - 1);
    if i < k - 1 {
        lemma_t2_count_positive(cells, i, k - 1);
    }
}

/// Every member of the blank list is a blank cell below `k`, and the
/// other way round.
pub proof fn lemma_t2_blanks(cells: Seq<T4Cell>, k: int)
    requires
        k <= 9,
    ensures
        forall|x: u8|
            #[trigger] t2_blanks_upto(cells, k).contains(x) <==> ((x as int) < k
                && cells[x as int] == T4Cell::Blank),
    decreases k,
{
    if k > 0 {
        lemma_t2_blanks(cells, k - 1);
        let prev = t2_blanks_upto(cells, k - 1);
        let cur = t2_blanks_upto(cells, k);
        assert forall|x: u8| #[trigger] cur.contains(x) implies ((x as int) < k && cells[
            x as int
        ] == T4Cell::Blank) by {
            let i = choose|i: int| 0 <= i < cur.len() && cur[i] == x;
            if cells[k - 1] == T4Cell::Blank {
                if i < prev.len() {
                    assert(prev[i] == x);
                    assert(prev.contains(x));
                } else {
                    assert(x == (k - 1) as u8);
                }
            } else {
                assert(prev[i] == x);
                assert(prev.contains(x));
            }
        }
        assert forall|x: u8| ((x as int) < k && cells[x as int] == T4Cell::Blank)
            implies #[trigger] cur.contains(x) by {
            if (x as int) < k - 1 {
                assert(prev.contains(x));
                let i = choose|i: int| 0 <= i < prev.len() && prev[i] == x;
                assert(cur[i] == x);
            } else {
                assert(cur[prev.len() as int] == x);
            }
        }
    }
}

/// A small board: nine cells and the piece that first won it, if any.
pub struct T2Board {
    /// The nine cells, row-major.
    pub cells: Vec<T4Cell>,
    /// The piece of the first player to make three in a row here, or
    /// blank while nobody has.
    pub winning_piece: T4Cell,
}

/// Mathematical image of a small board.
pub struct T2View {
    /// The nine cells, row-major.
    pub cells: Seq<T4Cell>,
    /// The piece that first won the board, or blank.
    pub winning_piece: T4Cell,
}

impl View for T2Board {
    type V = T2View;

    open spec fn view(&self) -> T2View {
        T2View { cells: self.cells@, winning_piece: self.winning_piece }
    }
}

/// The image of a small board after `player` plays at `place`: the cell
/// is filled and, on a first three-in-a-row, the winning piece is set; an
/// invalid place changes nothing.
pub open spec fn t2_play(v: T2View, place: u8, player: Player) -> T2View {
    if place < 9 && v.cells[place as int] == T4Cell::Blank {
        let cells2 = v.cells.update(place as int, t4_piece(player));
        let wp = if v.winning_piece == T4Cell::Blank && t2_line_won(cells2, t4_piece(player)) {
            t4_piece(player)
        } else {
            v.winning_piece
        };
        T2View { cells: cells2, winning_piece: wp }
    } else {
        v
    }
}

impl T2Board {
    /// The representation is sound: exactly nine cells.
    pub open spec fn well_sized(self) -> bool {
        self.cells@.len() == 9
    }

    /// A fresh, empty small board.
    pub fn new() -> (r: T2Board)
        ensures
            r.well_sized(),
            r@.winning_piece == T4Cell::Blank,
            forall|i: int| 0 <= i < 9 ==> r@.cells[i] == T4Cell::Blank,
    {
        let mut cells: Vec<T4Cell> = Vec::new();
        let mut k: usize = 0;
        while k < 9
            invariant
                cells@.len() == k,
                k <= 9,
                forall|i: int| 0 <= i < k ==> cells@[i] == T4Cell::Blank,
            decreases 9 - k,
        {
            cells.push(T4Cell::Blank);
            k = k + 1;
        }
        T2Board { cells, winning_piece: T4Cell::Blank }
    }

    /// Whether every cell carries a piece.
    pub fn full(&self) -> (r: bool)
        requires
            self.well_sized(),
        ensures
            r == (t2_count_blanks(self@.cells, 9) == 0),
    {
        let mut k: usize = 0;
        while k < 9
            invariant
                self.well_sized(),
                k <= 9,
                t2_count_blanks(self@.cells, k as int) == 0,
            decreases 9 - k,
        {
            if matches!(self.cells[k], T4Cell::Blank) {
                proof {
                    lemma_t2_count_positive(self@.cells, k as int, 9);
                }
                return false;
            }
            k = k + 1;
        }
        true
    }

    /// Whether `place` names a blank cell.
    pub fn valid(&self, place: u8) -> (r: bool)
        requires
            self.well_sized(),
        ensures
            r == (place < 9 && self@.cells[place as int] == T4Cell::Blank),
    {
        place < 9 && matches!(self.cells[place as usize], T4Cell::Blank)
    }

    /// Plays `player` at `place` if that cell is blank; returns whether
    /// the move happened.
    pub fn play(&mut self, place: u8, player: Player) -> (r: bool)
        requires
            old(self).well_sized(),
        ensures
            final(self).well_sized(),
            final(self)@ == t2_play(old(self)@, place, player),
            r == (place < 9 && old(self)@.cells[place as int] == T4Cell::Blank),
    {
        if place < 9 && matches!(self.cells[place as usize], T4Cell::Blank) {
            let pc = T4Cell::from_player(player);
            self.cells[place as usize] = pc;
            if matches!(self.winning_piece, T4Cell::Blank) && self.has_won_p(player) {
                self.winning_piece = pc;
            }
            true
        } else {
            false
        }
    }

    /// The blank cells, ascending.
    pub fn blanks(&self) -> (r: Vec<u8>)
        requires
            self.well_sized(),
        ensures
            r@ == t2_blanks_upto(self@.cells, 9),
    {
        let mut out: Vec<u8> = Vec::new();
        let mut k: u8 = 0;
        while k < 9
            invariant
                self.well_sized(),
                k <= 9,
                out@ == t2_blanks_upto(self@.cells, k as int),
            decreases 9 - k,
        {
            if matches!(self.cells[k as usize], T4Cell::Blank) {
                out.push(k);
            }
            k = k + 1;
        }
        out
    }

    /// Whether `player` has three in a row on this board.
    pub fn has_won_p(&self, player: Player) -> (r: bool)
        requires
            self.well_sized(),
        ensures
            r == t2_line_won(self@.cells, t4_piece(player)),
    {
        let p = T4Cell::from_player(player);
        if self.cells[0] == p && self.cells[1] == p && self.cells[2] == p {
            return true;
        }
        if self.cells[3] == p && self.cells[4] == p && self.cells[5] == p {
            return true;
        }
        if self.cells[6] == p && self.cells[7] == p && self.cells[8] == p {
            return true;
        }
        if self.cells[0] == p && self.cells[3] == p && self.cells[6] == p {
            return true;
        }
        if self.cells[1] == p && self.cells[4] == p && self.cells[7] == p {
            return true;
        }
        if self.cells[2] == p && self.cells[5] == p && self.cells[8] == p {
            return true;
        }
        if self.cells[0] == p && self.cells[4] == p && self.cells[8] == p {
            return true;
        }
        if self.cells[2] == p && self.cells[4] == p && self.cells[6] == p {
            return true;
        }
        false
    }
}

/// One move: a small board (`macro_`) and a cell in it (`micro`).
#[derive(Clone, Copy, Debug, PartialEq, Eq, Structural)]
pub struct T4Move {
    /// Which small board is played.
    pub macro_: u8,
    /// Which cell of that board is filled.
    pub micro: u8,
}

impl T4Move {
    /// Builds a move from its two coordinates.
    pub fn new(macro_: u8, micro: u8) -> (r: T4Move)
        ensures
            r.macro_ == macro_,
            r.micro == micro,
    {
        T4Move { macro_, micro }
    }
}

/// Three equal winning pieces at large-grid positions `a`, `b`, `c`.
pub open spec fn t4_triple(boards: Seq<T2View>, pc: T4Cell, a: int, b: int, c: int) -> bool {
    boards[a].winning_piece == pc && boards[b].winning_piece == pc && boards[c].winning_piece
        == pc
}

/// A three-in-a-row of won boards on the large grid.
pub open spec fn t4_line_won(boards: Seq<T2View>, pc: T4Cell) -> bool {
    ||| t4_triple(boards, pc, 0, 1, 2)
    ||| t4_triple(boards, pc, 3, 4, 5)
    ||| t4_triple(boards, pc, 6, 7, 8)
    ||| t4_triple(boards, pc, 0, 3, 6)
    ||| t4_triple(boards, pc, 1, 4, 7)
    ||| t4_triple(boards, pc, 2, 5, 8)
    ||| t4_triple(boards, pc, 0, 4, 8)
    ||| t4_triple(boards, pc, 2, 4, 6)
}

/// The moves into board `m`: one per blank cell, ascending.
pub open spec fn t4_moves_of(boards: Seq<T2View>, m: int) -> Seq<T4Move> {
    t2_blanks_upto(boards[m].cells, 9).map_values(
        |mi: u8| T4Move { macro_: m as u8, micro: mi },
    )
}

/// The moves into the boards below `k`, in board order.
pub open spec fn t4_moves_upto(boards: Seq<T2View>, k: int) -> Seq<T4Move>
    decreases k,
{
    if k <= 0 {
        Seq::empty()
    } else {
        t4_moves_upto(boards, k - 1) + t4_moves_of(boards, k - 1)
    }
}

/// Whether every one of the first `k` boards is full.
pub open spec fn t4_all_full_upto(boards: Seq<T2View>, k: int) -> bool
    decreases k,
{
    if k <= 0 {
        true
    } else {
        t4_all_full_upto(boards, k - 1) && t2_count_blanks(boards[k - 1].cells, 9) == 0
    }
}

/// The blank cells over the first `k` boards.
pub open spec fn t4_total_blanks(boards: Seq<T2View>, k: int) -> int
    decreases k,
{
    if k <= 0 {
        0
    } else {
        t4_total_blanks(boards, k - 1) + t2_count_blanks(boards[k - 1].cells, 9)
    }
}

/// Mathematical image of the large board.
pub struct T4View {
    /// The nine small boards, row-major.
    pub boards: Seq<T2View>,
    /// The player to move.
    pub next_player: Player,
    /// The only playable small board, if the last move constrained one.
    pub next_board: Option<u8>,
    /// The piece of the game's winner, or blank.
    pub winner: T4Cell,
}

/// Structural soundness: nine small boards of nine cells, and a playable
/// board constraint within range.
pub open spec fn t4_inv(v: T4View) -> bool {
    &&& v.boards.len() == 9
    &&& (forall|i: int| 0 <= i < 9 ==> (#[trigger] v.boards[i]).cells.len() == 9)
    &&& (v.next_board matches Some(b) ==> b < 9)
}

/// Whether `mv` aims at the board the last move constrained play to.
pub open spec fn t4_selectable(v: T4View, mv: T4Move) -> bool {
    match v.next_board {
        Some(b) => b == mv.macro_,
        None => mv.macro_ < 9,
    }
}

/// The image after `mv`: the named cell is filled, a first small-board
/// three-in-a-row sets that board's winning piece, a large-grid line of
/// won boards sets the winner, the turn passes, and the opponent is sent
/// to board `mv.micro` unless it is full. An unselectable or occupied
/// move changes nothing.
pub open spec fn t4_play_view(v: T4View, mv: T4Move) -> T4View {
    if t4_selectable(v, mv) && mv.macro_ < 9 && mv.micro < 9 && v.boards[
        mv.macro_ as int
    ].cells[mv.micro as int] == T4Cell::Blank {
        let player = v.next_player;
        let b2 = t2_play(v.boards[mv.macro_ as int], mv.micro, player);
        let boards2 = v.boards.update(mv.macro_ as int, b2);
        let w2 = if t4_line_won(boards2, t4_piece(player)) {
            t4_piece(player)
        } else {
            v.winner
        };
        let nb = if t2_count_blanks(boards2[mv.micro as int].cells, 9) == 0 {
            Option::None
        } else {
            Option::Some(mv.micro)
        };
        T4View { boards: boards2, next_player: player.spec_other(), next_board: nb, winner: w2 }
    } else {
        v
    }
}

/// The legal moves: those of the constrained board, or of every board.
pub open spec fn t4_legal(v: T4View) -> Seq<T4Move> {
    match v.next_board {
        Some(b) => t4_moves_of(v.boards, b as int),
        None => t4_moves_upto(v.boards, 9),
    }
}

/// Every move into board `m` names a blank cell of it.
pub proof fn lemma_t4_moves_of_members(boards: Seq<T2View>, m: int)
    requires
        0 <= m < 9,
        boards[m].cells.len() == 9,
    ensures
        forall|x: T4Move|
            #[trigger] t4_moves_of(boards, m).contains(x) ==> (x.macro_ == m && x.micro < 9
                && boards[m].cells[x.micro as int] == T4Cell::Blank),
{
    lemma_t2_blanks(boards[m].cells, 9);
    let bl = t2_blanks_upto(boards[m].cells, 9);
    let mapped = t4_moves_of(boards, m);
    assert forall|x: T4Move| #[trigger] mapped.contains(x) implies (x.macro_ == m && x.micro
        < 9 && boards[m].cells[x.micro as int] == T4Cell::Blank) by {
        let i = choose|i: int| 0 <= i < mapped.len() && mapped[i] == x;
        assert(bl[i] == x.micro);
        assert(bl.contains(x.micro));
    }
}

/// Every move in the whole-move list names a board and a blank cell.
pub proof fn lemma_t4_moves_upto_members(boards: Seq<T2View>, k: int)
    requires
        k <= 9,
        forall|i: int| 0 <= i < 9 ==> (#[trigger] boards[i]).cells.len() == 9,
    ensures
        forall|x: T4Move|
            #[trigger] t4_moves_upto(boards, k).contains(x) ==> (x.macro_ < k && x.micro < 9
                && boards[x.macro_ as int].cells[x.micro as int] == T4Cell::Blank),
    decreases k,
{
    if k > 0 {
        lemma_t4_moves_upto_members(boards, k - 1);
        lemma_t4_moves_of_members(boards, k - 1);
        let prev = t4_moves_upto(boards, k - 1);
        let tail = t4_moves_of(boards, k - 1);
        assert forall|x: T4Move| #[trigger] t4_moves_upto(boards, k).contains(x) implies (
            x.macro_ < k && x.micro < 9 && boards[x.macro_ as int].cells[x.micro as int]
            == T4Cell::Blank) by {
            let i = choose|i: int|
                0 <= i < (prev + tail).len() && #[trigger] (prev + tail)[i] == x;
            if i < prev.len() {
                assert(prev[i] == x);
                assert(prev.contains(x));
            } else {
                assert(tail[i - prev.len()] == x);
                assert(tail.contains(x));
            }
        }
    }
}

/// Emptying one blank cell of one board lowers the total blank count of
/// any window past that board by one.
pub proof fn lemma_t4_total_update(boards: Seq<T2View>, m: int, b2: T2View, k: int)
    requires
        k <= boards.len(),
        0 <= m < boards.len(),
        t2_count_blanks(b2.cells, 9) == t2_count_blanks(boards[m].cells, 9) - 1,
    ensures
        t4_total_blanks(boards.update(m, b2), k) == t4_total_blanks(boards, k) - if m < k {
            1int
        } else {
            0int
        },
    decreases k,
{
    if k > 0 {
        lemma_t4_total_update(boards, m, b2, k - 1);
    }
}

pub proof fn lemma_t4_total_nonneg(boards: Seq<T2View>, k: int)
    ensures
        0 <= t4_total_blanks(boards, k),
    decreases k,
{
    if k > 0 {
        lemma_t4_total_nonneg(boards, k - 1);
        lemma_t2_count_bounds(boards[k - 1].cells, 9);
    }
}

/// The large board: nine small boards, the turn, the constrained board,
/// and the winner so far.
pub struct T4Board {
    /// The nine small boards, row-major.
    pub boards: Vec<T2Board>,
    /// The player to move.
    pub next_player: Player,
    /// The only playable small board, if constrained.
    pub next_board: Option<u8>,
    /// The piece of the game's winner, or blank.
    pub winner: T4Cell,
}

impl View for T4Board {
    type V = T4View;

    open spec fn view(&self) -> T4View {
        T4View {
            boards: self.boards@.map_values(|b: T2Board| b@),
            next_player: self.next_player,
            next_board: self.next_board,
            winner: self.winner,
        }
    }
}

impl T4Board {
    /// A fresh, empty large board, first player to move, every board
    /// playable.
    pub fn new() -> (r: T4Board)
        ensures
            t4_inv(r@),
            r@.next_player == Player::P1,
            r@.next_board is None,
            r@.winner == T4Cell::Blank,
            forall|i: int, j: int|
                0 <= i < 9 && 0 <= j < 9 ==> #[trigger] r@.boards[i].cells[j]
                    == T4Cell::Blank,
            forall|i: int|
                0 <= i < 9 ==> (#[trigger] r@.boards[i]).winning_piece == T4Cell::Blank,
    {
        let mut boards: Vec<T2Board> = Vec::new();
        let mut k: usize = 0;
        while k < 9
            invariant
                boards@.len() == k,
                k <= 9,
                forall|i: int|
                    0 <= i < k ==> (#[trigger] boards@[i])@.cells.len() == 9,
                forall|i: int, j: int|
                    0 <= i < k && 0 <= j < 9 ==> #[trigger] boards@[i]@.cells[j]
                        == T4Cell::Blank,
                forall|i: int|
                    0 <= i < k ==> (#[trigger] boards@[i])@.winning_piece == T4Cell::Blank,
            decreases 9 - k,
        {
            boards.push(T2Board::new());
            k = k + 1;
        }
        T4Board {
            boards,
            next_player: Player::P1,
            next_board: Option::None,
            winner: T4Cell::Blank,
        }
    }

    /// Plays `place` if it aims at the playable board and a blank cell;
    /// returns whether the move happened.
    pub fn play(&mut self, place: T4Move) -> (r: bool)
        requires
            t4_inv(old(self)@),
        ensures
            t4_inv(final(self)@),
            final(self)@ == t4_play_view(old(self)@, place),
            r == (t4_selectable(old(self)@, place) && place.macro_ < 9 && place.micro < 9
                && old(self)@.boards[place.macro_ as int].cells[place.micro as int]
                == T4Cell::Blank),
    {
        let proceed = match self.next_board {
            Option::Some(b) => b == place.macro_,
            Option::None => place.macro_ < 9,
        };
        if proceed && place.macro_ < 9 {
            let player = self.next_player;
            let bref = &mut self.boards[place.macro_ as usize];
            let valid = bref.play(place.micro, player);
            if valid {
                if self.has_won_p(player) {
                    self.winner = T4Cell::from_player(player);
                }
                self.next_player = player.other();
                self.next_board = if !self.boards[place.micro as usize].full() {
                    Option::Some(place.micro)
                } else {
                    Option::None
                };
            }
            proof {
                assert(self@.boards =~= t4_play_view(old(self)@, place).boards);
            }
            valid
        } else {
            false
        }
    }

    /// Whether `place` aims at the playable board and a blank cell.
    pub fn valid(&self, place: T4Move) -> (r: bool)
        requires
            t4_inv(self@),
        ensures
            r == (t4_selectable(self@, place) && place.macro_ < 9 && place.micro < 9
                && self@.boards[place.macro_ as int].cells[place.micro as int]
                == T4Cell::Blank),
    {
        let sel = match self.next_board {
            Option::Some(b) => b == place.macro_,
            Option::None => place.macro_ < 9,
        };
        if sel && place.macro_ < 9 {
            self.boards[place.macro_ as usize].valid(place.micro)
        } else {
            false
        }
    }

    /// Whether every cell of every small board carries a piece.
    pub fn full(&self) -> (r: bool)
        requires
            t4_inv(self@),
        ensures
            r == t4_all_full_upto(self@.boards, 9),
    {
        let mut k: usize = 0;
        while k < 9
            invariant
                t4_inv(self@),
                k <= 9,
                t4_all_full_upto(self@.boards, k as int),
            decreases 9 - k,
        {
            proof {
                assert(self@.boards[k as int] == self.boards@[k as int]@);
            }
            if !self.boards[k].full() {
                proof {
                    lemma_t4_all_full_mono(self@.boards, k as int + 1, 9);
                }
                return false;
            }
            k = k + 1;
        }
        true
    }

    /// Whether `player` owns three won boards in a line.
    pub fn has_won_p(&self, player: Player) -> (r: bool)
        requires
            t4_inv(self@),
        ensures
            r == t4_line_won(self@.boards, t4_piece(player)),
    {
        let p = T4Cell::from_player(player);
        if self.boards[0].winning_piece == p && self.boards[1].winning_piece == p
            && self.boards[2].winning_piece == p {
            return true;
        }
        if self.boards[3].winning_piece == p && self.boards[4].winning_piece == p
            && self.boards[5].winning_piece == p {
            return true;
        }
        if self.boards[6].winning_piece == p && self.boards[7].winning_piece == p
            && self.boards[8].winning_piece == p {
            return true;
        }
        if self.boards[0].winning_piece == p && self.boards[3].winning_piece == p
            && self.boards[6].winning_piece == p {
            return true;
        }
        if self.boards[1].winning_piece == p && self.boards[4].winning_piece == p
            && self.boards[7].winning_piece == p {
            return true;
        }
        if self.boards[2].winning_piece == p && self.boards[5].winning_piece == p
            && self.boards[8].winning_piece == p {
            return true;
        }
        if self.boards[0].winning_piece == p && self.boards[4].winning_piece == p
            && self.boards[8].winning_piece == p {
            return true;
        }
        if self.boards[2].winning_piece == p && self.boards[4].winning_piece == p
            && self.boards[6].winning_piece == p {
            return true;
        }
        false
    }

    /// The moves into board `m`: one per blank cell, ascending.
    fn moves_of_board(&self, m: u8) -> (r: Vec<T4Move>)
        requires
            t4_inv(self@),
            m < 9,
        ensures
            r@ == t4_moves_of(self@.boards, m as int),
    {
        proof {
            assert(self@.boards[m as int] == self.boards@[m as int]@);
        }
        let bl = self.boards[m as usize].blanks();
        let mut out: Vec<T4Move> = Vec::new();
        let mut j: usize = 0;
        while j < bl.len()
            invariant
                j <= bl@.len(),
                out@.len() == j,
                forall|i: int|
                    0 <= i < j ==> #[trigger] out@[i] == (T4Move {
                        macro_: m,
                        micro: bl@[i],
                    }),
            decreases bl@.len() - j,
        {
            out.push(T4Move::new(m, bl[j]));
            j = j + 1;
        }
        proof {
            assert(out@ =~= t4_moves_of(self@.boards, m as int));
        }
        out
    }
}

/// Fullness of a window of boards extends to any wider window only if the
/// added boards are full; conversely a non-full board past `k` refutes
/// the wider window.
pub proof fn lemma_t4_all_full_mono(boards: Seq<T2View>, k: int, n: int)
    requires
        k <= n,
        !t4_all_full_upto(boards, k),
    ensures
        !t4_all_full_upto(boards, n),
    decreases n - k,
{
    if k < n {
        lemma_t4_all_full_mono(boards, k + 1, n);
    }
}

impl State for T4Board {
    type Action = T4Move;

    open spec fn spec_next(v: T4View) -> Player {
        v.next_player
    }

    open spec fn won(v: T4View, p: Player) -> bool {
        t4_line_won(v.boards, t4_piece(p))
    }

    /// Both players always see the same playable moves.
    open spec fn legal_actions(v: T4View, p: Player) -> Seq<T4Move> {
        t4_legal(v)
    }

    open spec fn next_view(v: T4View, a: T4Move) -> T4View {
        t4_play_view(v, a)
    }

    /// The outcome after a move: a win of the mover once the large grid
    /// holds their line, a draw on a wholly full board, the playable
    /// moves otherwise.
    open spec fn action_outcome(v: T4View, a: T4Move) -> OutcomeView<T4Move> {
        let v2 = t4_play_view(v, a);
        if v2.winner == t4_piece(v2.next_player.spec_other()) {
            if v2.next_player.spec_other() == Player::P1 {
                OutcomeView::P1Win
            } else {
                OutcomeView::P2Win
            }
        } else if t4_all_full_upto(v2.boards, 9) {
            OutcomeView::Draw
        } else {
            OutcomeView::Actions(t4_legal(v2))
        }
    }

    /// The blank cells over all boards: every legal move fills one.
    open spec fn measure(v: T4View) -> nat {
        t4_total_blanks(v.boards, 9) as nat
    }

    open spec fn inv(v: T4View) -> bool {
        t4_inv(v)
    }

    fn initial() -> (s: Self)
        ensures
            s@.next_player == Player::P1,
            s@.next_board is None,
            s@.winner == T4Cell::Blank,
            forall|i: int, j: int|
                0 <= i < 9 && 0 <= j < 9 ==> #[trigger] s@.boards[i].cells[j]
                    == T4Cell::Blank,
            forall|i: int|
                0 <= i < 9 ==> (#[trigger] s@.boards[i]).winning_piece == T4Cell::Blank,
    {
        T4Board::new()
    }

    fn next_player(&self) -> (p: Player) {
        self.next_player
    }

    fn has_won(&self, p: Player) -> (r: bool) {
        self.has_won_p(p)
    }

    fn valid_actions(&self, p: Player) -> (r: Vec<T4Move>) {
        match self.next_board {
            Option::Some(b) => self.moves_of_board(b),
            Option::None => {
                let mut out: Vec<T4Move> = Vec::new();
                let mut k: u8 = 0;
                while k < 9
                    invariant
                        t4_inv(self@),
                        k <= 9,
                        out@ == t4_moves_upto(self@.boards, k as int),
                    decreases 9 - k,
                {
                    let mut part = self.moves_of_board(k);
                    out.append(&mut part);
                    k = k + 1;
                }
                out
            },
        }
    }

    #[verifier::loop_isolation(false)]
    fn do_action(&mut self, place: T4Move) -> (o: Outcome<T4Move>) {
        proof {
            if t4_legal(old(self)@).contains(place) {
                match old(self)@.next_board {
                    Option::Some(b) => {
                        lemma_t4_moves_of_members(old(self)@.boards, b as int);
                    },
                    Option::None => {
                        lemma_t4_moves_upto_members(old(self)@.boards, 9);
                    },
                }
            }
        }
        let _moved = self.play(place);
        proof {
            if t4_legal(old(self)@).contains(place) {
                let vold = old(self)@;
                assert(t4_selectable(vold, place) && place.macro_ < 9 && place.micro < 9
                    && vold.boards[place.macro_ as int].cells[place.micro as int]
                    == T4Cell::Blank);
                let b2 = t2_play(
                    vold.boards[place.macro_ as int],
                    place.micro,
                    vold.next_player,
                );
                lemma_t2_count_update(
                    vold.boards[place.macro_ as int].cells,
                    place.micro as int,
                    t4_piece(vold.next_player),
                    9,
                );
                lemma_t4_total_update(vold.boards, place.macro_ as int, b2, 9);
                lemma_t4_total_nonneg(self@.boards, 9);
                lemma_t4_total_nonneg(vold.boards, 9);
                assert(t4_total_blanks(self@.boards, 9) == t4_total_blanks(vold.boards, 9)
                    - 1);
            }
        }
        let np = self.next_player();
        let cand = np.other();
        if self.winner == T4Cell::from_player(cand) {
            return Outcome::from_player(cand);
        }
        if self.full() {
            return Outcome::Draw;
        }
        let acts = self.valid_actions(self.next_player());
        Outcome::Actions(acts)
    }

    fn clone_state(&self) -> (r: Self) {
        let mut boards: Vec<T2Board> = Vec::new();
        let mut k: usize = 0;
        while k < self.boards.len()
            invariant
                k <= self.boards@.len(),
                boards@.len() == k,
                forall|i: int| 0 <= i < k ==> (#[trigger] boards@[i])@ == self.boards@[i]@,
            decreases self.boards@.len() - k,
        {
            let mut cells: Vec<T4Cell> = Vec::new();
            let mut j: usize = 0;
            while j < self.boards[k].cells.len()
                invariant
                    k < self.boards@.len(),
                    j <= self.boards@[k as int].cells@.len(),
                    cells@ == self.boards@[k as int].cells@.take(j as int),
                decreases self.boards@[k as int].cells@.len() - j,
            {
                cells.push(self.boards[k].cells[j]);
                proof {
                    assert(cells@ =~= self.boards@[k as int].cells@.take(j + 1));
                }
                j = j + 1;
            }
            proof {
                assert(self.boards@[k as int].cells@.take(
                    self.boards@[k as int].cells@.len() as int,
                ) =~= self.boards@[k as int].cells@);
            }
            boards.push(T2Board { cells, winning_piece: self.boards[k].winning_piece });
            k = k + 1;
        }
        let r = T4Board {
            boards,
            next_player: self.next_player,
            next_board: self.next_board,
            winner: self.winner,
        };
        proof {
            assert(r@.boards =~= self@.boards);
        }
        r
    }

    fn actions_equal(a: T4Move, b: T4Move) -> (r: bool) {
        a == b
    }
}

} // verus!
