//! A connect-four board on a 7-wide, 6-high grid: the first game served
//! by the search engine. Rows are numbered from the top, so a piece
//! dropped into a column comes to rest at the greatest open row index.

use vstd::prelude::*;
use crate::player::Player;
use crate::outcome::{Outcome, OutcomeView};
use crate::game::State;

verus! {

/// One cell: a piece of either player or blank.
#[derive(Clone, Copy, Debug, PartialEq, Eq, Structural)]
pub enum C4Cell {
    O,
    X,
    Blank,
}

/// The piece of `p`: X for the first player, O for the second.
pub open spec fn c4_piece(p: Player) -> C4Cell {
    match p {
        Player::P1 => C4Cell::X,
        Player::P2 => C4Cell::O,
    }
}

/// The cell of row `r` (0 at the top), column `c`, in the row-major
/// board image.
pub open spec fn v_get(cells: Seq<C4Cell>, r: int, c: int) -> C4Cell {
    cells[r * 7 + c]
}

/// Four pieces of `p` in a line from `(r, c)` with step `(dr, dc)`.
pub open spec fn v_line(cells: Seq<C4Cell>, p: Player, r: int, c: int, dr: int, dc: int) -> bool {
    &&& v_get(cells, r, c) == c4_piece(p)
    &&& v_get(cells, r + dr, c + dc) == c4_piece(p)
    &&& v_get(cells, r + 2 * dr, c + 2 * dc) == c4_piece(p)
    &&& v_get(cells, r + 3 * dr, c + 3 * dc) == c4_piece(p)
}

/// A vertical four-in-a-row of `p` somewhere on the board.
pub open spec fn v_col_win(cells: Seq<C4Cell>, p: Player) -> bool {
    exists|r: int, c: int| 0 <= r < 3 && 0 <= c < 7 && #[trigger] v_line(cells, p, r, c, 1, 0)
}

/// A horizontal four-in-a-row of `p` somewhere on the board.
pub open spec fn v_row_win(cells: Seq<C4Cell>, p: Player) -> bool {
    exists|r: int, c: int| 0 <= r < 6 && 0 <= c < 4 && #[trigger] v_line(cells, p, r, c, 0, 1)
}

/// A top-left to bottom-right four-in-a-row of `p`.
pub open spec fn v_diag_down_win(cells: Seq<C4Cell>, p: Player) -> bool {
    exists|r: int, c: int| 0 <= r < 3 && 0 <= c < 4 && #[trigger] v_line(cells, p, r, c, 1, 1)
}

/// A bottom-left to top-right four-in-a-row of `p`.
pub open spec fn v_diag_up_win(cells: Seq<C4Cell>, p: Player) -> bool {
    exists|r: int, c: int| 3 <= r < 6 && 0 <= c < 4 && #[trigger] v_line(cells, p, r, c, -1, 1)
}

/// `p` has four in a row in some direction.
pub open spec fn v_won(cells: Seq<C4Cell>, p: Player) -> bool {
    v_col_win(cells, p) || v_row_win(cells, p) || v_diag_down_win(cells, p) || v_diag_up_win(
        cells,
        p,
    )
}

/// The columns below `k` whose top cell is blank, ascending.
pub open spec fn v_open_cols_upto(cells: Seq<C4Cell>, k: int) -> Seq<u8>
    decreases k,
{
    if k <= 0 {
        Seq::empty()
    } else if v_get(cells, 0, k - 1) == C4Cell::Blank {
        v_open_cols_upto(cells, k - 1).push((k - 1) as u8)
    } else {
        v_open_cols_upto(cells, k - 1)
    }
}

/// The legal columns: those with an open top cell, unless somebody has
/// already won.
pub open spec fn v_legal_cols(cells: Seq<C4Cell>) -> Seq<u8> {
    if v_won(cells, Player::P1) || v_won(cells, Player::P2) {
        Seq::empty()
    } else {
        v_open_cols_upto(cells, 7)
    }
}

/// The greatest row index `<= from` whose cell in `col` is blank, or -1
/// if none is: where a dropped piece comes to rest.
pub open spec fn v_landing(cells: Seq<C4Cell>, col: int, from: int) -> int
    decreases from + 1,
{
    if from < 0 {
        -1
    } else if v_get(cells, from, col) == C4Cell::Blank {
        from
    } else {
        v_landing(cells, col, from - 1)
    }
}

/// How many of the first `k` cells are blank.
pub open spec fn v_count_blanks(cells: Seq<C4Cell>, k: int) -> int
    decreases k,
{
    if k <= 0 {
        0
    } else {
        v_count_blanks(cells, k - 1) + if cells[k - 1] == C4Cell::Blank {
            1int
        } else {
            0int
        }
    }
}

pub proof fn lemma_count_bounds(cells: Seq<C4Cell>, k: int)
    ensures
        0 <= v_count_blanks(cells, k),
        k >= 0 ==> v_count_blanks(cells, k) <= k,
    decreases k,
{
    if k > 0 {
        lemma_count_bounds(cells, k - 1);
    }
}

/// Filling one blank cell lowers the blank count of any window past it
/// by one and leaves earlier windows unchanged.
pub proof fn lemma_count_update(cells: Seq<C4Cell>, i: int, v: C4Cell, k: int)
    requires
        k <= cells.len(),
        0 <= i < cells.len(),
        cells[i] == C4Cell::Blank,
        v != C4Cell::Blank,
    ensures
        v_count_blanks(cells.update(i, v), k) == v_count_blanks(cells, k) - if i < k {
            1int
        } else {
            0int
        },
    decreases k,
{
    if k > 0 {
        lemma_count_update(cells, i, v, k - 1);
    }
}

/// A blank cell within the first `k` keeps the blank count positive.
pub proof fn lemma_count_positive(cells: Seq<C4Cell>, i: int, k: int)
    requires
        0 <= i < k,
        cells[i] == C4Cell::Blank,
    ensures
        v_count_blanks(cells, k) >= 1,
    decreases k,
{
    lemma_count_bounds(cells, k - 1);
    if i < k - 1 {
        lemma_count_positive(cells, i, k - 1);
    }
}

/// What the landing row satisfies: it is at most `from`; when it exists
/// its cell is blank and every cell strictly below it (up to `from`) is
/// filled; when it does not exist the whole column up to `from` is
/// filled.
pub proof fn lemma_landing(cells: Seq<C4Cell>, col: int, from: int)
    requires
        -1 <= from,
    ensures
        v_landing(cells, col, from) <= from,
        v_landing(cells, col, from) >= -1,
        v_landing(cells, col, from) >= 0 ==> v_get(
            cells,
            v_landing(cells, col, from),
            col,
        ) == C4Cell::Blank,
        forall|r: int|
            v_landing(cells, col, from) < r <= from ==> v_get(cells, r, col)
                != C4Cell::Blank,
    decreases from + 1,
{
    if from >= 0 {
        lemma_landing(cells, col, from - 1);
    }
}

/// The board: 42 cells in row-major order and the player to move.
pub struct C4State {
    /// The 42 cells, row-major, row 0 at the top.
    pub cells: Vec<C4Cell>,
    /// The player to move.
    pub next: Player,
}

/// Mathematical image of a board: the cell sequence and the turn.
pub struct C4View {
    /// The 42 cells, row-major.
    pub cells: Seq<C4Cell>,
    /// The player to move.
    pub next: Player,
}

impl View for C4State {
    type V = C4View;

    open spec fn view(&self) -> C4View {
        C4View { cells: self.cells@, next: self.next }
    }
}

impl C4State {
    /// The representation is sound: exactly 42 cells.
    pub open spec fn well_sized(self) -> bool {
        self.cells@.len() == 42
    }

    /// Reads the cell of `row` and `col`.
    pub fn get(&self, row: u8, col: u8) -> (r: C4Cell)
        requires
            self.well_sized(),
            row < 6,
            col < 7,
        ensures
            r == v_get(self.cells@, row as int, col as int),
    {
        self.cells[(row * 7 + col) as usize]
    }

    /// Returns the piece of `p`.
    pub fn piece(p: Player) -> (r: C4Cell)
        ensures
            r == c4_piece(p),
    {
        match p {
            Player::P1 => C4Cell::X,
            Player::P2 => C4Cell::O,
        }
    }

    /// Puts the piece of `player` at `row`, `col`.
    pub fn play(&mut self, row: u8, col: u8, player: Player)
        requires
            old(self).well_sized(),
            row < 6,
            col < 7,
        ensures
            final(self).well_sized(),
            final(self).cells@ == old(self).cells@.update(
                row as int * 7 + col as int,
                c4_piece(player),
            ),
            final(self).next == old(self).next,
    {
        let p = C4State::piece(player);
        self.cells[(row * 7 + col) as usize] = p;
    }

    /// Looks for a vertical four-in-a-row of `p`.
    #[verifier::loop_isolation(false)]
    fn col_win(&self, p: Player) -> (b: bool)
        requires
            self.well_sized(),
        ensures
            b == v_col_win(self.cells@, p),
    {
        let pc = C4State::piece(p);
        let mut r: u8 = 0;
        while r < 3
            invariant
                self.well_sized(),
                r <= 3,
                forall|rr: int, cc: int|
                    0 <= rr < r && 0 <= cc < 7 ==> !(#[trigger] v_line(
                        self.cells@,
                        p,
                        rr,
                        cc,
                        1,
                        0,
                    )),
            decreases 3 - r,
        {
            let mut c: u8 = 0;
            while c < 7
                invariant
                    self.well_sized(),
                    r < 3,
                    c <= 7,
                    forall|rr: int, cc: int|
                        0 <= rr < r && 0 <= cc < 7 ==> !(#[trigger] v_line(
                            self.cells@,
                            p,
                            rr,
                            cc,
                            1,
                            0,
                        )),
                    forall|cc: int|
                        0 <= cc < c ==> !(#[trigger] v_line(
                            self.cells@,
                            p,
                            r as int,
                            cc,
                            1,
                            0,
                        )),
                decreases 7 - c,
            {
                let g0 = self.get(r, c);
                let g1 = self.get(r + 1, c);
                let g2 = self.get(r + 2, c);
                let g3 = self.get(r + 3, c);
                if g0 == pc && g1 == pc && g2 == pc && g3 == pc {
                    proof {
                        assert(v_line(self.cells@, p, r as int, c as int, 1, 0));
                    }
                    return true;
                }
                c = c + 1;
            }
            r = r + 1;
        }
        false
    }

    /// Looks for a horizontal four-in-a-row of `p`.
    #[verifier::loop_isolation(false)]
    fn row_win(&self, p: Player) -> (b: bool)
        requires
            self.well_sized(),
        ensures
            b == v_row_win(self.cells@, p),
    {
        let pc = C4State::piece(p);
        let mut r: u8 = 0;
        while r < 6
            invariant
                self.well_sized(),
                r <= 6,
                forall|rr: int, cc: int|
                    0 <= rr < r && 0 <= cc < 4 ==> !(#[trigger] v_line(
                        self.cells@,
                        p,
                        rr,
                        cc,
                        0,
                        1,
                    )),
            decreases 6 - r,
        {
            let mut c: u8 = 0;
            while c < 4
                invariant
                    self.well_sized(),
                    r < 6,
                    c <= 4,
                    forall|rr: int, cc: int|
                        0 <= rr < r && 0 <= cc < 4 ==> !(#[trigger] v_line(
                            self.cells@,
                            p,
                            rr,
                            cc,
                            0,
                            1,
                        )),
                    forall|cc: int|
                        0 <= cc < c ==> !(#[trigger] v_line(
                            self.cells@,
                            p,
                            r as int,
                            cc,
                            0,
                            1,
                        )),
                decreases 4 - c,
            {
                if self.get(r, c) == pc && self.get(r, c + 1) == pc && self.get(r, c + 2)
                    == pc && self.get(r, c + 3) == pc {
                    proof {
                        assert(v_line(self.cells@, p, r as int, c as int, 0, 1));
                    }
                    return true;
                }
                c = c + 1;
            }
            r = r + 1;
        }
        false
    }

    /// Looks for a top-left to bottom-right four-in-a-row of `p`.
    #[verifier::loop_isolation(false)]
    fn diag_down_win(&self, p: Player) -> (b: bool)
        requires
            self.well_sized(),
        ensures
            b == v_diag_down_win(self.cells@, p),
    {
        let pc = C4State::piece(p);
        let mut r: u8 = 0;
        while r < 3
            invariant
                self.well_sized(),
                r <= 3,
                forall|rr: int, cc: int|
                    0 <= rr < r && 0 <= cc < 4 ==> !(#[trigger] v_line(
                        self.cells@,
                        p,
                        rr,
                        cc,
                        1,
                        1,
                    )),
            decreases 3 - r,
        {
            let mut c: u8 = 0;
            while c < 4
                invariant
                    self.well_sized(),
                    r < 3,
                    c <= 4,
                    forall|rr: int, cc: int|
                        0 <= rr < r && 0 <= cc < 4 ==> !(#[trigger] v_line(
                            self.cells@,
                            p,
                            rr,
                            cc,
                            1,
                            1,
                        )),
                    forall|cc: int|
                        0 <= cc < c ==> !(#[trigger] v_line(
                            self.cells@,
                            p,
                            r as int,
                            cc,
                            1,
                            1,
                        )),
                decreases 4 - c,
            {
                if self.get(r, c) == pc && self.get(r + 1, c + 1) == pc && self.get(
                    r + 2,
                    c + 2,
                ) == pc && self.get(r + 3, c + 3) == pc {
                    proof {
                        assert(v_line(self.cells@, p, r as int, c as int, 1, 1));
                    }
                    return true;
                }
                c = c + 1;
            }
            r = r + 1;
        }
        false
    }

    /// Looks for a bottom-left to top-right four-in-a-row of `p`.
    #[verifier::loop_isolation(false)]
    fn diag_up_win(&self, p: Player) -> (b: bool)
        requires
            self.well_sized(),
        ensures
            b == v_diag_up_win(self.cells@, p),
    {
        let pc = C4State::piece(p);
        let mut r: u8 = 3;
        while r < 6
            invariant
                self.well_sized(),
                3 <= r <= 6,
                forall|rr: int, cc: int|
                    3 <= rr < r && 0 <= cc < 4 ==> !(#[trigger] v_line(
                        self.cells@,
                        p,
                        rr,
                        cc,
                        -1,
                        1,
                    )),
            decreases 6 - r,
        {
            let mut c: u8 = 0;
            while c < 4
                invariant
                    self.well_sized(),
                    3 <= r < 6,
                    c <= 4,
                    forall|rr: int, cc: int|
                        3 <= rr < r && 0 <= cc < 4 ==> !(#[trigger] v_line(
                            self.cells@,
                            p,
                            rr,
                            cc,
                            -1,
                            1,
                        )),
                    forall|cc: int|
                        0 <= cc < c ==> !(#[trigger] v_line(
                            self.cells@,
                            p,
                            r as int,
                            cc,
                            -1,
                            1,
                        )),
                decreases 4 - c,
            {
                if self.get(r, c) == pc && self.get(r - 1, c + 1) == pc && self.get(
                    r - 2,
                    c + 2,
                ) == pc && self.get(r - 3, c + 3) == pc {
                    proof {
                        assert(v_line(self.cells@, p, r as int, c as int, -1, 1));
                    }
                    return true;
                }
                c = c + 1;
            }
            r = r + 1;
        }
        false
    }

    /// Whether every cell carries a piece.
    pub fn full(&self) -> (r: bool)
        requires
            self.well_sized(),
        ensures
            r == (v_count_blanks(self.cells@, 42) == 0),
    {
        let mut k: usize = 0;
        while k < 42
            invariant
                self.well_sized(),
                k <= 42,
                v_count_blanks(self.cells@, k as int) == 0,
            decreases 42 - k,
        {
            if matches!(self.cells[k], C4Cell::Blank) {
                proof {
                    lemma_count_positive(self.cells@, k as int, 42);
                }
                return false;
            }
            k = k + 1;
        }
        true
    }
}

/// Every member of the open-column list is a column below `k` whose top
/// cell is blank, and the other way round.
pub proof fn lemma_open_cols(cells: Seq<C4Cell>, k: int)
    requires
        k <= 7,
    ensures
        forall|x: u8|
            #[trigger] v_open_cols_upto(cells, k).contains(x) <==> ((x as int) < k
                && v_get(cells, 0, x as int) == C4Cell::Blank),
    decreases k,
{
    if k > 0 {
        lemma_open_cols(cells, k - 1);
        let prev = v_open_cols_upto(cells, k - 1);
        let cur = v_open_cols_upto(cells, k);
        assert forall|x: u8| #[trigger] cur.contains(x) implies ((x as int) < k && v_get(
            cells,
            0,
            x as int,
        ) == C4Cell::Blank) by {
            let i = choose|i: int| 0 <= i < cur.len() && cur[i] == x;
            if v_get(cells, 0, k - 1) == C4Cell::Blank {
                if i < prev.len() {
                    assert(prev[i] == x);
                    assert(prev.contains(x));
                } else {
                    assert(x == (k - 1) as u8);
                }
            } else {
                assert(prev[i] == x);
                assert(prev.contains(x));
            }
        }
        assert forall|x: u8| ((x as int) < k && v_get(cells, 0, x as int) == C4Cell::Blank)
            implies #[trigger] cur.contains(x) by {
            if (x as int) < k - 1 {
                assert(prev.contains(x));
                let i = choose|i: int| 0 <= i < prev.len() && prev[i] == x;
                if v_get(cells, 0, k - 1) == C4Cell::Blank {
                    assert(cur[i] == x);
                } else {
                    assert(cur[i] == x);
                }
            } else {
                assert(cur[prev.len() as int] == x);
            }
        }
    }
}

impl State for C4State {
    type Action = u8;

    open spec fn spec_next(v: C4View) -> Player {
        v.next
    }

    open spec fn won(v: C4View, p: Player) -> bool {
        v_won(v.cells, p)
    }

    /// Both players always see the same open columns.
    open spec fn legal_actions(v: C4View, p: Player) -> Seq<u8> {
        v_legal_cols(v.cells)
    }

    /// A dropped piece lands on the lowest blank cell of its column and
    /// the turn passes; an unknown or full column changes nothing.
    open spec fn next_view(v: C4View, a: u8) -> C4View {
        let l = v_landing(v.cells, a as int, 5);
        if a < 7 && l >= 0 {
            C4View { cells: v.cells.update(l * 7 + a, c4_piece(v.next)), next: v.next.spec_other() }
        } else {
            v
        }
    }

    /// The outcome after a drop: a win of the mover if it completes four
    /// in a row, a draw on a full board, the open columns otherwise; an
    /// unknown or full column reports a defensive draw.
    open spec fn action_outcome(v: C4View, a: u8) -> OutcomeView<u8> {
        let l = v_landing(v.cells, a as int, 5);
        if a < 7 && l >= 0 {
            let cells2 = v.cells.update(l * 7 + a, c4_piece(v.next));
            if v_won(cells2, v.next) {
                if v.next == Player::P1 {
                    OutcomeView::P1Win
                } else {
                    OutcomeView::P2Win
                }
            } else if v_count_blanks(cells2, 42) == 0 {
                OutcomeView::Draw
            } else {
                OutcomeView::Actions(v_legal_cols(cells2))
            }
        } else {
            OutcomeView::Draw
        }
    }

    /// The blank cells: every legal drop fills one.
    open spec fn measure(v: C4View) -> nat {
        v_count_blanks(v.cells, 42) as nat
    }

    open spec fn inv(v: C4View) -> bool {
        v.cells.len() == 42
    }

    fn initial() -> (s: Self)
        ensures
            s@.next == Player::P1,
            forall|i: int| 0 <= i < 42 ==> s@.cells[i] == C4Cell::Blank,
    {
        let mut cells: Vec<C4Cell> = Vec::new();
        let mut k: usize = 0;
        while k < 42
            invariant
                cells@.len() == k,
                k <= 42,
                forall|i: int| 0 <= i < k ==> cells@[i] == C4Cell::Blank,
            decreases 42 - k,
        {
            cells.push(C4Cell::Blank);
            k = k + 1;
        }
        C4State { cells, next: Player::P1 }
    }

    fn next_player(&self) -> (p: Player) {
        self.next
    }

    fn has_won(&self, p: Player) -> (r: bool) {
        self.col_win(p) || self.row_win(p) || self.diag_down_win(p) || self.diag_up_win(p)
    }

    #[verifier::loop_isolation(false)]
    fn valid_actions(&self, p: Player) -> (r: Vec<u8>) {
        if self.has_won(Player::P1) || self.has_won(Player::P2) {
            return Vec::new();
        }
        let mut out: Vec<u8> = Vec::new();
        let mut c: u8 = 0;
        while c < 7
            invariant
                c <= 7,
                out@ == v_open_cols_upto(self.cells@, c as int),
            decreases 7 - c,
        {
            if self.get(0, c) == C4Cell::Blank {
                out.push(c);
            }
            c = c + 1;
        }
        out
    }

    #[verifier::loop_isolation(false)]
    fn do_action(&mut self, col: u8) -> (o: Outcome<u8>) {
        proof {
            lemma_landing(self.cells@, col as int, 5);
            lemma_open_cols(self.cells@, 7);
        }
        if col >= 7 {
            return Outcome::Draw;
        }
        let ghost l = v_landing(self.cells@, col as int, 5);
        let mut row: u8 = 6;
        while row > 0
            invariant
                row <= 6,
                self.cells@ == old(self).cells@,
                self.next == old(self).next,
                forall|rr: int|
                    row <= rr < 6 ==> v_get(self.cells@, rr, col as int) != C4Cell::Blank,
            decreases row,
        {
            row = row - 1;
            if self.get(row, col) == C4Cell::Blank {
                proof {
                    assert(l == row as int);
                }
                let player = self.next_player();
                self.play(row, col, player);
                self.next = player.other();
                proof {
                    lemma_count_update(
                        old(self).cells@,
                        row as int * 7 + col as int,
                        c4_piece(player),
                        42,
                    );
                    lemma_count_bounds(self.cells@, 42);
                }
                if self.has_won(player) {
                    return Outcome::from_player(player);
                } else if self.full() {
                    return Outcome::Draw;
                } else {
                    let nxt = self.next_player();
                    let acts = self.valid_actions(nxt);
                    return Outcome::Actions(acts);
                }
            }
        }
        proof {
            assert(l == -1);
        }
        Outcome::Draw
    }

    fn clone_state(&self) -> (r: Self) {
        let mut cells: Vec<C4Cell> = Vec::new();
        let mut k: usize = 0;
        while k < self.cells.len()
            invariant
                k <= self.cells@.len(),
                cells@ == self.cells@.take(k as int),
            decreases self.cells@.len() - k,
        {
            cells.push(self.cells[k]);
            proof {
                assert(cells@ =~= self.cells@.take(k + 1));
            }
            k = k + 1;
        }
        proof {
            assert(self.cells@.take(self.cells@.len() as int) =~= self.cells@);
        }
        C4State { cells, next: self.next }
    }

    fn actions_equal(a: u8, b: u8) -> (r: bool) {
        a == b
    }
}

} // verus!
