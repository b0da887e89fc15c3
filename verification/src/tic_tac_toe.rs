//! Tic-tac-toe on a board of nine cells, as a situation the engine can
//! search.
//!
//! The cells are numbered row by row:
//!
//! ```text
//! 0 1 2
//! 3 4 5
//! 6 7 8
//! ```

use crate::game_tree::{successor_values, value_at, GameTree, SituationOps};
use crate::policy::{choice, is_choice, lemma_choice_exists, lemma_choice_unique, no_worse};
use vstd::prelude::*;

verus! {

/// The two sides. The offensive side is the one that opens the game.
#[derive(Debug, Clone, Copy, PartialEq, Eq, Structural)]
pub enum TicTacToePlayer {
    Offensive,
    Defensive,
}

impl TicTacToePlayer {
    /// The other side.
    pub open spec fn opponent(self) -> TicTacToePlayer {
        match self {
            TicTacToePlayer::Offensive => TicTacToePlayer::Defensive,
            TicTacToePlayer::Defensive => TicTacToePlayer::Offensive,
        }
    }

    /// The other side.
    pub fn swap(&self) -> (other: TicTacToePlayer)
        ensures
            other == self.opponent(),
    {
        match self {
            TicTacToePlayer::Offensive => TicTacToePlayer::Defensive,
            TicTacToePlayer::Defensive => TicTacToePlayer::Offensive,
        }
    }
}

/// How a game stands, seen from one side.
#[derive(Debug, Clone, Copy, PartialEq, Eq, Structural)]
pub enum TicTacToeResult {
    /// Nobody has a line and a cell is still empty.
    Unknown,
    /// The side that looks at the board has a line.
    Win,
    /// The other side has a line.
    Lose,
    /// The board is full and nobody has a line.
    Tie,
}

/// Why a move cannot be played.
#[derive(Debug, Clone, Copy, PartialEq, Eq, Structural)]
pub enum TicTacToeError {
    /// The cell is taken.
    IllegalMove,
}

/// What one cell holds: the mark of a side, or nothing.
#[derive(Debug, Clone, Copy, PartialEq, Eq)]
pub struct TicTacToeStatus(pub Option<TicTacToePlayer>);

impl TicTacToeStatus {
    /// The character that stands for this cell on a printed board.
    pub open spec fn mark(self) -> char {
        match self.0 {
            Some(TicTacToePlayer::Offensive) => 'O',
            Some(TicTacToePlayer::Defensive) => 'X',
            None => ' ',
        }
    }

    /// The character that stands for this cell on a printed board: `O` for
    /// the offensive side, `X` for the defensive side, a blank for an empty
    /// cell.
    pub fn symbol(&self) -> (c: char)
        ensures
            c == self.mark(),
    {
        match self.0 {
            Some(TicTacToePlayer::Offensive) => 'O',
            Some(TicTacToePlayer::Defensive) => 'X',
            None => ' ',
        }
    }
}

/// A mark of `player` on the cell `pos`.
#[derive(Debug, Clone, Copy, PartialEq, Eq)]
pub struct TicTacToeMove {
    pub pos: usize,
    pub player: TicTacToePlayer,
}

impl TicTacToeMove {
    /// A mark of `player` on the cell `pos`.
    pub fn new(pos: usize, player: TicTacToePlayer) -> (next_move: Self)
        ensures
            next_move.pos == pos,
            next_move.player == player,
    {
        TicTacToeMove { pos, player }
    }
}

/// The cells of the `k`-th of the eight lines: the three rows, the three
/// columns, then the two diagonals.
pub open spec fn line_cells(k: int) -> (int, int, int) {
    if k == 0 {
        (0, 1, 2)
    } else if k == 1 {
        (3, 4, 5)
    } else if k == 2 {
        (6, 7, 8)
    } else if k == 3 {
        (0, 3, 6)
    } else if k == 4 {
        (1, 4, 7)
    } else if k == 5 {
        (2, 5, 8)
    } else if k == 6 {
        (0, 4, 8)
    } else {
        (2, 4, 6)
    }
}

/// The side whose marks fill the `k`-th line of `board`, if one does.
pub open spec fn line_owner(board: Seq<TicTacToeStatus>, k: int) -> Option<TicTacToePlayer> {
    let (a, b, c) = line_cells(k);
    if board[a].0 is Some && board[a].0 == board[b].0 && board[b].0 == board[c].0 {
        board[a].0
    } else {
        None
    }
}

/// The owner of the first filled line among the first `n` lines of `board`.
pub open spec fn first_owner(board: Seq<TicTacToeStatus>, n: int) -> Option<TicTacToePlayer>
    decreases n,
{
    if n <= 0 {
        None
    } else {
        match first_owner(board, n - 1) {
            Some(player) => Some(player),
            None => line_owner(board, n - 1),
        }
    }
}

/// A board, the side that looks at it, and the side to move.
#[derive(Debug, Clone, Copy, PartialEq, Eq)]
pub struct TicTacToeSituation {
    /// The side from whose point of view the board is scored.
    pub player: TicTacToePlayer,
    /// The side to move.
    pub current_move_player: TicTacToePlayer,
    /// The nine cells.
    pub situation: [TicTacToeStatus; 9],
}

impl TicTacToeSituation {
    /// The side that has a line; the first line in the fixed order decides
    /// where a board holds lines of both sides.
    pub open spec fn winner(self) -> Option<TicTacToePlayer> {
        first_owner(self.situation@, 8)
    }

    /// Whether every cell is taken.
    pub open spec fn is_full(self) -> bool {
        forall|pos: int| 0 <= pos < 9 ==> (#[trigger] self.situation@[pos]).0 is Some
    }

    /// How the game stands for `self.player`, by lines alone.
    pub open spec fn line_result(self) -> TicTacToeResult {
        match self.winner() {
            Some(player) => if player == self.player {
                TicTacToeResult::Win
            } else {
                TicTacToeResult::Lose
            },
            None => TicTacToeResult::Unknown,
        }
    }

    /// The marks that the side to move may place on the first `n` cells, in
    /// ascending order of the cells: one on each empty cell.
    pub open spec fn moves_upto(self, n: int) -> Seq<TicTacToeMove>
        decreases n,
    {
        if n <= 0 {
            Seq::empty()
        } else {
            let before = self.moves_upto(n - 1);
            if self.situation@[n - 1].0 is None {
                before.push(
                    TicTacToeMove { pos: (n - 1) as usize, player: self.current_move_player },
                )
            } else {
                before
            }
        }
    }

    /// Whether a mark of the side to move on the cell `pos` fills the `k`-th
    /// line: the cell is empty and lies on the line, and the side to move
    /// holds the other two cells of it.
    pub open spec fn completes_line(self, pos: int, k: int) -> bool {
        let (a, b, c) = line_cells(k);
        let own = Some(self.current_move_player);
        let board = self.situation@;
        &&& 0 <= k < 8
        &&& board[pos].0 is None
        &&& {
            ||| pos == a && board[b].0 == own && board[c].0 == own
            ||| pos == b && board[a].0 == own && board[c].0 == own
            ||| pos == c && board[a].0 == own && board[b].0 == own
        }
    }

    /// An empty board that `player` looks at, with `current_move_player` to
    /// move.
    pub fn new(player: TicTacToePlayer, current_move_player: TicTacToePlayer) -> (start: Self)
        ensures
            start.player == player,
            start.current_move_player == current_move_player,
            forall|pos: int| 0 <= pos < 9 ==> (#[trigger] start.situation@[pos]).0 is None,
    {
        Self { player, current_move_player, situation: [TicTacToeStatus(None);9] }
    }

    /// Whether `self.player` has won or lost; `Unknown` where no line is
    /// filled, also on a full board.
    pub fn check_result(&self) -> (result: TicTacToeResult)
        ensures
            result == self.line_result(),
    {
        let mut k: usize = 0;
        while k < 8
            invariant
                k <= 8,
                first_owner(self.situation@, k as int) is None,
            decreases 8 - k,
        {
            let (a, b, c) = line(k);
            match (self.situation[a].0, self.situation[b].0, self.situation[c].0) {
                (Some(player1), Some(player2), Some(player3)) => {
                    if player1 == player2 && player2 == player3 {
                        proof {
                            lemma_first_owner_stays(self.situation@, k as int + 1, 8);
                        }
                        if player1 == self.player {
                            return TicTacToeResult::Win;
                        } else {
                            return TicTacToeResult::Lose;
                        }
                    }
                },
                _ => {},
            }
            k += 1;
        }
        TicTacToeResult::Unknown
    }

    /// How the game stands for `self.player`: won or lost where a line is
    /// filled, tied on a full board without one, open otherwise.
    pub fn game_result(&self) -> (result: TicTacToeResult)
        ensures
            result == if self.winner() is Some {
                self.line_result()
            } else if self.is_full() {
                TicTacToeResult::Tie
            } else {
                TicTacToeResult::Unknown
            },
    {
        let by_lines = self.check_result();
        if by_lines != TicTacToeResult::Unknown {
            return by_lines;
        }
        let mut pos: usize = 0;
        while pos < 9
            invariant
                pos <= 9,
                self.winner() is None,
                forall|p: int| 0 <= p < pos ==> (#[trigger] self.situation@[p]).0 is Some,
            decreases 9 - pos,
        {
            if self.situation[pos].0.is_none() {
                assert(self.situation@[pos as int].0 is None);
                return TicTacToeResult::Unknown;
            }
            pos += 1;
        }
        TicTacToeResult::Tie
    }

    /// What the moves on the first `n` cells are: each names an empty cell
    /// below `n` and the side to move.
    pub proof fn lemma_moves_upto_members(self, n: int, next_move: TicTacToeMove)
        requires
            0 <= n <= 9,
        ensures
            self.moves_upto(n).contains(next_move) <==> {
                &&& next_move.pos < n
                &&& self.situation@[next_move.pos as int].0 is None
                &&& next_move.player == self.current_move_player
            },
        decreases n,
    {
        if n > 0 {
            self.lemma_moves_upto_members(n - 1, next_move);
            let before = self.moves_upto(n - 1);
            if self.situation@[n - 1].0 is None {
                let last = TicTacToeMove {
                    pos: (n - 1) as usize,
                    player: self.current_move_player,
                };
                let all = before.push(last);
                assert(all[before.len() as int] == last);
                if before.contains(next_move) {
                    let i = choose|i: int| 0 <= i < before.len() && before[i] == next_move;
                    assert(all[i] == next_move);
                }
                if all.contains(next_move) {
                    let i = choose|i: int| 0 <= i < all.len() && all[i] == next_move;
                    if i < before.len() {
                        assert(before[i] == next_move);
                    }
                }
            }
        }
    }

    /// The moves on the first `n` cells come in ascending order of their
    /// cells, all of them below `n`.
    pub proof fn lemma_moves_upto_ascend(self, n: int)
        requires
            0 <= n <= 9,
        ensures
            forall|i: int|
                0 <= i < self.moves_upto(n).len() ==> (#[trigger] self.moves_upto(n)[i]).pos < n,
            forall|i: int, j: int|
                0 <= i < j < self.moves_upto(n).len() ==> (#[trigger] self.moves_upto(n)[i]).pos < (
                #[trigger] self.moves_upto(n)[j]).pos,
        decreases n,
    {
        if n > 0 {
            self.lemma_moves_upto_ascend(n - 1);
            let before = self.moves_upto(n - 1);
            assert forall|i: int| 0 <= i < before.len() implies (#[trigger] self.moves_upto(
                n,
            )[i]) == before[i] by {}
        }
    }

    /// Where the cells below `pos` are taken and `pos` is empty, the first
    /// move on the first `n` cells, `n` beyond `pos`, is the one on `pos`.
    pub proof fn lemma_first_move(self, pos: int, n: int)
        requires
            0 <= pos < n <= 9,
            self.situation@[pos].0 is None,
            forall|p: int| 0 <= p < pos ==> (#[trigger] self.situation@[p]).0 is Some,
        ensures
            self.moves_upto(n).len() > 0,
            self.moves_upto(n)[0] == (TicTacToeMove {
                pos: pos as usize,
                player: self.current_move_player,
            }),
        decreases n,
    {
        if n == pos + 1 {
            lemma_no_move_on_taken_cells(self, pos);
        } else {
            self.lemma_first_move(pos, n - 1);
        }
    }
}

/// Whether a mark may be placed on the cell `next_move` of `cur_situation`:
/// the cell must be empty.
pub fn tic_tac_toe_check_input(cur_situation: &TicTacToeSituation, next_move: usize) -> (checked:
    Result<(), TicTacToeError>)
    requires
        next_move < 9,
    ensures
        checked is Ok <==> cur_situation.situation@[next_move as int].0 is None,
        checked is Err ==> checked == Err::<(), TicTacToeError>(TicTacToeError::IllegalMove),
{
    match cur_situation.situation[next_move].0 {
        None => Ok(()),
        _ => Err(TicTacToeError::IllegalMove),
    }
}

/// Once one of the first `n` lines is filled, looking at more lines changes
/// nothing.
pub proof fn lemma_first_owner_stays(board: Seq<TicTacToeStatus>, n: int, m: int)
    requires
        0 <= n <= m,
        first_owner(board, n) is Some,
    ensures
        first_owner(board, m) == first_owner(board, n),
    decreases m - n,
{
    if n < m {
        lemma_first_owner_stays(board, n, m - 1);
    }
}

/// The cells of the `k`-th line.
fn line(k: usize) -> (cells: (usize, usize, usize))
    requires
        k < 8,
    ensures
        cells.0 < 9,
        cells.1 < 9,
        cells.2 < 9,
        (cells.0 as int, cells.1 as int, cells.2 as int) == line_cells(k as int),
{
    if k == 0 {
        (0, 1, 2)
    } else if k == 1 {
        (3, 4, 5)
    } else if k == 2 {
        (6, 7, 8)
    } else if k == 3 {
        (0, 3, 6)
    } else if k == 4 {
        (1, 4, 7)
    } else if k == 5 {
        (2, 5, 8)
    } else if k == 6 {
        (0, 4, 8)
    } else {
        (2, 4, 6)
    }
}

impl SituationOps for TicTacToeSituation {
    type Move = TicTacToeMove;

    /// No move once a line is filled; otherwise a mark of the side to move
    /// on each empty cell, in ascending order of the cells.
    open spec fn moves(&self) -> Seq<TicTacToeMove> {
        if self.winner() is Some {
            Seq::empty()
        } else {
            self.moves_upto(9)
        }
    }

    /// The board with the mark placed and the other side to move.
    open spec fn after(&self, next_move: TicTacToeMove) -> Self {
        TicTacToeSituation {
            player: self.player,
            current_move_player: self.current_move_player.opponent(),
            situation: vstd::array::spec_array_update(
                self.situation,
                next_move.pos as int,
                TicTacToeStatus(Some(next_move.player)),
            ),
        }
    }

    /// 1 where `self.player` has a line, -1 where the other side has one,
    /// 0 otherwise.
    open spec fn cost(&self) -> int {
        match self.line_result() {
            TicTacToeResult::Win => 1,
            TicTacToeResult::Lose => -1,
            _ => 0,
        }
    }

    /// The legal moves: none once a line is filled, otherwise one per empty
    /// cell.
    fn get_avilable_move(&self) -> (moves: Vec<TicTacToeMove>) {
        let mut next_move: Vec<TicTacToeMove> = Vec::new();
        if self.check_result() != TicTacToeResult::Unknown {
            return next_move;
        }
        let mut pos: usize = 0;
        while pos < 9
            invariant
                pos <= 9,
                next_move@ == self.moves_upto(pos as int),
            decreases 9 - pos,
        {
            if self.situation[pos].0.is_none() {
                next_move.push(TicTacToeMove::new(pos, self.current_move_player));
            }
            pos += 1;
        }
        next_move
    }

    /// Places the mark and passes the turn.
    fn proc_move(&mut self, next_move: &TicTacToeMove) {
        proof {
            self.lemma_moves_upto_members(9, *next_move);
        }
        self.situation[next_move.pos] = TicTacToeStatus(Some(next_move.player));
        self.current_move_player = self.current_move_player.swap();
        assert(self.situation =~= old(self).after(*next_move).situation);
    }

    /// A copy of the board with the mark placed and the turn passed.
    fn with_move(&self, next_move: &TicTacToeMove) -> (next: Self) {
        proof {
            self.lemma_moves_upto_members(9, *next_move);
        }
        let mut new_situation = TicTacToeSituation {
            player: self.player,
            current_move_player: self.current_move_player.swap(),
            situation: self.situation,
        };
        new_situation.situation[next_move.pos] = TicTacToeStatus(Some(next_move.player));
        assert(new_situation.situation =~= self.after(*next_move).situation);
        new_situation
    }

    /// The score of the board for `self.player`.
    fn calc_cost(&self) -> (cost: i32) {
        match self.check_result() {
            TicTacToeResult::Win => 1,
            TicTacToeResult::Lose => -1,
            _ => 0,
        }
    }
}

/// A full board has no legal move.
pub proof fn lemma_full_board_has_no_move(situation: TicTacToeSituation)
    requires
        situation.is_full(),
    ensures
        situation.moves().len() == 0,
{
    lemma_no_move_on_taken_cells(situation, 9);
}

/// No move is enumerated on the first `n` cells where all of them are taken.
proof fn lemma_no_move_on_taken_cells(situation: TicTacToeSituation, n: int)
    requires
        0 <= n <= 9,
        forall|pos: int| 0 <= pos < n ==> (#[trigger] situation.situation@[pos]).0 is Some,
    ensures
        situation.moves_upto(n).len() == 0,
    decreases n,
{
    if n > 0 {
        lemma_no_move_on_taken_cells(situation, n - 1);
        assert(situation.situation@[n - 1].0 is Some);
    }
}

/// An engine whose current board is full selects no move, at any ply
/// limit.
pub proof fn lemma_full_board_selects_nothing(engine: GameTree<TicTacToeSituation>)
    requires
        engine.situation().is_full(),
    ensures
        engine.next_move() is None,
{
    lemma_full_board_has_no_move(engine.situation());
}

/// Every minimax value of a board lies between a loss and a win.
pub proof fn lemma_value_is_bounded(situation: TicTacToeSituation, depth: nat, is_max_layer: bool)
    ensures
        -1 <= value_at(situation, depth, is_max_layer) <= 1,
    decreases depth,
{
    if depth > 0 && situation.moves().len() > 0 {
        let values = successor_values(situation, depth, is_max_layer);
        lemma_choice_exists(is_max_layer, values);
        let chosen = choice(is_max_layer, values);
        lemma_value_is_bounded(
            situation.after(situation.moves()[chosen]),
            (depth - 1) as nat,
            !is_max_layer,
        );
    }
}

/// A mark that fills a line on a board without one makes the side that
/// placed it the winner.
pub proof fn lemma_filling_a_line_wins(situation: TicTacToeSituation, pos: int, k: int)
    requires
        situation.winner() is None,
        0 <= pos < 9,
        situation.completes_line(pos, k),
    ensures
        situation.moves().contains(
            TicTacToeMove { pos: pos as usize, player: situation.current_move_player },
        ),
        situation.after(
            TicTacToeMove { pos: pos as usize, player: situation.current_move_player },
        ).winner() == Some(situation.current_move_player),
{
    let mover = situation.current_move_player;
    let next_move = TicTacToeMove { pos: pos as usize, player: mover };
    situation.lemma_moves_upto_members(9, next_move);
    let before = situation.situation@;
    let board = situation.after(next_move).situation@;
    assert(board == before.update(pos, TicTacToeStatus(Some(mover))));
    reveal_with_fuel(first_owner, 9);
    assert forall|j: int| 0 <= j < 8 implies line_owner(before, j) is None by {}
    assert forall|j: int| 0 <= j < 8 implies (#[trigger] line_owner(board, j)) is None
        || line_owner(board, j) == Some(mover) by {}
    assert(line_owner(board, k) == Some(mover));
}

/// Where the side that owns the search is to move and can fill a line, the
/// board is worth a win at every ply limit of at least 1, and the move that
/// the engine selects leads to a situation worth a win. Where the cell that
/// fills the line is the first empty cell, that is the move selected.
pub proof fn lemma_line_of_two_is_won(engine: GameTree<TicTacToeSituation>, pos: int, k: int)
    requires
        engine.depth() > 0,
        engine.situation().winner() is None,
        engine.situation().current_move_player == engine.situation().player,
        0 <= pos < 9,
        engine.situation().completes_line(pos, k),
    ensures
        value_at(engine.situation(), engine.depth(), true) == 1,
        engine.next_move() matches Some(selected) && value_at(
            engine.situation().after(selected),
            (engine.depth() - 1) as nat,
            false,
        ) == 1,
        (forall|p: int| 0 <= p < pos ==> (#[trigger] engine.situation().situation@[p]).0 is Some)
            ==> engine.next_move() == Some(
            TicTacToeMove { pos: pos as usize, player: engine.situation().player },
        ),
{
    let situation = engine.situation();
    let depth = engine.depth();
    let next_move = TicTacToeMove { pos: pos as usize, player: situation.current_move_player };
    lemma_filling_a_line_wins(situation, pos, k);
    let moves = situation.moves();
    let i = choose|i: int| 0 <= i < moves.len() && moves[i] == next_move;
    let values = successor_values(situation, depth, true);
    let won = situation.after(next_move);
    assert(won.moves().len() == 0);
    assert(values[i] == won.cost());
    assert(values[i] == 1);
    lemma_choice_exists(true, values);
    let chosen = choice(true, values);
    assert(no_worse(true, values[chosen], values[i]));
    lemma_value_is_bounded(situation.after(moves[chosen]), (depth - 1) as nat, false);
    if forall|p: int| 0 <= p < pos ==> (#[trigger] situation.situation@[p]).0 is Some {
        situation.lemma_first_move(pos, 9);
        assert(moves[0] == next_move);
        assert(values[0] == won.cost());
        assert forall|j: int| 0 <= j < values.len() implies no_worse(
            true,
            values[0],
            #[trigger] values[j],
        ) by {
            lemma_value_is_bounded(situation.after(moves[j]), (depth - 1) as nat, false);
        }
        assert(is_choice(true, values, 0));
        lemma_choice_unique(true, values, 0, chosen);
    }
}

} // verus!
