//! The board, the side to move, the rules that decide a game, and the laws they keep.
use vstd::prelude::*;

verus! {

/// Score of a position won by `Mark::Cross`; a win by `Mark::Circle` scores its negation.
pub const WIN_SCORE: i32 = 5000;

/// Starting value of a search maximum, below every reachable score.
pub const NO_SCORE: i32 = -1000000;

/// A player's mark. `Circle` always moves first.
#[derive(PartialEq, Eq, Structural, Copy, Clone, Debug)]
pub enum Mark {
    Circle,
    Cross,
}

/// What a position amounts to.
#[derive(PartialEq, Eq, Structural, Copy, Clone, Debug)]
pub enum Outcome {
    Win(Mark),
    Draw,
    InProgress,
}

/// Recoverable failures of the board operations.
#[derive(PartialEq, Eq, Structural, Copy, Clone, Debug)]
pub enum GameError {
    CellOccupied,
    CellAlreadyEmpty,
    NoLegalMoves,
}

impl Mark {
    pub open spec fn spec_other(self) -> Mark {
        match self {
            Mark::Circle => Mark::Cross,
            Mark::Cross => Mark::Circle,
        }
    }

    /// +1 for the mark whose win scores positive, -1 for the other.
    pub open spec fn spec_sign(self) -> int {
        match self {
            Mark::Circle => -1,
            Mark::Cross => 1,
        }
    }

    /// The mark that moves after this one.
    pub fn other(self) -> (r: Mark)
        ensures
            r == self.spec_other(),
    {
        match self {
            Mark::Circle => Mark::Cross,
            Mark::Cross => Mark::Circle,
        }
    }

    /// The sign that turns a fixed-perspective score into one for this mark.
    pub fn sign(self) -> (r: i32)
        ensures
            r == self.spec_sign(),
    {
        match self {
            Mark::Circle => -1,
            Mark::Cross => 1,
        }
    }
}

// ---------------------------------------------------------------------------
// The board as a sequence of nine cells, index = row * 3 + column.

/// 1 when cell `i` holds `m`, else 0.
pub open spec fn holds(b: Seq<Option<Mark>>, i: int, m: Mark) -> int {
    if b[i] == Some(m) {
        1
    } else {
        0
    }
}

/// How many cells hold `m`.
pub open spec fn mark_count(b: Seq<Option<Mark>>, m: Mark) -> int {
    holds(b, 0, m) + holds(b, 1, m) + holds(b, 2, m) + holds(b, 3, m) + holds(b, 4, m) + holds(
        b,
        5,
        m,
    ) + holds(b, 6, m) + holds(b, 7, m) + holds(b, 8, m)
}

/// 1 when cell `i` is empty, else 0.
pub open spec fn vacant(b: Seq<Option<Mark>>, i: int) -> nat {
    if b[i] is None {
        1
    } else {
        0
    }
}

/// How many cells are empty.
pub open spec fn empty_count(b: Seq<Option<Mark>>) -> nat {
    vacant(b, 0) + vacant(b, 1) + vacant(b, 2) + vacant(b, 3) + vacant(b, 4) + vacant(b, 5)
        + vacant(b, 6) + vacant(b, 7) + vacant(b, 8)
}

/// Some cell is empty.
pub open spec fn has_empty(b: Seq<Option<Mark>>) -> bool {
    exists|i: int| 0 <= i < 9 && b[i] is None
}

/// The cells of winning line `n`: rows, then columns, then the two diagonals.
pub open spec fn line_cells(n: int) -> (int, int, int) {
    if n == 0 {
        (0, 1, 2)
    } else if n == 1 {
        (3, 4, 5)
    } else if n == 2 {
        (6, 7, 8)
    } else if n == 3 {
        (0, 3, 6)
    } else if n == 4 {
        (1, 4, 7)
    } else if n == 5 {
        (2, 5, 8)
    } else if n == 6 {
        (0, 4, 8)
    } else {
        (2, 4, 6)
    }
}

/// All three of cells `i`, `j`, `k` hold `m`.
pub open spec fn owned_by(b: Seq<Option<Mark>>, i: int, j: int, k: int, m: Mark) -> bool {
    b[i] == Some(m) && b[j] == Some(m) && b[k] == Some(m)
}

/// The mark that owns line `n` entirely, if one does (`Circle` is looked at first).
pub open spec fn line_owner(b: Seq<Option<Mark>>, n: int) -> Option<Mark> {
    let (i, j, k) = line_cells(n);
    if owned_by(b, i, j, k, Mark::Circle) {
        Some(Mark::Circle)
    } else if owned_by(b, i, j, k, Mark::Cross) {
        Some(Mark::Cross)
    } else {
        None
    }
}

/// The owner of the first owned line among lines `n..8`.
pub open spec fn winner_from(b: Seq<Option<Mark>>, n: int) -> Option<Mark>
    decreases 8 - n,
{
    if n >= 8 {
        None
    } else if line_owner(b, n) is Some {
        line_owner(b, n)
    } else {
        winner_from(b, n + 1)
    }
}

/// The owner of the first owned line, scanning the lines in order.
pub open spec fn winner(b: Seq<Option<Mark>>) -> Option<Mark> {
    winner_from(b, 0)
}

/// The outcome of a board: a win, else in progress while a cell is empty, else a draw.
pub open spec fn outcome_of(b: Seq<Option<Mark>>) -> Outcome {
    match winner(b) {
        Some(m) => Outcome::Win(m),
        None => if has_empty(b) {
            Outcome::InProgress
        } else {
            Outcome::Draw
        },
    }
}

/// Score from the fixed perspective: positive for a `Cross` win, negative for `Circle`.
pub open spec fn score_of(b: Seq<Option<Mark>>) -> int {
    match winner(b) {
        Some(Mark::Circle) => -(WIN_SCORE as int),
        Some(Mark::Cross) => WIN_SCORE as int,
        None => 0,
    }
}

/// The empty cells among `0..n`, ascending.
pub open spec fn legal_upto(b: Seq<Option<Mark>>, n: int) -> Seq<usize>
    decreases n,
{
    if n <= 0 {
        Seq::empty()
    } else if b[n - 1] is None {
        legal_upto(b, n - 1).push((n - 1) as usize)
    } else {
        legal_upto(b, n - 1)
    }
}

/// The empty cells of the board, ascending.
pub open spec fn legal_moves(b: Seq<Option<Mark>>) -> Seq<usize> {
    legal_upto(b, 9)
}

/// A game as mathematics: the nine cells and the side to move.
pub struct GameView {
    pub board: Seq<Option<Mark>>,
    pub turn: Mark,
}

impl GameView {
    /// The all-empty board with `Circle` to move.
    pub open spec fn initial() -> GameView {
        GameView { board: Seq::new(9, |_i: int| None), turn: Mark::Circle }
    }

    /// Cell `c` marked by the side to move, and the turn passed on.
    pub open spec fn placed(self, c: int) -> GameView {
        GameView { board: self.board.update(c, Some(self.turn)), turn: self.turn.spec_other() }
    }

    /// Cell `c` emptied, and the turn passed back.
    pub open spec fn cleared(self, c: int) -> GameView {
        GameView { board: self.board.update(c, None), turn: self.turn.spec_other() }
    }

    /// The state and result of a placement on `c`.
    pub open spec fn place_result(self, c: int) -> (GameView, Result<(), GameError>) {
        if self.board[c] is None {
            (self.placed(c), Ok(()))
        } else {
            (self, Err(GameError::CellOccupied))
        }
    }

    /// The state and result of a retraction of `c`.
    pub open spec fn undo_result(self, c: int) -> (GameView, Result<(), GameError>) {
        if self.board[c] is Some {
            (self.cleared(c), Ok(()))
        } else {
            (self, Err(GameError::CellAlreadyEmpty))
        }
    }

    /// Nine cells; `Circle` has as many marks as `Cross` or one more, and is to
    /// move exactly when the counts are equal.
    pub open spec fn balanced(self) -> bool {
        let a = mark_count(self.board, Mark::Circle);
        let b = mark_count(self.board, Mark::Cross);
        &&& self.board.len() == 9
        &&& (a == b || a == b + 1)
        &&& (self.turn == Mark::Circle <==> a == b)
    }

    pub open spec fn outcome(self) -> Outcome {
        outcome_of(self.board)
    }
}

/// Proves that the empty cells listed by `legal_upto(b, n)` are below `n`, empty and
/// ascending, and that there are none exactly when no cell below `n` is empty.
pub proof fn lemma_legal_upto(b: Seq<Option<Mark>>, n: int)
    requires
        0 <= n <= 9,
        b.len() == 9,
    ensures
        legal_upto(b, n).len() <= n,
        forall|j: int|
            0 <= j < legal_upto(b, n).len() ==> legal_upto(b, n)[j] < n && b[legal_upto(
                b,
                n,
            )[j] as int] is None,
        forall|j: int, k: int|
            0 <= j < k < legal_upto(b, n).len() ==> legal_upto(b, n)[j] < legal_upto(b, n)[k],
        legal_upto(b, n).len() == 0 <==> forall|i: int| 0 <= i < n ==> b[i] is Some,
    decreases n,
{
    if n > 0 {
        lemma_legal_upto(b, n - 1);
    }
}

/// Proves how the mark counts change when the side to move marks the empty cell `c`.
pub proof fn lemma_counts_after_place(g: GameView, c: int)
    requires
        g.board.len() == 9,
        0 <= c < 9,
        g.board[c] is None,
    ensures
        mark_count(g.placed(c).board, g.turn) == mark_count(g.board, g.turn) + 1,
        mark_count(g.placed(c).board, g.turn.spec_other()) == mark_count(
            g.board,
            g.turn.spec_other(),
        ),
        empty_count(g.placed(c).board) + 1 == empty_count(g.board),
{
    let b = g.board;
    let nb = g.placed(c).board;
    assert forall|i: int| 0 <= i < 9 && i != c implies nb[i] == b[i] by {}
    assert(nb[c] == Some(g.turn));
}

/// Balance is kept by every placement: when `Circle` has as many marks as `Cross`
/// or one more, and moves exactly when the counts are equal, the same holds after
/// a placement on any cell, whether or not it succeeds.
pub proof fn lemma_place_keeps_balance(g: GameView, c: int)
    requires
        g.balanced(),
        0 <= c < 9,
    ensures
        GameView::initial().balanced(),
        g.place_result(c).0.balanced(),
{
    assert(GameView::initial().board[0] is None);
    if g.board[c] is None {
        lemma_counts_after_place(g, c);
    }
}

/// The state reached from the initial game by placements on `cells`, in order;
/// a placement on an occupied cell changes nothing.
pub open spec fn play(cells: Seq<int>) -> GameView
    decreases cells.len(),
{
    if cells.len() == 0 {
        GameView::initial()
    } else {
        play(cells.drop_last()).place_result(cells.last()).0
    }
}

/// Every state reachable from the initial game by placements is balanced:
/// `Circle` has as many marks as `Cross` or one more, and is to move exactly
/// when the counts are equal.
pub proof fn lemma_reachable_balanced(cells: Seq<int>)
    requires
        forall|i: int| 0 <= i < cells.len() ==> 0 <= #[trigger] cells[i] < 9,
    ensures
        play(cells).balanced(),
    decreases cells.len(),
{
    if cells.len() == 0 {
        lemma_place_keeps_balance(GameView::initial(), 0);
    } else {
        let prefix = cells.drop_last();
        assert forall|i: int| 0 <= i < prefix.len() implies 0 <= #[trigger] prefix[i] < 9 by {
            assert(prefix[i] == cells[i]);
        }
        lemma_reachable_balanced(prefix);
        lemma_place_keeps_balance(play(prefix), cells.last());
    }
}

/// A successful placement followed by a retraction of the same cell gives back
/// the exact prior state, side to move included.
pub proof fn lemma_place_then_undo(g: GameView, c: int)
    requires
        g.board.len() == 9,
        0 <= c < 9,
        g.board[c] is None,
    ensures
        g.place_result(c).1 == Ok::<(), GameError>(()),
        g.place_result(c).0.undo_result(c) == (g, Ok::<(), GameError>(())),
{
    assert(g.placed(c).cleared(c).board =~= g.board);
}

/// Some winning line has all three cells held by one mark.
pub open spec fn some_line_won(b: Seq<Option<Mark>>) -> bool {
    exists|n: int, m: Mark|
        0 <= n < 8 && #[trigger] owned_by(b, line_cells(n).0, line_cells(n).1, line_cells(n).2, m)
}

/// Proves that no line among `n..8` is owned exactly when the scan from `n` finds no winner.
proof fn lemma_winner_from(b: Seq<Option<Mark>>, n: int)
    requires
        0 <= n <= 8,
    ensures
        winner_from(b, n) is None <==> forall|k: int| n <= k < 8 ==> line_owner(b, k) is None,
    decreases 8 - n,
{
    if n < 8 {
        lemma_winner_from(b, n + 1);
    }
}

/// The outcome is `InProgress` exactly when no winning line is held entirely by
/// one mark and some cell is empty, and `Draw` exactly when no such line exists
/// and no cell is empty.
pub proof fn lemma_outcome_cases(g: GameView)
    ensures
        g.outcome() == Outcome::InProgress <==> !some_line_won(g.board) && has_empty(g.board),
        g.outcome() == Outcome::Draw <==> !some_line_won(g.board) && !has_empty(g.board),
{
    let b = g.board;
    lemma_winner_from(b, 0);
    if some_line_won(b) {
        let (n, m) = choose|n: int, m: Mark|
            0 <= n < 8 && #[trigger] owned_by(b, line_cells(n).0, line_cells(n).1, line_cells(n).2, m);
        assert(line_owner(b, n) is Some);
    }
    if winner(b) is Some {
        let n = choose|n: int| 0 <= n < 8 && line_owner(b, n) is Some;
        let m = line_owner(b, n)->0;
        assert(owned_by(b, line_cells(n).0, line_cells(n).1, line_cells(n).2, m));
    }
}

/// A placement on an occupied cell fails with `CellOccupied` and leaves the
/// legal moves as they were.
pub proof fn lemma_occupied_place(g: GameView, c: int)
    requires
        0 <= c < 9,
        g.board[c] is Some,
    ensures
        g.place_result(c).1 == Err::<(), GameError>(GameError::CellOccupied),
        legal_moves(g.place_result(c).0.board) == legal_moves(g.board),
{
}

/// A game: the nine cells, row by row, and the side to move.
#[derive(Clone, Copy, Debug)]
pub struct Game {
    pub board: [Option<Mark>; 9],
    pub turn: Mark,
}

impl View for Game {
    type V = GameView;

    open spec fn view(&self) -> GameView {
        GameView { board: self.board@, turn: self.turn }
    }
}

impl Default for Game {
    fn default() -> (r: Self)
        ensures
            r@ == GameView::initial(),
    {
        Game::new()
    }
}

impl Game {
    /// A fresh game: all cells empty, `Circle` to move.
    pub fn new() -> (r: Game)
        ensures
            r@ == GameView::initial(),
            r@.balanced(),
    {
        let g = Game { board: [None, None, None, None, None, None, None, None, None], turn: Mark::Circle };
        assert(g@.board =~= GameView::initial().board);
        g
    }

    /// Returns the game to its initial state: all cells empty, `Circle` to move.
    pub fn clear_board(&mut self)
        ensures
            final(self)@ == GameView::initial(),
            final(self)@.balanced(),
    {
        *self = Game::new();
    }

    /// Marks cell `cord` for the side to move and passes the turn; on an occupied
    /// cell nothing changes and the result is `CellOccupied`.
    pub fn set_tile(&mut self, cord: usize) -> (r: Result<(), GameError>)
        requires
            cord < 9,
        ensures
            final(self)@ == old(self)@.place_result(cord as int).0,
            r == old(self)@.place_result(cord as int).1,
            old(self)@.balanced() ==> final(self)@.balanced(),
    {
        match self.board[cord] {
            None => {
                let ghost g0 = self@;
                proof {
                    if g0.balanced() {
                        lemma_place_keeps_balance(g0, cord as int);
                    }
                }
                self.board[cord] = Some(self.turn);
                self.turn = self.turn.other();
                assert(self@.board =~= g0.placed(cord as int).board);
                Ok(())
            },
            Some(_) => Err(GameError::CellOccupied),
        }
    }

    /// Empties cell `cord` and passes the turn back; on an empty cell nothing
    /// changes and the result is `CellAlreadyEmpty`.
    pub fn takeback(&mut self, cord: usize) -> (r: Result<(), GameError>)
        requires
            cord < 9,
        ensures
            final(self)@ == old(self)@.undo_result(cord as int).0,
            r == old(self)@.undo_result(cord as int).1,
    {
        match self.board[cord] {
            Some(_) => {
                let ghost g0 = self@;
                self.board[cord] = None;
                self.turn = self.turn.other();
                assert(self@.board =~= g0.cleared(cord as int).board);
                Ok(())
            },
            None => Err(GameError::CellAlreadyEmpty),
        }
    }

    /// The mark that owns all of cells `i`, `j`, `k`, if one does.
    fn line_owner(&self, i: usize, j: usize, k: usize) -> (r: Option<Mark>)
        requires
            i < 9,
            j < 9,
            k < 9,
        ensures
            r == (if owned_by(self@.board, i as int, j as int, k as int, Mark::Circle) {
                Some(Mark::Circle)
            } else if owned_by(self@.board, i as int, j as int, k as int, Mark::Cross) {
                Some(Mark::Cross)
            } else {
                None
            }),
    {
        match (self.board[i], self.board[j], self.board[k]) {
            (Some(Mark::Circle), Some(Mark::Circle), Some(Mark::Circle)) => Some(Mark::Circle),
            (Some(Mark::Cross), Some(Mark::Cross), Some(Mark::Cross)) => Some(Mark::Cross),
            _ => None,
        }
    }

    /// The winner, if a line is owned: the owner of the first owned line, scanning
    /// rows, columns, then diagonals.
    pub fn is_game_ended(&self) -> (r: Option<Mark>)
        ensures
            r == winner(self@.board),
    {
        let mut n: usize = 0;
        while n < 8
            invariant
                0 <= n <= 8,
                winner(self@.board) == winner_from(self@.board, n as int),
            decreases 8 - n,
        {
            let (i, j, k) = line_at(n);
            let owner = self.line_owner(i, j, k);
            if owner.is_some() {
                return owner;
            }
            n = n + 1;
        }
        None
    }

    /// Some cell is empty.
    fn any_empty(&self) -> (r: bool)
        ensures
            r == has_empty(self@.board),
    {
        let mut i: usize = 0;
        while i < 9
            invariant
                0 <= i <= 9,
                forall|j: int| 0 <= j < i ==> self@.board[j] is Some,
            decreases 9 - i,
        {
            if self.board[i].is_none() {
                return true;
            }
            i = i + 1;
        }
        false
    }

    /// The outcome: a win when a line is owned, else in progress while a cell is
    /// empty, else a draw.
    pub fn outcome(&self) -> (r: Outcome)
        ensures
            r == self@.outcome(),
    {
        match self.is_game_ended() {
            Some(m) => Outcome::Win(m),
            None => if self.any_empty() {
                Outcome::InProgress
            } else {
                Outcome::Draw
            },
        }
    }

    /// The empty cells, ascending by index.
    pub fn get_legal_moves(&self) -> (r: Vec<usize>)
        ensures
            r@ == legal_moves(self@.board),
    {
        let mut moves: Vec<usize> = Vec::new();
        let mut i: usize = 0;
        while i < 9
            invariant
                0 <= i <= 9,
                moves@ == legal_upto(self@.board, i as int),
            decreases 9 - i,
        {
            if self.board[i].is_none() {
                moves.push(i);
            }
            i = i + 1;
        }
        moves
    }
}

/// The cells of winning line `n`.
fn line_at(n: usize) -> (r: (usize, usize, usize))
    requires
        n < 8,
    ensures
        r.0 as int == line_cells(n as int).0,
        r.1 as int == line_cells(n as int).1,
        r.2 as int == line_cells(n as int).2,
{
    if n == 0 {
        (0, 1, 2)
    } else if n == 1 {
        (3, 4, 5)
    } else if n == 2 {
        (6, 7, 8)
    } else if n == 3 {
        (0, 3, 6)
    } else if n == 4 {
        (1, 4, 7)
    } else if n == 5 {
        (2, 5, 8)
    } else if n == 6 {
        (0, 4, 8)
    } else {
        (2, 4, 6)
    }
}
} // verus!
