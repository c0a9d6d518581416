//! A game session: the board, the moves left, the mode, and where play stands.
use crate::board::{all_match_origin, color_fill, shape_fill, valid_cells, Board};
use crate::tile::Tile;
use crate::input::{accepts, color_choice, shape_choice, InputOptions, Mode};
use vstd::prelude::*;

verus! {

/// Number of moves a game starts with.
pub const MOVE_LIMIT: u16 = 20;

/// Where a game stands.
#[derive(Debug, Clone, Copy, PartialEq, Eq, Structural)]
pub enum GameState {
    Playing,
    Won,
    Lost,
    Quit,
}

/// A game seen as values.
pub struct GameView {
    pub cells: Seq<Tile>,
    pub moves_left: int,
    pub mode: Mode,
    pub state: GameState,
}

/// The grid after the move `choice` in `mode`: a colour move in colour
/// mode, a shape move otherwise, both at the origin.
pub open spec fn moved(cells: Seq<Tile>, mode: Mode, choice: InputOptions) -> Seq<Tile> {
    if mode == Mode::Color {
        color_fill(cells, 0, color_choice(choice).unwrap())
    } else {
        shape_fill(cells, 0, shape_choice(choice).unwrap())
    }
}

/// The game after one turn with `choice`. A finished game stays as it is.
/// Quitting ends it. Any other choice makes its move, uses up one move, and
/// then the game is won if every cell holds the origin's tile, else lost if
/// no move is left.
pub open spec fn next(g: GameView, choice: InputOptions) -> GameView {
    if g.state != GameState::Playing {
        g
    } else if choice == InputOptions::Quit {
        GameView { state: GameState::Quit, ..g }
    } else {
        let cells = moved(g.cells, g.mode, choice);
        let moves_left = g.moves_left - 1;
        GameView {
            cells,
            moves_left,
            mode: g.mode,
            state: if all_match_origin(cells) {
                GameState::Won
            } else if moves_left == 0 {
                GameState::Lost
            } else {
                GameState::Playing
            },
        }
    }
}

/// The game after each turn of `choices`, in order.
pub open spec fn run(g: GameView, choices: Seq<InputOptions>) -> GameView
    decreases choices.len(),
{
    if choices.len() == 0 {
        g
    } else {
        next(run(g, choices.drop_last()), choices.last())
    }
}

/// A game session.
pub struct Game {
    board: Board,
    moves_left: u16,
    mode: Mode,
    state: GameState,
}

impl View for Game {
    type V = GameView;

    closed spec fn view(&self) -> GameView {
        GameView {
            cells: self.board@,
            moves_left: self.moves_left as int,
            mode: self.mode,
            state: self.state,
        }
    }
}

impl Game {
    /// The board is whole, the moves left are within the budget, and a game
    /// in play has a move left.
    pub open spec fn wf(&self) -> bool {
        &&& valid_cells(self@.cells)
        &&& 0 <= self@.moves_left <= 20
        &&& self@.state == GameState::Playing ==> self@.moves_left > 0
    }

    /// A game in `mode` on a freshly generated board, with the full budget.
    pub fn new(mode: Mode) -> (r: Game)
        ensures
            r.wf(),
            r@.moves_left == 20,
            r@.mode == mode,
            r@.state == GameState::Playing,
    {
        Game { board: Board::new(), moves_left: MOVE_LIMIT, mode, state: GameState::Playing }
    }

    /// A game in `mode` on `board`, with the full budget.
    pub fn with_board(board: Board, mode: Mode) -> (r: Game)
        requires
            board.wf(),
        ensures
            r.wf(),
            r@.cells == board@,
            r@.moves_left == 20,
            r@.mode == mode,
            r@.state == GameState::Playing,
    {
        Game { board, moves_left: MOVE_LIMIT, mode, state: GameState::Playing }
    }

    /// Plays one turn (see `next`) and returns where the game then stands.
    pub fn play_turn(&mut self, choice: InputOptions) -> (r: GameState)
        requires
            old(self).wf(),
            accepts(old(self)@.mode, choice),
        ensures
            final(self).wf(),
            final(self)@ == next(old(self)@, choice),
            r == final(self)@.state,
    {
        if self.state != GameState::Playing {
            return self.state;
        }
        if choice == InputOptions::Quit {
            self.state = GameState::Quit;
            return self.state;
        }
        match self.mode {
            Mode::Color => {
                let c = choice.get_color().unwrap();
                self.board.change_tile_by_color(0, 0, c, None);
            },
            _ => {
                let s = choice.get_shape().unwrap();
                self.board.change_tile_by_shape(0, 0, s, None);
            },
        }
        self.moves_left = self.moves_left - 1;
        self.state = if self.board.is_won() {
            GameState::Won
        } else if self.moves_left == 0 {
            GameState::Lost
        } else {
            GameState::Playing
        };
        self.state
    }

    /// The board.
    pub fn board(&self) -> (r: &Board)
        ensures
            r@ == self@.cells,
    {
        &self.board
    }

    /// The moves left.
    pub fn moves_left(&self) -> (r: u16)
        ensures
            r as int == self@.moves_left,
    {
        self.moves_left
    }

    /// The mode.
    pub fn mode(&self) -> (r: Mode)
        ensures
            r == self@.mode,
    {
        self.mode
    }

    /// Where the game stands.
    pub fn state(&self) -> (r: GameState)
        ensures
            r == self@.state,
    {
        self.state
    }
}

proof fn lemma_turns_count_down(g: GameView, choices: Seq<InputOptions>, k: int)
    requires
        g.state == GameState::Playing,
        g.moves_left == 20,
        choices.len() == 20,
        0 <= k <= 20,
        forall|j: int| 0 <= j < 20 ==> choices[j] != InputOptions::Quit,
        forall|j: int| 1 <= j <= 20 ==> !all_match_origin(#[trigger] run(g, choices.take(j)).cells),
    ensures
        run(g, choices.take(k)).moves_left == 20 - k,
        run(g, choices.take(k)).state == if k < 20 {
            GameState::Playing
        } else {
            GameState::Lost
        },
    decreases k,
{
    if k == 0 {
        assert(choices.take(0) =~= Seq::<InputOptions>::empty());
    } else {
        lemma_turns_count_down(g, choices, k - 1);
        assert(choices.take(k).drop_last() =~= choices.take(k - 1));
        assert(choices.take(k).last() == choices[k - 1]);
        assert(!all_match_origin(run(g, choices.take(k)).cells));
    }
}

/// Twenty turns from a fresh budget, none of which quits and after none of
/// which the board is won, leave the game lost.
pub proof fn law_budget_runs_out(g: GameView, choices: Seq<InputOptions>)
    requires
        g.state == GameState::Playing,
        g.moves_left == 20,
        choices.len() == 20,
        forall|j: int| 0 <= j < 20 ==> choices[j] != InputOptions::Quit,
        forall|j: int| 1 <= j <= 20 ==> !all_match_origin(#[trigger] run(g, choices.take(j)).cells),
    ensures
        run(g, choices).state == GameState::Lost,
        run(g, choices).moves_left == 0,
{
    lemma_turns_count_down(g, choices, 20);
    assert(choices.take(20) =~= choices);
}

/// A move that wins with the last move left wins the game: the win is
/// checked before the budget.
pub proof fn law_win_on_last_move(g: GameView, choice: InputOptions)
    requires
        g.state == GameState::Playing,
        g.moves_left == 1,
        choice != InputOptions::Quit,
        all_match_origin(moved(g.cells, g.mode, choice)),
    ensures
        next(g, choice).state == GameState::Won,
        next(g, choice).moves_left == 0,
{
}

} // verus!
