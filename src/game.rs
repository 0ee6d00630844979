//! The board, the two sides, and the state of a game between turns.
use vstd::prelude::*;

use crate::actions::{cell_at, check_win, count_free, select_position, win_data_of};
use crate::codes::ResultCode;
use crate::computer::{choice, make_move};
use crate::AppResult;

verus! {

/// A 3x3 grid; a cell holds 0 when free, 1 for X and 2 for O.
pub type GameMatrix = [[i32; 3]; 3];

/// The winning side, if any, and the coordinates of its line (empty when none).
pub type WinData = (Option<Player>, Vec<(usize, usize)>);

/// The nine cells of a grid in row-major order.
pub open spec fn cells(gm: GameMatrix) -> Seq<i32> {
    Seq::new(9, |k: int| gm[k / 3][k % 3])
}

/// A cell that holds neither X nor O can be played.
pub open spec fn is_free(v: i32) -> bool {
    v != 1 && v != 2
}

/// Every cell is free (0), X (1) or O (2).
pub open spec fn well_formed(s: Seq<i32>) -> bool {
    &&& s.len() == 9
    &&& forall|k: int| 0 <= k < 9 ==> #[trigger] s[k] == 0 || s[k] == 1 || s[k] == 2
}

/// The empty board.
pub open spec fn empty_board() -> Seq<i32> {
    Seq::new(9, |k: int| 0i32)
}

/// Writes `v` into cell (r, c) of a grid.
pub fn put(gm: &mut GameMatrix, r: usize, c: usize, v: i32)
    requires
        r < 3,
        c < 3,
    ensures
        cells(*final(gm)) == cells(*old(gm)).update(3 * r + c, v),
{
    gm[r][c] = v;
    assert(cells(*gm) =~= cells(*old(gm)).update(3 * r + c, v));
}

#[derive(Debug, Clone, Copy, PartialEq, Eq, Structural)]
pub enum Player {
    X,
    O,
}

/// The side whose mark a cell value is.
pub open spec fn player_of(v: i32) -> Option<Player> {
    if v == 1 {
        Some(Player::X)
    } else if v == 2 {
        Some(Player::O)
    } else {
        None
    }
}

impl Player {
    /// The cell value of this side's mark.
    pub open spec fn code(self) -> i32 {
        match self {
            Player::X => 1,
            Player::O => 2,
        }
    }

    /// The opposing side.
    pub open spec fn other(self) -> Player {
        match self {
            Player::X => Player::O,
            Player::O => Player::X,
        }
    }

    pub fn as_i32(&self) -> (r: i32)
        ensures
            r == self.code(),
    {
        match self {
            Player::X => 1,
            Player::O => 2,
        }
    }

    pub fn from_i32(value: i32) -> (r: Option<Self>)
        ensures
            r == player_of(value),
    {
        if value == 1 {
            Some(Player::X)
        } else if value == 2 {
            Some(Player::O)
        } else {
            None
        }
    }

    pub fn invert(&self) -> (r: Self)
        ensures
            r == self.other(),
    {
        match self {
            Player::X => Player::O,
            Player::O => Player::X,
        }
    }
}

/// The board of a game in progress.
pub struct GameMatrixWrapper(pub GameMatrix);

impl View for GameMatrixWrapper {
    type V = Seq<i32>;

    open spec fn view(&self) -> Seq<i32> {
        cells(self.0)
    }
}

impl GameMatrixWrapper {
    pub fn value(&self) -> (r: GameMatrix)
        ensures
            r == self.0,
    {
        self.0
    }

    /// Writes a side's mark into a cell, whatever the cell held.
    pub fn set_position(&mut self, pos: (usize, usize), value: Player)
        requires
            pos.0 < 3,
            pos.1 < 3,
        ensures
            final(self)@ == old(self)@.update(3 * pos.0 + pos.1, value.code()),
    {
        let v = value.as_i32();
        put(&mut self.0, pos.0, pos.1, v);
    }
}

impl Default for GameMatrixWrapper {
    fn default() -> (r: Self)
        ensures
            r@ == empty_board(),
    {
        let r = GameMatrixWrapper([[0i32; 3]; 3]);
        assert(r@ =~= empty_board());
        r
    }
}

/// Whether every cell of the grid is free (0), X (1) or O (2).
pub fn is_well_formed(gm: &GameMatrix) -> (r: bool)
    ensures
        r == well_formed(cells(*gm)),
{
    let mut k: usize = 0;
    while k < 9
        invariant
            k <= 9,
            forall|j: int| 0 <= j < k ==> #[trigger] cells(*gm)[j] == 0 || cells(*gm)[j] == 1 || cells(*gm)[j] == 2,
        decreases 9 - k,
    {
        let v = gm[k / 3][k % 3];
        if v != 0 && v != 1 && v != 2 {
            assert(cells(*gm)[k as int] == v);
            return false;
        }
        k = k + 1;
    }
    true
}

/// What a turn asks for next.
#[derive(Debug, Clone, Copy, PartialEq, Eq, Structural)]
pub enum TurnStep {
    /// No cell is free: the game is over.
    Finished,
    /// The side to move is played by a person, who names a cell.
    AskHuman,
    /// The side to move is played by the computer.
    Computer,
}

/// The state of a game between moves: the side to move, whether the game is
/// over, and the last result of win detection.
pub struct PlayerTurn {
    pub player: Player,
    pub game_complete: bool,
    pub win_data: WinData,
}

impl PlayerTurn {
    /// `self` records what win detection reports on board `s`, and is
    /// complete once a side has won (or it already was).
    pub open spec fn judged(self, before: PlayerTurn, s: Seq<i32>) -> bool {
        &&& self.player == before.player
        &&& self.win_data.0 == win_data_of(s).0
        &&& self.win_data.1@ == win_data_of(s).1
        &&& self.game_complete == (before.game_complete || win_data_of(s).0.is_some())
    }

    pub fn change_turns(&mut self)
        ensures
            final(self).player == old(self).player.other(),
            final(self).game_complete == old(self).game_complete,
            final(self).win_data == old(self).win_data,
    {
        match self.player {
            Player::X => {
                self.player = Player::O;
            },
            Player::O => {
                self.player = Player::X;
            },
        }
    }

    /// Runs win detection on the board and records its result.
    pub fn check_winner(&mut self, game_matrix: &mut GameMatrixWrapper)
        ensures
            final(game_matrix)@ == old(game_matrix)@,
            final(self).judged(*old(self), old(game_matrix)@),
    {
        let res = check_win(game_matrix);
        match res {
            Ok(data) => {
                if data.0.is_some() {
                    self.game_complete = true;
                }
                self.win_data = data;
            },
            Err(_) => {},
        }
    }

    /// Decides what the turn needs: the game ends when no cell is free;
    /// otherwise a person moves in a two-player game or when the side to move
    /// is theirs, and the computer moves else.
    pub fn begin_turn(
        &mut self,
        game_matrix: &GameMatrixWrapper,
        human: Option<Player>,
        multi_player: bool,
    ) -> (r: TurnStep)
        ensures
            final(self).player == old(self).player,
            final(self).win_data == old(self).win_data,
            count_free(game_matrix@) == 0 ==> r == TurnStep::Finished && final(self).game_complete,
            count_free(game_matrix@) > 0 ==> final(self).game_complete == old(self).game_complete,
            count_free(game_matrix@) > 0 && (multi_player || human == Some(old(self).player))
                ==> r == TurnStep::AskHuman,
            count_free(game_matrix@) > 0 && !(multi_player || human == Some(old(self).player))
                ==> r == TurnStep::Computer,
    {
        let available = crate::actions::get_selectable(&game_matrix.0);
        if available == 0 {
            self.game_complete = true;
            return TurnStep::Finished;
        }
        let is_human = match human {
            Some(p) => p == self.player,
            None => false,
        };
        if multi_player || is_human {
            TurnStep::AskHuman
        } else {
            TurnStep::Computer
        }
    }

    /// Plays the cell a person named by its selectable number, then runs win
    /// detection. A number outside 1 to the count of free cells is refused
    /// and the board is left as it was.
    pub fn play_human(&mut self, game_matrix: &mut GameMatrixWrapper, position: i32) -> (r:
        AppResult<()>)
        ensures
            r.is_ok() <==> 1 <= position <= count_free(old(game_matrix)@),
            r.is_ok() ==> final(game_matrix)@ == old(game_matrix)@.update(
                cell_at(old(game_matrix)@, position as int),
                old(self).player.code(),
            ),
            r matches Err(e) ==> e.code == ResultCode::InvalidArgs && final(game_matrix)@ == old(
                game_matrix,
            )@,
            final(self).judged(*old(self), final(game_matrix)@),
    {
        let pos: u16 = if 1 <= position && position <= 9 {
            position as u16
        } else {
            0
        };
        proof {
            crate::actions::lemma_count_bound(game_matrix@);
        }
        let res = select_position(game_matrix, pos, self.player);
        self.check_winner(game_matrix);
        res
    }

    /// Plays the computer's move for the side to move, then runs win
    /// detection.
    pub fn play_computer(&mut self, game_matrix: &mut GameMatrixWrapper, difficulty: u8)
        requires
            well_formed(old(game_matrix)@),
            count_free(old(game_matrix)@) > 0,
        ensures
            final(game_matrix)@ == old(game_matrix)@.update(
                choice(old(game_matrix)@, old(self).player, difficulty),
                old(self).player.code(),
            ),
            final(self).judged(*old(self), final(game_matrix)@),
    {
        make_move(game_matrix, self.player, difficulty);
        self.check_winner(game_matrix);
    }

    /// Settles a turn: after a move the other side is to play; a refused
    /// move leaves the same side to play again; a cancelled prompt ends the
    /// game with that error. Otherwise returns whether the game is over.
    pub fn settle(&mut self, res: AppResult<()>) -> (r: AppResult<bool>)
        ensures
            final(self).game_complete == old(self).game_complete,
            final(self).win_data == old(self).win_data,
            res.is_ok() ==> final(self).player == old(self).player.other() && r == Ok::<
                bool,
                crate::Failure,
            >(old(self).game_complete),
            res.is_err() ==> final(self).player == old(self).player,
            res matches Err(e) ==> (e.code == ResultCode::CancelOperation <==> r.is_err()),
            res matches Err(e) && e.code != ResultCode::CancelOperation ==> r == Ok::<
                bool,
                crate::Failure,
            >(old(self).game_complete),
            r matches Err(f) ==> res matches Err(e) && f == e,
    {
        match res {
            Ok(()) => {
                self.change_turns();
                Ok(self.game_complete)
            },
            Err(e) => {
                if e.code == ResultCode::CancelOperation {
                    Err(e)
                } else {
                    Ok(self.game_complete)
                }
            },
        }
    }
}

impl Default for PlayerTurn {
    fn default() -> (r: Self)
        ensures
            r.player == Player::X,
            !r.game_complete,
            r.win_data.0.is_none(),
            r.win_data.1@.len() == 0,
    {
        PlayerTurn { player: Player::X, game_complete: false, win_data: (None, Vec::new()) }
    }
}

} // verus!
