//! Win and draw detection, and the numbering of free cells that players and
//! the computer both use to name a move.
use vstd::prelude::*;

use crate::codes::ResultCode;
use crate::game::{
    cells, is_free, player_of, put, GameMatrix, GameMatrixWrapper, Player, WinData,
};
use crate::{AppResult, Failure};

verus! {

pub const WIN: i32 = 10;

pub const LOSE: i32 = -10;

pub const DRAW: i32 = 0;

/// The cells of line `l`: rows 0 to 2, then columns 3 to 5, then the two
/// diagonals 6 and 7.
pub open spec fn line(l: int) -> (int, int, int) {
    if l == 0 {
        (0, 1, 2)
    } else if l == 1 {
        (3, 4, 5)
    } else if l == 2 {
        (6, 7, 8)
    } else if l == 3 {
        (0, 3, 6)
    } else if l == 4 {
        (1, 4, 7)
    } else if l == 5 {
        (2, 5, 8)
    } else if l == 6 {
        (0, 4, 8)
    } else {
        (2, 4, 6)
    }
}

/// Line `l` holds three equal non-zero values.
pub open spec fn completes(s: Seq<i32>, l: int) -> bool {
    let (a, b, c) = line(l);
    s[a] != 0 && s[a] == s[b] && s[a] == s[c]
}

/// The first complete line at or after `l`, in scan order.
pub open spec fn first_line_from(s: Seq<i32>, l: int) -> Option<int>
    decreases 8 - l,
{
    if l >= 8 {
        None
    } else if completes(s, l) {
        Some(l)
    } else {
        first_line_from(s, l + 1)
    }
}

pub open spec fn winning_line(s: Seq<i32>) -> Option<int> {
    first_line_from(s, 0)
}

/// The value on the first complete line, or 0 when no line is complete.
pub open spec fn winner(s: Seq<i32>) -> i32 {
    match winning_line(s) {
        Some(l) => s[line(l).0],
        None => 0,
    }
}

/// The (row, column) coordinates of the cells of line `l`.
pub open spec fn line_coords(l: int) -> Seq<(usize, usize)> {
    let (a, b, c) = line(l);
    seq![
        ((a / 3) as usize, (a % 3) as usize),
        ((b / 3) as usize, (b % 3) as usize),
        ((c / 3) as usize, (c % 3) as usize),
    ]
}

/// The winning side and its line, as `check_win` reports them.
pub open spec fn win_data_of(s: Seq<i32>) -> (Option<Player>, Seq<(usize, usize)>) {
    match winning_line(s) {
        Some(l) => (player_of(s[line(l).0]), line_coords(l)),
        None => (None, Seq::empty()),
    }
}

/// The number of free cells.
pub open spec fn count_free(s: Seq<i32>) -> nat
    decreases s.len(),
{
    if s.len() == 0 {
        0
    } else {
        count_free(s.drop_last()) + if is_free(s.last()) {
            1nat
        } else {
            0nat
        }
    }
}

/// The 1-based selectable number of cell `k`, counting free cells in
/// row-major order (meaningful when cell `k` is free).
pub open spec fn label(s: Seq<i32>, k: int) -> int {
    count_free(s.take(k)) + 1int
}

/// The first free cell at or after `k` whose number is `pos`, or 9 when none.
pub open spec fn find_from(s: Seq<i32>, pos: int, k: int) -> int
    decreases 9 - k,
{
    if k >= 9 {
        9
    } else if is_free(s[k]) && label(s, k) == pos {
        k
    } else {
        find_from(s, pos, k + 1)
    }
}

/// The cell that selectable number `pos` names, or 9 when it names none.
pub open spec fn cell_at(s: Seq<i32>, pos: int) -> int {
    find_from(s, pos, 0)
}

/// What the board is worth to `side`: `WIN` or `LOSE` once a line is
/// complete, `DRAW` on a full board without one, and nothing while the game
/// goes on.
pub open spec fn outcome(s: Seq<i32>, side: Player) -> Option<i32> {
    if winner(s) != 0 {
        Some(
            if winner(s) == side.code() {
                WIN
            } else {
                LOSE
            },
        )
    } else if count_free(s) > 0 {
        None
    } else {
        Some(DRAW)
    }
}

pub proof fn lemma_take_step(s: Seq<i32>, k: int)
    requires
        0 <= k < s.len(),
    ensures
        count_free(s.take(k + 1)) == count_free(s.take(k)) + if is_free(s[k]) {
            1nat
        } else {
            0nat
        },
{
    assert(s.take(k + 1).drop_last() =~= s.take(k));
}

/// A board of nine cells has at most nine free cells.
pub proof fn lemma_count_bound(s: Seq<i32>)
    requires
        s.len() == 9,
    ensures
        count_free(s) <= 9,
{
    assert forall|k: int| 0 <= k <= 9 implies count_free(#[trigger] s.take(k)) <= k by {
        lemma_count_le(s, k);
    }
    assert(s.take(9) =~= s);
}

proof fn lemma_count_le(s: Seq<i32>, k: int)
    requires
        0 <= k <= s.len(),
    ensures
        count_free(s.take(k)) <= k,
    decreases k,
{
    if k > 0 {
        lemma_count_le(s, k - 1);
        lemma_take_step(s, k - 1);
    }
}

/// Counting free cells over a longer prefix never gives fewer.
pub proof fn lemma_count_prefix_mono(s: Seq<i32>, i: int, j: int)
    requires
        0 <= i <= j <= s.len(),
    ensures
        count_free(s.take(i)) <= count_free(s.take(j)),
    decreases j - i,
{
    if i < j {
        lemma_count_prefix_mono(s, i, j - 1);
        lemma_take_step(s, j - 1);
    }
}

proof fn lemma_find_skips(s: Seq<i32>, pos: int, i: int, k: int)
    requires
        0 <= i <= k <= 9,
        forall|j: int| i <= j < k ==> !(is_free(#[trigger] s[j]) && label(s, j) == pos),
    ensures
        find_from(s, pos, i) == find_from(s, pos, k),
    decreases k - i,
{
    if i < k {
        lemma_find_skips(s, pos, i + 1, k);
    }
}

/// The selectable number of a free cell names that very cell, and lies
/// between 1 and the number of free cells: the numbers shown beside a board
/// and the cells that moves by number reach agree.
pub proof fn lemma_numbering_agrees(s: Seq<i32>, k: int)
    requires
        s.len() == 9,
        0 <= k < 9,
        is_free(s[k]),
    ensures
        cell_at(s, label(s, k)) == k,
        1 <= label(s, k) <= count_free(s),
{
    assert forall|j: int| 0 <= j < k implies !(is_free(#[trigger] s[j]) && label(s, j) == label(s, k)) by {
        if is_free(s[j]) {
            lemma_take_step(s, j);
            lemma_count_prefix_mono(s, j + 1, k);
        }
    }
    lemma_find_skips(s, label(s, k), 0, k);
    lemma_take_step(s, k);
    lemma_count_prefix_mono(s, k + 1, 9);
    assert(s.take(9) =~= s);
}

proof fn lemma_first_line_completes(s: Seq<i32>, i: int)
    requires
        0 <= i,
    ensures
        first_line_from(s, i) matches Some(l) ==> i <= l < 8 && completes(s, l),
    decreases 8 - i,
{
    if i < 8 && !completes(s, i) {
        lemma_first_line_completes(s, i + 1);
    }
}

proof fn lemma_first_line_none(s: Seq<i32>, i: int)
    requires
        0 <= i,
        first_line_from(s, i).is_none(),
    ensures
        forall|l: int| i <= l < 8 ==> !completes(s, l),
    decreases 8 - i,
{
    if i < 8 {
        lemma_first_line_none(s, i + 1);
    }
}

proof fn lemma_first_line_some(s: Seq<i32>, i: int, l: int)
    requires
        0 <= i <= l < 8,
        completes(s, l),
    ensures
        first_line_from(s, i).is_some(),
    decreases l - i,
{
    if i < l && !completes(s, i) {
        lemma_first_line_some(s, i + 1, l);
    }
}

/// On a board where no line is complete, a mark `v` that completes a line
/// makes `v` the winner.
pub proof fn lemma_new_line_wins(s: Seq<i32>, k: int, v: i32, l: int)
    requires
        s.len() == 9,
        winner(s) == 0,
        0 <= k < 9,
        0 <= l < 8,
        completes(s.update(k, v), l),
    ensures
        winner(s.update(k, v)) == v,
{
    let t = s.update(k, v);
    lemma_first_line_completes(s, 0);
    lemma_first_line_none(s, 0);
    lemma_first_line_some(t, 0, l);
    lemma_first_line_completes(t, 0);
    let m = winning_line(t).unwrap();
    assert(!completes(s, m));
}

/// The value on line `l` when it is complete, else 0.
fn line_value(gm: &GameMatrix, l: usize) -> (r: i32)
    requires
        l < 8,
    ensures
        completes(cells(*gm), l as int) ==> r == cells(*gm)[line(l as int).0],
        !completes(cells(*gm), l as int) ==> r == 0,
{
    let (a, b, c) = line_cells(l);
    let va = gm[a / 3][a % 3];
    let vb = gm[b / 3][b % 3];
    let vc = gm[c / 3][c % 3];
    if va != 0 && va == vb && va == vc {
        va
    } else {
        0
    }
}

fn line_cells(l: usize) -> (r: (usize, usize, usize))
    requires
        l < 8,
    ensures
        r.0 as int == line(l as int).0,
        r.1 as int == line(l as int).1,
        r.2 as int == line(l as int).2,
        r.0 < 9,
        r.1 < 9,
        r.2 < 9,
{
    if l == 0 {
        (0, 1, 2)
    } else if l == 1 {
        (3, 4, 5)
    } else if l == 2 {
        (6, 7, 8)
    } else if l == 3 {
        (0, 3, 6)
    } else if l == 4 {
        (1, 4, 7)
    } else if l == 5 {
        (2, 5, 8)
    } else if l == 6 {
        (0, 4, 8)
    } else {
        (2, 4, 6)
    }
}

/// The first complete line in scan order.
fn find_line(gm: &GameMatrix) -> (r: Option<usize>)
    ensures
        match winning_line(cells(*gm)) {
            Some(l) => r == Some(l as usize) && 0 <= l < 8 && completes(cells(*gm), l),
            None => r.is_none(),
        },
{
    proof {
        lemma_first_line_completes(cells(*gm), 0);
    }
    let mut l: usize = 0;
    while l < 8
        invariant
            l <= 8,
            winning_line(cells(*gm)) == first_line_from(cells(*gm), l as int),
        decreases 8 - l,
    {
        if line_value(gm, l) != 0 {
            return Some(l);
        }
        l = l + 1;
    }
    None
}

/// The value on the first complete line, or `None` when no line is complete.
pub fn check_win_slim(gm: &GameMatrix) -> (r: Option<i32>)
    ensures
        winner(cells(*gm)) == 0 ==> r.is_none(),
        winner(cells(*gm)) != 0 ==> r == Some(winner(cells(*gm))),
{
    match find_line(gm) {
        Some(l) => Some(line_value(gm, l)),
        None => None,
    }
}

/// The winning side, if any, and the coordinates of its line; the board is
/// left as it was.
pub fn check_win(game_matrix: &mut GameMatrixWrapper) -> (r: AppResult<WinData>)
    ensures
        final(game_matrix)@ == old(game_matrix)@,
        r matches Ok(d) && d.0 == win_data_of(old(game_matrix)@).0 && d.1@ == win_data_of(
            old(game_matrix)@,
        ).1,
{
    let gm = game_matrix.value();
    match find_line(&gm) {
        Some(l) => {
            let (a, b, c) = line_cells(l);
            let side = Player::from_i32(gm[a / 3][a % 3]);
            let coords = vec![(a / 3, a % 3), (b / 3, b % 3), (c / 3, c % 3)];
            assert(coords@ =~= line_coords(l as int));
            Ok((side, coords))
        },
        None => {
            let coords: Vec<(usize, usize)> = Vec::new();
            assert(coords@ =~= Seq::<(usize, usize)>::empty());
            Ok((None, coords))
        },
    }
}

/// The number of free cells.
pub fn get_selectable(gm: &GameMatrix) -> (r: u16)
    ensures
        r == count_free(cells(*gm)),
{
    let ghost s = cells(*gm);
    let mut count: u16 = 0;
    let mut k: usize = 0;
    while k < 9
        invariant
            k <= 9,
            s == cells(*gm),
            s.len() == 9,
            count <= k,
            count == count_free(s.take(k as int)),
        decreases 9 - k,
    {
        proof {
            lemma_take_step(s, k as int);
        }
        let v = gm[k / 3][k % 3];
        if v != 1 && v != 2 {
            count = count + 1;
        }
        k = k + 1;
    }
    assert(s.take(9) =~= s);
    count
}

/// The cell that selectable number `pos` names.
fn locate(gm: &GameMatrix, pos: u16) -> (r: Option<usize>)
    ensures
        r.is_some() <==> 1 <= pos <= count_free(cells(*gm)),
        r matches Some(k) ==> k as int == cell_at(cells(*gm), pos as int) && k < 9,
        r.is_some() ==> is_free(cells(*gm)[r.unwrap() as int]),
{
    let ghost s = cells(*gm);
    let mut count: u16 = 0;
    let mut k: usize = 0;
    while k < 9
        invariant
            k <= 9,
            s == cells(*gm),
            s.len() == 9,
            count <= k,
            count == count_free(s.take(k as int)),
            pos == 0 || count < pos,
            cell_at(s, pos as int) == find_from(s, pos as int, k as int),
        decreases 9 - k,
    {
        proof {
            lemma_take_step(s, k as int);
        }
        let v = gm[k / 3][k % 3];
        if v != 1 && v != 2 {
            count = count + 1;
            if pos == count {
                proof {
                    lemma_count_prefix_mono(s, k + 1, 9);
                    assert(s.take(9) =~= s);
                }
                return Some(k);
            }
        }
        k = k + 1;
    }
    assert(s.take(9) =~= s);
    None
}

/// Plays selectable number `position` for `player`.
pub fn select_position(game_matrix: &mut GameMatrixWrapper, position: u16, player: Player) -> (r:
    AppResult<()>)
    ensures
        r.is_ok() <==> 1 <= position <= count_free(old(game_matrix)@),
        r.is_ok() ==> final(game_matrix)@ == old(game_matrix)@.update(
            cell_at(old(game_matrix)@, position as int),
            player.code(),
        ),
        r matches Err(e) ==> e.code == ResultCode::InvalidArgs && final(game_matrix)@ == old(
            game_matrix,
        )@,
{
    match locate(&game_matrix.0, position) {
        Some(k) => {
            assert(3 * (k / 3) + k % 3 == k);
            game_matrix.set_position((k / 3, k % 3), player);
            Ok(())
        },
        None => Err(
            Failure {
                message: "Invalid Position".to_string(),
                trace: "Select a valid position".to_string(),
                code: ResultCode::InvalidArgs,
            },
        ),
    }
}

/// Plays selectable number `pos` for `player` on a bare grid, and reports
/// the coordinates written.
pub fn ai_select(gm: &mut GameMatrix, pos: u16, player: Player) -> (r: Option<(usize, usize)>)
    ensures
        r.is_some() <==> 1 <= pos <= count_free(cells(*old(gm))),
        r matches Some(rc) ==> {
            &&& rc.0 < 3
            &&& rc.1 < 3
            &&& 3 * rc.0 + rc.1 == cell_at(cells(*old(gm)), pos as int)
            &&& cells(*final(gm)) == cells(*old(gm)).update(3 * rc.0 + rc.1, player.code())
        },
        r.is_none() ==> cells(*final(gm)) == cells(*old(gm)),
{
    match locate(gm, pos) {
        Some(k) => {
            let v = player.as_i32();
            assert(3 * (k / 3) + k % 3 == k);
            put(gm, k / 3, k % 3, v);
            Some((k / 3, k % 3))
        },
        None => None,
    }
}

/// Frees the cell at `pos`.
pub fn ai_unselect(gm: &mut GameMatrix, pos: (usize, usize))
    requires
        pos.0 < 3,
        pos.1 < 3,
    ensures
        cells(*final(gm)) == cells(*old(gm)).update(3 * pos.0 + pos.1, 0),
{
    put(gm, pos.0, pos.1, 0);
}

/// What the board is worth to `player` (see `outcome`).
pub fn evaluate_board(gm: &GameMatrix, player: Player) -> (r: Option<i32>)
    ensures
        r == outcome(cells(*gm), player),
{
    let w = check_win_slim(gm);
    match w {
        Some(g) => {
            if g == player.as_i32() {
                Some(WIN)
            } else {
                Some(LOSE)
            }
        },
        None => {
            if get_selectable(gm) > 0 {
                None
            } else {
                Some(DRAW)
            }
        },
    }
}

/// The number shown beside each cell: its selectable number when free, 0
/// when taken.
pub fn selectable_numbers(gm: &GameMatrix) -> (r: Vec<u16>)
    ensures
        r@.len() == 9,
        forall|k: int|
            0 <= k < 9 ==> #[trigger] r@[k] == if is_free(cells(*gm)[k]) {
                label(cells(*gm), k)
            } else {
                0
            },
{
    let ghost s = cells(*gm);
    let mut out: Vec<u16> = Vec::new();
    let mut count: u16 = 0;
    let mut k: usize = 0;
    while k < 9
        invariant
            k <= 9,
            s == cells(*gm),
            s.len() == 9,
            count <= k,
            count == count_free(s.take(k as int)),
            out@.len() == k,
            forall|j: int|
                0 <= j < k ==> #[trigger] out@[j] == if is_free(s[j]) {
                    label(s, j)
                } else {
                    0
                },
        decreases 9 - k,
    {
        proof {
            lemma_take_step(s, k as int);
        }
        let v = gm[k / 3][k % 3];
        if v != 1 && v != 2 {
            count = count + 1;
            out.push(count);
        } else {
            out.push(0);
        }
        k = k + 1;
    }
    out
}

} // verus!
