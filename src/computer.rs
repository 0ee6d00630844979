//! The computer opponent: take a winning move, else block the opponent's,
//! else play the move that a minimax search rates best.
use vstd::prelude::*;

use crate::actions::{
    ai_unselect, check_win_slim, completes, count_free, evaluate_board, lemma_count_prefix_mono,
    lemma_new_line_wins, lemma_take_step, outcome, winner, DRAW, LOSE, WIN,
};
use crate::game::{cells, is_free, put, well_formed, GameMatrix, GameMatrixWrapper, Player};

verus! {

/// How many plies the search looks ahead: one at difficulty 1 (or 0), three
/// at difficulty 2, and the whole game from difficulty 3 up. Immediate wins
/// and blocks are taken at every difficulty.
pub open spec fn horizon(difficulty: u8) -> int {
    if difficulty <= 1 {
        1
    } else if difficulty == 2 {
        3
    } else {
        9
    }
}

/// The score of a finished board reached `depth` plies below the root:
/// quicker wins score higher, slower losses score higher.
pub open spec fn leaf_score(v: i32, depth: int) -> int {
    if v == WIN {
        WIN - depth
    } else if v == LOSE {
        LOSE + depth
    } else {
        DRAW as int
    }
}

/// The minimax value for `ai` of board `s` with `to_move` to play, `depth`
/// plies below the root; boards at the horizon `limit` that are not finished
/// score 0.
pub open spec fn score(s: Seq<i32>, to_move: Player, ai: Player, depth: int, limit: int) -> int
    decreases limit - depth, 10int,
{
    match outcome(s, ai) {
        Some(v) => leaf_score(v, depth),
        None => if depth >= limit {
            DRAW as int
        } else {
            best_upto(s, to_move, ai, depth, limit, 9)
        },
    }
}

/// The best value for `to_move` over the free cells below `k`: the largest
/// when `to_move` is `ai`, else the smallest.
pub open spec fn best_upto(
    s: Seq<i32>,
    to_move: Player,
    ai: Player,
    depth: int,
    limit: int,
    k: int,
) -> int
    decreases limit - depth, k,
{
    if k <= 0 || depth >= limit {
        if to_move == ai {
            i32::MIN as int
        } else {
            i32::MAX as int
        }
    } else {
        let prev = best_upto(s, to_move, ai, depth, limit, k - 1);
        if is_free(s[k - 1]) {
            let c = score(s.update(k - 1, to_move.code()), to_move.other(), ai, depth + 1, limit);
            if to_move == ai {
                if c > prev {
                    c
                } else {
                    prev
                }
            } else {
                if c < prev {
                    c
                } else {
                    prev
                }
            }
        } else {
            prev
        }
    }
}

/// The value for `side` of playing cell `k` now.
pub open spec fn root_score(s: Seq<i32>, side: Player, limit: int, k: int) -> int {
    score(s.update(k, side.code()), side.other(), side, 1, limit)
}

/// The first free cell below `k` with the highest root score, or 9 when
/// none is free.
pub open spec fn best_cell_upto(s: Seq<i32>, side: Player, limit: int, k: int) -> int
    decreases k,
{
    if k <= 0 {
        9
    } else {
        let prev = best_cell_upto(s, side, limit, k - 1);
        if is_free(s[k - 1]) && (prev == 9 || root_score(s, side, limit, k - 1) > root_score(
            s,
            side,
            limit,
            prev,
        )) {
            k - 1
        } else {
            prev
        }
    }
}

/// Playing value `v` at free cell `k` completes a line of `v`.
pub open spec fn wins_at(s: Seq<i32>, k: int, v: i32) -> bool {
    is_free(s[k]) && winner(s.update(k, v)) == v
}

/// The first cell below `k` where `v` wins at once, or 9 when none.
pub open spec fn first_win_upto(s: Seq<i32>, v: i32, k: int) -> int
    decreases k,
{
    if k <= 0 {
        9
    } else {
        let prev = first_win_upto(s, v, k - 1);
        if prev < 9 {
            prev
        } else if wins_at(s, k - 1, v) {
            k - 1
        } else {
            9
        }
    }
}

/// The cell the computer plays for `side`: a winning cell, else a cell where
/// the opponent would win, else the best cell of the search.
pub open spec fn choice(s: Seq<i32>, side: Player, difficulty: u8) -> int {
    let w = first_win_upto(s, side.code(), 9);
    let b = first_win_upto(s, side.other().code(), 9);
    if w < 9 {
        w
    } else if b < 9 {
        b
    } else {
        best_cell_upto(s, side, horizon(difficulty), 9)
    }
}

proof fn lemma_place_restore(s: Seq<i32>, k: int, v: i32)
    requires
        well_formed(s),
        0 <= k < 9,
        s[k] == 0,
        v == 1 || v == 2,
    ensures
        well_formed(s.update(k, v)),
        s.update(k, v).update(k, 0) == s,
{
    assert(s.update(k, v).update(k, 0) =~= s);
    assert forall|j: int| 0 <= j < 9 implies #[trigger] s.update(k, v)[j] == 0 || s.update(k, v)[j]
        == 1 || s.update(k, v)[j] == 2 by {
        if j != k {
            assert(s[j] == 0 || s[j] == 1 || s[j] == 2);
        }
    }
}

/// The minimax value of the board for `ai_player`, with `player` to move;
/// the board is left as it was.
fn generate_min_max_choices(
    gm: &mut GameMatrix,
    player: Player,
    ai_player: Player,
    depth: i32,
    limit: i32,
) -> (r: i32)
    requires
        well_formed(cells(*old(gm))),
        0 <= depth <= limit <= 9,
    ensures
        cells(*final(gm)) == cells(*old(gm)),
        r as int == score(cells(*old(gm)), player, ai_player, depth as int, limit as int),
    decreases limit - depth,
{
    match evaluate_board(gm, ai_player) {
        Some(v) => {
            return if v == WIN {
                WIN - depth
            } else if v == LOSE {
                LOSE + depth
            } else {
                DRAW
            };
        },
        None => {},
    }
    if depth >= limit {
        return DRAW;
    }
    let ghost s = cells(*gm);
    let to_move = player.as_i32();
    let mut best: i32 = if player == ai_player {
        i32::MIN
    } else {
        i32::MAX
    };
    let mut k: usize = 0;
    while k < 9
        invariant
            k <= 9,
            cells(*gm) == s,
            well_formed(s),
            0 <= depth < limit <= 9,
            to_move == player.code(),
            best as int == best_upto(s, player, ai_player, depth as int, limit as int, k as int),
        decreases 9 - k,
    {
        let r = k / 3;
        let c = k % 3;
        assert(3 * r + c == k);
        if gm[r][c] == 0 {
            proof {
                lemma_place_restore(s, k as int, to_move);
            }
            put(gm, r, c, to_move);
            let sc = generate_min_max_choices(gm, player.invert(), ai_player, depth + 1, limit);
            ai_unselect(gm, (r, c));
            if player == ai_player {
                if sc > best {
                    best = sc;
                }
            } else {
                if sc < best {
                    best = sc;
                }
            }
        } else {
            assert(!is_free(s[k as int]));
        }
        k = k + 1;
    }
    best
}

proof fn lemma_first_win_stable(s: Seq<i32>, v: i32, n: int, m: int)
    requires
        0 <= n <= m,
        first_win_upto(s, v, n) < 9,
    ensures
        first_win_upto(s, v, m) == first_win_upto(s, v, n),
    decreases m - n,
{
    if n < m {
        lemma_first_win_stable(s, v, n, m - 1);
    }
}

/// The first cell where `side` wins at once, or 9 when none; the board is
/// left as it was.
fn first_win(gm: &mut GameMatrix, side: Player) -> (r: usize)
    requires
        well_formed(cells(*old(gm))),
    ensures
        cells(*final(gm)) == cells(*old(gm)),
        r as int == first_win_upto(cells(*old(gm)), side.code(), 9),
{
    let ghost s = cells(*gm);
    let v = side.as_i32();
    let mut k: usize = 0;
    while k < 9
        invariant
            k <= 9,
            cells(*gm) == s,
            s == cells(*old(gm)),
            well_formed(s),
            v == side.code(),
            first_win_upto(s, v, k as int) == 9,
        decreases 9 - k,
    {
        let r = k / 3;
        let c = k % 3;
        assert(3 * r + c == k);
        if gm[r][c] == 0 {
            proof {
                lemma_place_restore(s, k as int, v);
            }
            put(gm, r, c, v);
            let w = check_win_slim(gm);
            ai_unselect(gm, (r, c));
            if w == Some(v) {
                assert(first_win_upto(s, v, k + 1) == k);
                proof {
                    lemma_first_win_stable(s, v, k + 1, 9);
                }
                return k;
            }
        } else {
            assert(!is_free(s[k as int]));
        }
        k = k + 1;
    }
    9
}

/// The first free cell with the highest root score, or 9 when none is
/// free; the board is left as it was.
fn best_cell(gm: &mut GameMatrix, side: Player, limit: i32) -> (r: usize)
    requires
        well_formed(cells(*old(gm))),
        1 <= limit <= 9,
    ensures
        cells(*final(gm)) == cells(*old(gm)),
        r as int == best_cell_upto(cells(*old(gm)), side, limit as int, 9),
{
    let ghost s = cells(*gm);
    let v = side.as_i32();
    let mut best: usize = 9;
    let mut best_score: i32 = 0;
    let mut k: usize = 0;
    while k < 9
        invariant
            k <= 9,
            cells(*gm) == s,
            well_formed(s),
            1 <= limit <= 9,
            v == side.code(),
            best as int == best_cell_upto(s, side, limit as int, k as int),
            best <= 9,
            best < 9 ==> best_score as int == root_score(s, side, limit as int, best as int),
        decreases 9 - k,
    {
        let r = k / 3;
        let c = k % 3;
        assert(3 * r + c == k);
        if gm[r][c] == 0 {
            proof {
                lemma_place_restore(s, k as int, v);
            }
            put(gm, r, c, v);
            let sc = generate_min_max_choices(gm, side.invert(), side, 1, limit);
            ai_unselect(gm, (r, c));
            if best == 9 || sc > best_score {
                best = k;
                best_score = sc;
            }
        } else {
            assert(!is_free(s[k as int]));
        }
        k = k + 1;
    }
    best
}

/// A cell below `n` where `v` wins comes no later than the first such cell,
/// and the first such cell is one.
proof fn lemma_first_win(s: Seq<i32>, v: i32, n: int)
    requires
        0 <= n <= 9,
    ensures
        first_win_upto(s, v, n) == 9 || (0 <= first_win_upto(s, v, n) < n && wins_at(
            s,
            first_win_upto(s, v, n),
            v,
        )),
        forall|j: int| 0 <= j < n && wins_at(s, j, v) ==> first_win_upto(s, v, n) <= j,
    decreases n,
{
    if n > 0 {
        lemma_first_win(s, v, n - 1);
    }
}

/// The best cell below `n` is free and scores at least as much as every
/// free cell below `n`; it is 9 only when no cell below `n` is free.
proof fn lemma_best_cell(s: Seq<i32>, side: Player, limit: int, n: int)
    requires
        0 <= n <= 9,
    ensures
        best_cell_upto(s, side, limit, n) == 9 ==> forall|j: int|
            0 <= j < n ==> !is_free(#[trigger] s[j]),
        best_cell_upto(s, side, limit, n) != 9 ==> {
            let b = best_cell_upto(s, side, limit, n);
            &&& 0 <= b < n
            &&& is_free(s[b])
            &&& forall|j: int|
                0 <= j < n && is_free(s[j]) ==> root_score(s, side, limit, b) >= #[trigger] root_score(
                    s,
                    side,
                    limit,
                    j,
                )
        },
    decreases n,
{
    if n > 0 {
        lemma_best_cell(s, side, limit, n - 1);
    }
}

proof fn lemma_some_free(s: Seq<i32>, n: int)
    requires
        0 <= n <= s.len(),
        forall|j: int| 0 <= j < n ==> !is_free(#[trigger] s[j]),
    ensures
        count_free(s.take(n)) == 0,
    decreases n,
{
    if n > 0 {
        lemma_some_free(s, n - 1);
        assert(s.take(n).drop_last() =~= s.take(n - 1));
    }
}

/// On a board with a free cell the computer's choice is a free cell.
pub proof fn lemma_choice_free(s: Seq<i32>, side: Player, difficulty: u8)
    requires
        well_formed(s),
        count_free(s) > 0,
    ensures
        0 <= choice(s, side, difficulty) < 9,
        is_free(s[choice(s, side, difficulty)]),
{
    lemma_first_win(s, side.code(), 9);
    lemma_first_win(s, side.other().code(), 9);
    lemma_best_cell(s, side, horizon(difficulty), 9);
    if best_cell_upto(s, side, horizon(difficulty), 9) == 9 {
        lemma_some_free(s, 9);
        assert(s.take(9) =~= s);
    }
}

/// The cell the computer plays for `player`, as (row, column).
pub fn choose_move(gm: &GameMatrix, player: Player, difficulty: u8) -> (r: (usize, usize))
    requires
        well_formed(cells(*gm)),
        count_free(cells(*gm)) > 0,
    ensures
        r.0 < 3,
        r.1 < 3,
        3 * r.0 + r.1 == choice(cells(*gm), player, difficulty),
{
    proof {
        lemma_choice_free(cells(*gm), player, difficulty);
    }
    let mut check_matrix = *gm;
    let w = first_win(&mut check_matrix, player);
    let k = if w < 9 {
        w
    } else {
        let b = first_win(&mut check_matrix, player.invert());
        if b < 9 {
            b
        } else {
            let limit: i32 = if difficulty <= 1 {
                1
            } else if difficulty == 2 {
                3
            } else {
                9
            };
            best_cell(&mut check_matrix, player, limit)
        }
    };
    assert(3 * (k / 3) + k % 3 == k);
    (k / 3, k % 3)
}

/// Plays the computer's move for `player` on the board.
pub fn make_move(gm: &mut GameMatrixWrapper, player: Player, difficulty: u8)
    requires
        well_formed(old(gm)@),
        count_free(old(gm)@) > 0,
    ensures
        is_free(old(gm)@[choice(old(gm)@, player, difficulty)]),
        final(gm)@ == old(gm)@.update(choice(old(gm)@, player, difficulty), player.code()),
{
    proof {
        lemma_choice_free(gm@, player, difficulty);
    }
    let pos = choose_move(&gm.0, player, difficulty);
    gm.set_position(pos, player);
}

proof fn lemma_two_free(s: Seq<i32>, i: int, j: int)
    requires
        s.len() == 9,
        0 <= i < j < 9,
        is_free(s[i]),
        is_free(s[j]),
    ensures
        count_free(s) >= 2,
{
    lemma_take_step(s, i);
    lemma_take_step(s, j);
    lemma_count_prefix_mono(s, i + 1, j);
    lemma_count_prefix_mono(s, j + 1, 9);
    assert(s.take(9) =~= s);
}

/// With a single free cell, the computer plays it, at every difficulty.
pub proof fn lemma_only_move(s: Seq<i32>, side: Player, difficulty: u8, k: int)
    requires
        well_formed(s),
        count_free(s) == 1,
        0 <= k < 9,
        is_free(s[k]),
    ensures
        choice(s, side, difficulty) == k,
{
    lemma_choice_free(s, side, difficulty);
    let c = choice(s, side, difficulty);
    if c < k {
        lemma_two_free(s, c, k);
    } else if k < c {
        lemma_two_free(s, k, c);
    }
}

/// When `side` can complete a line with its next mark, the computer's move
/// for `side` completes one and wins.
pub proof fn lemma_takes_win(s: Seq<i32>, side: Player, difficulty: u8, k: int, l: int)
    requires
        well_formed(s),
        winner(s) == 0,
        0 <= k < 9,
        s[k] == 0,
        0 <= l < 8,
        completes(s.update(k, side.code()), l),
    ensures
        winner(s.update(choice(s, side, difficulty), side.code())) == side.code(),
{
    lemma_new_line_wins(s, k, side.code(), l);
    assert(wins_at(s, k, side.code()));
    lemma_first_win(s, side.code(), 9);
}

/// When `side` cannot win at once and the opponent could complete a line
/// at exactly one cell, the computer plays that cell for `side`.
pub proof fn lemma_blocks_threat(s: Seq<i32>, side: Player, difficulty: u8, k: int, l: int)
    requires
        well_formed(s),
        winner(s) == 0,
        0 <= k < 9,
        s[k] == 0,
        0 <= l < 8,
        completes(s.update(k, side.other().code()), l),
        forall|j: int| 0 <= j < 9 ==> !wins_at(s, j, side.code()),
        forall|j: int| 0 <= j < 9 && j != k ==> !wins_at(s, j, side.other().code()),
    ensures
        choice(s, side, difficulty) == k,
{
    lemma_new_line_wins(s, k, side.other().code(), l);
    assert(wins_at(s, k, side.other().code()));
    lemma_first_win(s, side.code(), 9);
    lemma_first_win(s, side.other().code(), 9);
}

/// When neither side can win at once, the computer plays a free cell whose
/// search value is the highest of all free cells; so it never picks a move
/// that loses by force while one that does not lose is there.
pub proof fn lemma_search_best(s: Seq<i32>, side: Player, difficulty: u8)
    requires
        well_formed(s),
        count_free(s) > 0,
        forall|j: int|
            0 <= j < 9 ==> !wins_at(s, j, side.code()) && !wins_at(s, j, side.other().code()),
    ensures
        is_free(s[choice(s, side, difficulty)]),
        forall|j: int|
            0 <= j < 9 && is_free(s[j]) ==> root_score(
                s,
                side,
                horizon(difficulty),
                choice(s, side, difficulty),
            ) >= #[trigger] root_score(s, side, horizon(difficulty), j),
        (exists|j: int|
            0 <= j < 9 && is_free(s[j]) && #[trigger] root_score(s, side, horizon(difficulty), j)
                >= 0) ==> root_score(s, side, horizon(difficulty), choice(s, side, difficulty)) >= 0,
{
    lemma_choice_free(s, side, difficulty);
    lemma_first_win(s, side.code(), 9);
    lemma_first_win(s, side.other().code(), 9);
    lemma_best_cell(s, side, horizon(difficulty), 9);
    let w = first_win_upto(s, side.code(), 9);
    let b = first_win_upto(s, side.other().code(), 9);
    if w != 9 {
        assert(!wins_at(s, w, side.code()) && !wins_at(s, w, side.other().code()));
    }
    if b != 9 {
        assert(0 <= b < 9);
        assert(!wins_at(s, b, side.code()));
        assert(!wins_at(s, b, side.other().code()));
    }
    assert(choice(s, side, difficulty) == best_cell_upto(s, side, horizon(difficulty), 9));
}

} // verus!
