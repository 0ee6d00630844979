use tictactoe::actions::{
    ai_select, ai_unselect, check_win, check_win_slim, evaluate_board, get_selectable,
    select_position, selectable_numbers, DRAW, LOSE, WIN,
};
use tictactoe::codes::ResultCode;
use tictactoe::computer::{choose_move, make_move};
use tictactoe::game::{is_well_formed, GameMatrix, GameMatrixWrapper, Player};

const E: i32 = 0;
const X: i32 = 1;
const O: i32 = 2;

#[test]
fn center_then_corner_is_ongoing() {
    let mut gm = GameMatrixWrapper::default();
    assert!(select_position(&mut gm, 5, Player::X).is_ok());
    assert!(select_position(&mut gm, 1, Player::O).is_ok());
    assert_eq!(gm.value(), [[O, E, E], [E, X, E], [E, E, E]]);
    assert_eq!(evaluate_board(&gm.value(), Player::X), None);
    assert_eq!(get_selectable(&gm.value()), 7);
    let data = check_win(&mut gm).ok().unwrap();
    assert_eq!(data.0, None);
    assert!(data.1.is_empty());
}

#[test]
fn full_board_without_line_is_draw() {
    let gm: GameMatrix = [[X, O, X], [X, O, O], [O, X, X]];
    assert_eq!(check_win_slim(&gm), None);
    assert_eq!(get_selectable(&gm), 0);
    assert_eq!(evaluate_board(&gm, Player::X), Some(DRAW));
    assert_eq!(evaluate_board(&gm, Player::O), Some(DRAW));
    let mut w = GameMatrixWrapper(gm);
    let data = check_win(&mut w).ok().unwrap();
    assert_eq!(data.0, None);
    assert!(data.1.is_empty());
}

#[test]
fn o_wins_before_blocking() {
    // O can complete its own row, which comes before blocking X's row.
    let gm: GameMatrix = [[X, X, E], [O, O, E], [E, E, E]];
    for d in 0..=3u8 {
        assert_eq!(choose_move(&gm, Player::O, d), (1, 2));
    }
}

#[test]
fn o_blocks_top_row() {
    let gm: GameMatrix = [[X, X, E], [O, E, E], [E, E, E]];
    for d in 0..=3u8 {
        assert_eq!(choose_move(&gm, Player::O, d), (0, 2));
    }
    let mut w = GameMatrixWrapper(gm);
    make_move(&mut w, Player::O, 3);
    assert_eq!(w.value(), [[X, X, O], [O, E, E], [E, E, E]]);
}

#[test]
fn x_blocks_middle_row() {
    let gm: GameMatrix = [[X, E, E], [O, O, E], [E, E, X]];
    for d in 0..=3u8 {
        assert_eq!(choose_move(&gm, Player::X, d), (1, 2));
    }
}

#[test]
fn x_completes_its_line() {
    let gm: GameMatrix = [[X, X, E], [O, O, E], [E, E, E]];
    for d in 0..=3u8 {
        let mut w = GameMatrixWrapper(gm);
        make_move(&mut w, Player::X, d);
        assert_eq!(w.value(), [[X, X, X], [O, O, E], [E, E, E]]);
        assert_eq!(evaluate_board(&w.value(), Player::X), Some(WIN));
        assert_eq!(evaluate_board(&w.value(), Player::O), Some(LOSE));
    }
}

#[test]
fn only_free_cell_is_played() {
    let gm: GameMatrix = [[X, O, X], [X, O, O], [O, X, E]];
    for d in 0..=4u8 {
        assert_eq!(choose_move(&gm, Player::X, d), (2, 2));
        assert_eq!(choose_move(&gm, Player::O, d), (2, 2));
    }
}

#[test]
fn search_avoids_losing_fork() {
    // X holds two opposite corners and O the center; O must take an edge,
    // since a corner lets X build a double threat.
    let gm: GameMatrix = [[X, E, E], [E, O, E], [E, E, X]];
    let (r, c) = choose_move(&gm, Player::O, 3);
    assert!((r + c) % 2 == 1, "O played the corner ({}, {})", r, c);
}

fn play_out(first: u8, second: u8) -> Option<Player> {
    let mut gm = GameMatrixWrapper::default();
    let mut side = Player::X;
    loop {
        let data = check_win(&mut gm).ok().unwrap();
        if data.0.is_some() {
            return data.0;
        }
        if get_selectable(&gm.value()) == 0 {
            return None;
        }
        let d = if side == Player::X { first } else { second };
        make_move(&mut gm, side, d);
        side = side.invert();
    }
}

#[test]
fn hard_against_hard_is_a_draw() {
    assert_eq!(play_out(3, 3), None);
}

#[test]
fn hard_never_loses_to_easy() {
    assert_ne!(play_out(1, 3), Some(Player::X));
    assert_ne!(play_out(3, 1), Some(Player::O));
}

#[test]
fn numbers_shown_match_cells_selected() {
    let boards: [GameMatrix; 4] = [
        [[E, E, E], [E, E, E], [E, E, E]],
        [[X, E, O], [E, X, E], [O, E, E]],
        [[X, O, X], [E, O, E], [E, X, O]],
        [[X, O, X], [X, O, O], [O, X, E]],
    ];
    for gm in boards.iter() {
        let numbers = selectable_numbers(gm);
        assert_eq!(numbers.len(), 9);
        let mut expected: u16 = 0;
        for k in 0..9usize {
            let v = gm[k / 3][k % 3];
            if v == E {
                expected += 1;
                assert_eq!(numbers[k], expected);
                let mut copy = *gm;
                assert_eq!(ai_select(&mut copy, numbers[k], Player::O), Some((k / 3, k % 3)));
                assert_eq!(copy[k / 3][k % 3], O);
                ai_unselect(&mut copy, (k / 3, k % 3));
                assert_eq!(copy, *gm);
            } else {
                assert_eq!(numbers[k], 0);
            }
        }
        assert_eq!(expected, get_selectable(gm));
    }
}

#[test]
fn out_of_range_positions_are_refused() {
    let mut gm = GameMatrixWrapper([[X, E, E], [E, O, E], [E, E, E]]);
    let before = gm.value();
    let e = select_position(&mut gm, 0, Player::X).err().unwrap();
    assert_eq!(e.code, ResultCode::InvalidArgs);
    assert_eq!(e.message, "Invalid Position");
    assert!(select_position(&mut gm, 8, Player::X).is_err());
    assert_eq!(gm.value(), before);
    assert!(select_position(&mut gm, 7, Player::X).is_ok());
    assert_eq!(gm.value(), [[X, E, E], [E, O, E], [E, E, X]]);
    let mut raw = before;
    assert_eq!(ai_select(&mut raw, 8, Player::O), None);
    assert_eq!(raw, before);
}

#[test]
fn evaluation_is_repeatable() {
    let mut gm = GameMatrixWrapper([[O, X, E], [X, O, E], [X, E, O]]);
    let before = gm.value();
    let first = check_win(&mut gm).ok().unwrap();
    let second = check_win(&mut gm).ok().unwrap();
    assert_eq!(first, second);
    assert_eq!(first, (Some(Player::O), vec![(0, 0), (1, 1), (2, 2)]));
    assert_eq!(gm.value(), before);
}

#[test]
fn rows_are_reported_before_columns() {
    let mut gm = GameMatrixWrapper([[X, X, X], [X, O, O], [X, O, O]]);
    let data = check_win(&mut gm).ok().unwrap();
    assert_eq!(data, (Some(Player::X), vec![(0, 0), (0, 1), (0, 2)]));
    let mut col = GameMatrixWrapper([[O, X, E], [O, X, E], [E, X, O]]);
    assert_eq!(check_win(&mut col).ok().unwrap(), (Some(Player::X), vec![(0, 1), (1, 1), (2, 1)]));
    let mut anti = GameMatrixWrapper([[X, X, O], [X, O, E], [O, E, E]]);
    assert_eq!(check_win(&mut anti).ok().unwrap(), (Some(Player::O), vec![(0, 2), (1, 1), (2, 0)]));
    assert_eq!(check_win_slim(&anti.value()), Some(O));
}

#[test]
fn well_formed_boards() {
    assert!(is_well_formed(&[[X, O, E], [E, E, E], [E, E, O]]));
    assert!(!is_well_formed(&[[X, O, E], [E, 7, E], [E, E, O]]));
}
