use tictactoe::codes::ResultCode;
use tictactoe::config::{AppConfig, ArgsInit};
use tictactoe::game::{GameMatrixWrapper, Player, PlayerTurn, TurnStep};
use tictactoe::records::{CommandUsageRecord, RecordKey, ToolsAnalytics};
use tictactoe::Failure;

#[test]
fn players_and_codes() {
    assert_eq!(Player::X.as_i32(), 1);
    assert_eq!(Player::O.as_i32(), 2);
    assert_eq!(Player::from_i32(1), Some(Player::X));
    assert_eq!(Player::from_i32(2), Some(Player::O));
    assert_eq!(Player::from_i32(0), None);
    assert_eq!(Player::X.invert(), Player::O);
    assert_eq!(Player::O.invert(), Player::X);
    assert_eq!(ResultCode::Success.as_i32(), 0);
    assert_eq!(ResultCode::SuccessAnalyticsFailed.as_i32(), 1);
    assert_eq!(ResultCode::InvalidArgs.as_i32(), 15);
    assert_eq!(ResultCode::PCNameNotSet.as_i32(), 19);
    assert_eq!(ResultCode::CryptoError.as_i32(), 78);
}

#[test]
fn turn_alternates_and_finishes() {
    let mut gm = GameMatrixWrapper::default();
    let mut turn = PlayerTurn::default();
    assert_eq!(turn.player, Player::X);
    assert_eq!(turn.begin_turn(&gm, Some(Player::X), false), TurnStep::AskHuman);
    assert!(turn.play_human(&mut gm, 1).is_ok());
    assert_eq!(turn.settle(Ok(())).ok(), Some(false));
    assert_eq!(turn.player, Player::O);
    assert_eq!(turn.begin_turn(&gm, Some(Player::X), false), TurnStep::Computer);
    turn.play_computer(&mut gm, 3);
    assert_eq!(gm.value(), [[1, 0, 0], [0, 2, 0], [0, 0, 0]]);
    assert_eq!(turn.settle(Ok(())).ok(), Some(false));
    assert_eq!(turn.player, Player::X);
    assert_eq!(turn.begin_turn(&gm, None, true), TurnStep::AskHuman);
}

#[test]
fn refused_position_keeps_the_side() {
    let mut gm = GameMatrixWrapper([[1, 2, 1], [0, 0, 0], [0, 0, 0]]);
    let mut turn = PlayerTurn::default();
    let res = turn.play_human(&mut gm, 7);
    assert_eq!(res.as_ref().err().map(|e| e.code), Some(ResultCode::InvalidArgs));
    assert!(turn.play_human(&mut gm, -3).is_err());
    assert_eq!(turn.settle(res).ok(), Some(false));
    assert_eq!(turn.player, Player::X);
}

#[test]
fn cancelled_prompt_stops_the_game() {
    let mut turn = PlayerTurn::default();
    let cancel = Failure {
        message: "Invalid input".to_string(),
        trace: String::new(),
        code: ResultCode::CancelOperation,
    };
    let e = turn.settle(Err(cancel)).err().unwrap();
    assert_eq!(e.code, ResultCode::CancelOperation);
    assert_eq!(turn.player, Player::X);
}

#[test]
fn winning_move_completes_the_game() {
    let mut gm = GameMatrixWrapper([[1, 1, 0], [2, 2, 0], [0, 0, 0]]);
    let mut turn = PlayerTurn::default();
    assert!(turn.play_human(&mut gm, 1).is_ok());
    assert!(turn.game_complete);
    assert_eq!(turn.win_data, (Some(Player::X), vec![(0, 0), (0, 1), (0, 2)]));
    assert_eq!(turn.settle(Ok(())).ok(), Some(true));
}

#[test]
fn full_board_finishes_as_draw() {
    let mut gm = GameMatrixWrapper([[1, 2, 1], [1, 2, 2], [2, 1, 1]]);
    let mut turn = PlayerTurn::default();
    assert_eq!(turn.begin_turn(&gm, None, true), TurnStep::Finished);
    assert!(turn.game_complete);
    turn.check_winner(&mut gm);
    assert_eq!(turn.win_data.0, None);
}

#[test]
fn record_keys_and_tools() {
    assert_eq!(RecordKey::CommandUsage.as_string(), "commandusage");
    assert_eq!(RecordKey::Custom("scores".to_string()).as_string(), "scores");
    assert_eq!(ToolsAnalytics::INIT.value(), "init");
    assert_eq!(ToolsAnalytics::START.value(), "start");
}

#[test]
fn usage_counters() {
    let mut rec = CommandUsageRecord::default();
    assert_eq!(rec.values, vec![("init".to_string(), 0), ("start".to_string(), 0)]);
    rec.record_use(ToolsAnalytics::START);
    rec.record_use(ToolsAnalytics::START);
    assert_eq!(rec.values, vec![("init".to_string(), 0), ("start".to_string(), 2)]);
    let mut partial = CommandUsageRecord { values: vec![("start".to_string(), i32::MAX)] };
    partial.record_use(ToolsAnalytics::INIT);
    partial.record_use(ToolsAnalytics::START);
    assert_eq!(partial.values, vec![("start".to_string(), i32::MAX), ("init".to_string(), 1)]);
}

#[test]
fn names() {
    let mut cfg = AppConfig::default();
    assert!(cfg.user.is_none());
    let e = cfg.set_user(String::new()).err().unwrap();
    assert_eq!(e.code, ResultCode::InvalidArgs);
    assert!(cfg.user.is_none());
    assert!(cfg.set_user("Ada".to_string()).is_ok());
    assert_eq!(cfg.user.as_deref(), Some("Ada"));
    assert_eq!(ArgsInit { name: Some(String::new()) }.given_name(), None);
    assert_eq!(ArgsInit { name: None }.given_name(), None);
    assert_eq!(ArgsInit { name: Some("Bo".to_string()) }.given_name(), Some("Bo".to_string()));
}
