use slot_machine::par_table::ParTable;
use slot_machine::protocol::{
    ClientCommand, ServerResponse, ServerStatus, Status, ERR_INSUFFICIENT_BALANCE,
    ERR_INVALID_BET, ERR_UNKNOWN_GAME,
};
use slot_machine::session::{ConnectionSession, GameCatalog, START_BALANCE};

fn srows(rows: &[(&str, &str)]) -> Vec<(String, String)> {
    rows.iter().map(|(a, b)| (a.to_string(), b.to_string())).collect()
}

fn jackpot_game() -> ParTable {
    let mut t = ParTable::default();
    let sym = srows(&[("BLANK", "BLANK"), ("JACKPOT", "JACKPOT")]);
    let pay = vec![("JACKPOT JACKPOT JACKPOT".to_string(), vec![400u64])];
    let reels = vec![
        vec!["BLANK".to_string(), "BLANK".to_string(), "BLANK".to_string()],
        vec!["JACKPOT".to_string(), "JACKPOT".to_string(), "JACKPOT".to_string()],
    ];
    t.parse_from_records(&sym, &pay, &reels).unwrap();
    t
}

fn catalog_with_jackpot() -> GameCatalog {
    let mut c = GameCatalog::new();
    c.insert("generic".to_string(), jackpot_game());
    c
}

#[test]
fn init_reports_balance_and_max_bet() {
    let c = catalog_with_jackpot();
    let mut s = ConnectionSession::new(0);
    assert!(s.selected_game.is_none());
    match s.handle_init(&c, "generic") {
        ServerResponse::Init { balance, max_bet } => {
            assert_eq!(balance, START_BALANCE as u64);
            assert_eq!(max_bet, 1);
        },
        other => panic!("unexpected response: {:?}", other),
    }
    assert_eq!(s.selected_game.as_deref(), Some("generic"));
}

#[test]
fn init_unknown_game_is_an_error() {
    let c = catalog_with_jackpot();
    let mut s = ConnectionSession::new(0);
    match s.handle_init(&c, "missing") {
        ServerResponse::Error { code, .. } => assert_eq!(code, ERR_UNKNOWN_GAME),
        other => panic!("unexpected response: {:?}", other),
    }
    assert!(s.selected_game.is_none());
}

#[test]
fn winning_play_updates_balance() {
    let t = jackpot_game();
    let mut s = ConnectionSession::new(0);
    match s.play_on_table(&t, 0, vec![1, 1, 1]) {
        ServerResponse::Spin { win, balance, result } => {
            assert_eq!(win, 400);
            assert_eq!(balance, (START_BALANCE - 1 + 400) as u64);
            assert_eq!(result, vec![1, 1, 1]);
        },
        other => panic!("unexpected response: {:?}", other),
    }
    assert_eq!(s.balance, START_BALANCE - 1 + 400);
}

#[test]
fn losing_play_costs_the_stake() {
    let t = jackpot_game();
    let mut s = ConnectionSession::new(0);
    match s.play_on_table(&t, 0, vec![0, 0, 0]) {
        ServerResponse::Spin { win, balance, .. } => {
            assert_eq!(win, 0);
            assert_eq!(balance, (START_BALANCE - 1) as u64);
        },
        other => panic!("unexpected response: {:?}", other),
    }
}

#[test]
fn scenario_bet_at_max_bet_is_an_error() {
    let t = jackpot_game();
    let mut s = ConnectionSession::new(0);
    // valid levels are 0 .. max_bet - 1, so max_bet itself is out of range
    match s.play_on_table(&t, t.max_bet as usize, vec![0, 0, 0]) {
        ServerResponse::Error { code, .. } => assert_eq!(code, ERR_INVALID_BET),
        other => panic!("unexpected response: {:?}", other),
    }
    assert_eq!(s.balance, START_BALANCE);
}

#[test]
fn uncovered_bet_is_refused_and_balance_unchanged() {
    let t = jackpot_game();
    let mut s = ConnectionSession::new(0);
    s.balance = 0;
    match s.play_on_table(&t, 0, vec![0, 0, 0]) {
        ServerResponse::Error { code, message } => {
            assert_eq!(code, ERR_INSUFFICIENT_BALANCE);
            assert_eq!(message, "Insufficent balance, thank you for playing !");
        },
        other => panic!("unexpected response: {:?}", other),
    }
    assert_eq!(s.balance, 0);
}

#[test]
fn balance_never_goes_negative_over_many_plays() {
    let t = jackpot_game();
    let mut s = ConnectionSession::new(0);
    for _ in 0..300 {
        let _ = s.play_on_table(&t, 0, vec![0, 0, 0]);
        assert!(s.balance >= 0);
    }
    // the balance bottomed out and the last plays were refused
    assert_eq!(s.balance, 0);
}

#[test]
fn huge_win_saturates_the_balance() {
    let mut t = ParTable::default();
    let sym = srows(&[("A", "A")]);
    let pay = vec![("A".to_string(), vec![u64::MAX])];
    let reels = vec![vec!["A".to_string()]];
    t.parse_from_records(&sym, &pay, &reels).unwrap();
    let mut s = ConnectionSession::new(0);
    match s.play_on_table(&t, 0, vec![0]) {
        ServerResponse::Spin { .. } => {},
        other => panic!("unexpected response: {:?}", other),
    }
    assert_eq!(s.balance, i64::MAX);
}

#[test]
fn status_tracks_average_latency_and_uptime() {
    let mut s = ConnectionSession::new(1_000);
    match s.handle_status(2_000, 5_000) {
        ServerResponse::Status(Status { server_status, uptime, latency }) => {
            assert_eq!(server_status, ServerStatus::Connected);
            assert_eq!(uptime, 4_000);
            assert_eq!(latency, 3_000);
        },
        other => panic!("unexpected response: {:?}", other),
    }
    // second sample of 5000 ns: average moves halfway
    match s.handle_status(5_000, 10_000) {
        ServerResponse::Status(Status { latency, .. }) => assert_eq!(latency, 4_000),
        other => panic!("unexpected response: {:?}", other),
    }
    assert_eq!(s.status_query_count, 3);
}

#[test]
fn status_from_the_future_counts_as_zero() {
    let mut s = ConnectionSession::new(0);
    match s.handle_status(10_000, 2_000) {
        ServerResponse::Status(Status { latency, .. }) => assert_eq!(latency, 0),
        other => panic!("unexpected response: {:?}", other),
    }
}

#[test]
fn status_default_is_stopped() {
    let st = Status::default();
    assert_eq!(st.server_status, ServerStatus::Stopped);
    assert_eq!(st.uptime, 0);
    assert_eq!(st.latency, 0);
}

#[test]
fn handle_command_play_draws_valid_stops() {
    let c = catalog_with_jackpot();
    let mut s = ConnectionSession::new(0);
    let cmd = ClientCommand::Play { game: "generic".to_string(), bet: 0 };
    match s.handle_command(&c, &cmd, 0) {
        ServerResponse::Spin { result, .. } => {
            assert_eq!(result.len(), 3);
            for stop in result {
                assert!(stop < 2);
            }
        },
        other => panic!("unexpected response: {:?}", other),
    }
}

#[test]
fn handle_command_unknown_game_is_an_error() {
    let c = catalog_with_jackpot();
    let mut s = ConnectionSession::new(0);
    let cmd = ClientCommand::Play { game: "missing".to_string(), bet: 0 };
    match s.handle_command(&c, &cmd, 0) {
        ServerResponse::Error { code, .. } => assert_eq!(code, ERR_UNKNOWN_GAME),
        other => panic!("unexpected response: {:?}", other),
    }
    assert_eq!(s.balance, START_BALANCE);
}

#[test]
fn scenario_two_sessions_share_catalog_independently() {
    let c = catalog_with_jackpot();
    let mut s1 = ConnectionSession::new(0);
    let mut s2 = ConnectionSession::new(0);
    // interleaved plays on the shared catalog
    let _ = s1.play_on_table(c.get("generic").unwrap(), 0, vec![1, 1, 1]);
    assert_eq!(s2.balance, START_BALANCE);
    let _ = s2.play_on_table(c.get("generic").unwrap(), 0, vec![0, 0, 0]);
    let _ = s1.play_on_table(c.get("generic").unwrap(), 0, vec![0, 0, 0]);
    assert_eq!(s1.balance, START_BALANCE - 1 + 400 - 1);
    assert_eq!(s2.balance, START_BALANCE - 1);
}

#[test]
fn catalog_insert_get_and_replace() {
    let mut c = GameCatalog::new();
    assert_eq!(c.len(), 0);
    assert!(c.get("generic").is_none());
    c.insert("generic".to_string(), jackpot_game());
    assert_eq!(c.len(), 1);
    assert_eq!(c.get("generic").unwrap().max_bet, 1);

    let mut other = ParTable::default();
    let sym = srows(&[("A", "A")]);
    let pay = vec![("A".to_string(), vec![3u64, 6])];
    let reels = vec![vec!["A".to_string()]];
    other.parse_from_records(&sym, &pay, &reels).unwrap();
    c.insert("generic".to_string(), other);
    assert_eq!(c.len(), 1);
    assert_eq!(c.get("generic").unwrap().max_bet, 2);
}
