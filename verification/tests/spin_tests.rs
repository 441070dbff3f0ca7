use slot_machine::par_table::ParTable;

fn srows(rows: &[(&str, &str)]) -> Vec<(String, String)> {
    rows.iter().map(|(a, b)| (a.to_string(), b.to_string())).collect()
}

fn jackpot_game() -> ParTable {
    let mut t = ParTable::default();
    let sym = srows(&[("BLANK", "BLANK"), ("BAR", "BAR"), ("JACKPOT", "JACKPOT")]);
    let pay = vec![("JACKPOT JACKPOT JACKPOT".to_string(), vec![400u64])];
    let reels = vec![
        vec!["BLANK".to_string(), "BLANK".to_string(), "BLANK".to_string()],
        vec!["JACKPOT".to_string(), "JACKPOT".to_string(), "JACKPOT".to_string()],
        vec!["BAR".to_string(), "BAR".to_string(), "BAR".to_string()],
    ];
    t.parse_from_records(&sym, &pay, &reels).unwrap();
    t
}

#[test]
fn scenario_jackpot_pays_four_hundred() {
    let t = jackpot_game();
    assert_eq!(t.symbols[0].mask, 1);
    assert_eq!(t.symbols[1].mask, 2);
    assert_eq!(t.symbols[2].mask, 4);
    let spin = t.spin_from_stops(&vec![1, 1, 1]);
    assert_eq!(spin, vec![4, 4, 4]);
    let (combo, win) = t.calculate_win(spin, 0).unwrap();
    assert_eq!(combo, vec![4, 4, 4]);
    assert_eq!(win, 400);
}

#[test]
fn no_match_reports_nothing() {
    let t = jackpot_game();
    let spin = t.spin_from_stops(&vec![0, 0, 0]);
    assert!(t.calculate_win(spin, 0).is_none());
}

#[test]
fn resolution_is_deterministic() {
    let t = jackpot_game();
    let a = t.calculate_win(t.spin_from_stops(&vec![1, 1, 1]), 0);
    let b = t.calculate_win(t.spin_from_stops(&vec![1, 1, 1]), 0);
    match (a, b) {
        (Some((c1, w1)), Some((c2, w2))) => {
            assert_eq!(c1, c2);
            assert_eq!(w1, w2);
        },
        _ => panic!("jackpot spin must win"),
    }
}

#[test]
fn highest_payout_wins_on_overlap() {
    let mut t = ParTable::default();
    let sym = srows(&[("SA", "SA"), ("SB", "SB"), ("ANY", "SA|SB")]);
    // the ANY pattern accepts everything the SA pattern accepts
    let pay = vec![
        ("ANY ANY ANY".to_string(), vec![5u64]),
        ("SA SA SA".to_string(), vec![10u64]),
    ];
    let reels = vec![vec!["SA".to_string(), "SA".to_string(), "SA".to_string()]];
    t.parse_from_records(&sym, &pay, &reels).unwrap();
    let spin = t.spin_from_stops(&vec![0, 0, 0]);
    let (combo, win) = t.calculate_win(spin, 0).unwrap();
    assert_eq!(win, 10);
    assert_eq!(combo, vec![1, 1, 1]);
}

#[test]
fn equal_payouts_go_to_earliest_entry() {
    let mut t = ParTable::default();
    let sym = srows(&[("SA", "SA"), ("SB", "SB"), ("ANY", "SA|SB")]);
    let pay = vec![
        ("ANY ANY ANY".to_string(), vec![5u64]),
        ("SA SA SA".to_string(), vec![5u64]),
    ];
    let reels = vec![vec!["SA".to_string(), "SA".to_string(), "SA".to_string()]];
    t.parse_from_records(&sym, &pay, &reels).unwrap();
    let spin = t.spin_from_stops(&vec![0, 0, 0]);
    let (combo, _) = t.calculate_win(spin, 0).unwrap();
    // the union pattern is listed first
    assert_eq!(combo, vec![4, 4, 4]);
}

#[test]
fn negation_wildcard_matches_all_but_itself() {
    let mut t = ParTable::default();
    let sym = srows(&[("X", "X"), ("Y", "Y"), ("W", "!")]);
    let pay = vec![("W".to_string(), vec![7u64])];
    let reels = vec![
        vec!["X".to_string()],
        vec!["Y".to_string()],
        vec!["W".to_string()],
    ];
    t.parse_from_records(&sym, &pay, &reels).unwrap();
    assert_eq!(t.calculate_win(t.spin_from_stops(&vec![0]), 0).unwrap().1, 7);
    assert_eq!(t.calculate_win(t.spin_from_stops(&vec![1]), 0).unwrap().1, 7);
    assert!(t.calculate_win(t.spin_from_stops(&vec![2]), 0).is_none());
}

#[test]
fn payout_levels_follow_bet() {
    let mut t = ParTable::default();
    let sym = srows(&[("A", "A")]);
    let pay = vec![("A".to_string(), vec![2u64, 4, 8])];
    let reels = vec![vec!["A".to_string()]];
    t.parse_from_records(&sym, &pay, &reels).unwrap();
    assert_eq!(t.max_bet, 3);
    for bet in 0..3usize {
        let spin = t.spin_from_stops(&vec![0]);
        let (_, win) = t.calculate_win(spin, bet).unwrap();
        assert_eq!(win, 2u64 << bet);
    }
}

#[test]
fn spin_from_stops_projects_columns() {
    let mut t = ParTable::default();
    let sym = srows(&[("A", "A"), ("B", "B"), ("C", "C")]);
    let pay = vec![("A A A".to_string(), vec![1u64])];
    let reels = vec![
        vec!["A".to_string(), "B".to_string(), "C".to_string()],
        vec!["C".to_string(), "A".to_string(), "B".to_string()],
    ];
    t.parse_from_records(&sym, &pay, &reels).unwrap();
    // stop 0 on reel 0, stop 1 on reel 1, stop 0 on reel 2
    let spin = t.spin_from_stops(&vec![0, 1, 0]);
    assert_eq!(spin, vec![1, 1, 4]);
}
