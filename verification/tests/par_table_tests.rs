use slot_machine::par_table::{ParTable, ParTableFiles, ParTableParseError};
use slot_machine::utils::format_binary;

fn srows(rows: &[(&str, &str)]) -> Vec<(String, String)> {
    rows.iter().map(|(a, b)| (a.to_string(), b.to_string())).collect()
}

#[test]
fn symbols_identity_union_negation() {
    let mut t = ParTable::default();
    let rows = srows(&[("A", "A"), ("B", "B"), ("W", "!"), ("U", "A|B")]);
    t.parse_symbols(&rows).unwrap();
    assert_eq!(t.symbols.len(), 4);
    assert_eq!(t.symbols[0].name, "A");
    assert_eq!(t.symbols[0].mask, 1);
    assert_eq!(t.symbols[1].mask, 2);
    // negation: every symbol declared before it, not itself
    assert_eq!(t.symbols[2].mask, 3);
    // union of A and B
    assert_eq!(t.symbols[3].mask, 3);
}

#[test]
fn union_may_reference_itself() {
    let mut t = ParTable::default();
    let rows = srows(&[("A", "A"), ("U", "A|U")]);
    t.parse_symbols(&rows).unwrap();
    assert_eq!(t.symbols[1].mask, 1 | 2);
}

#[test]
fn negation_mask_excludes_own_code() {
    let mut t = ParTable::default();
    let rows = srows(&[("A", "A"), ("B", "B"), ("C", "C"), ("W", "!")]);
    t.parse_symbols(&rows).unwrap();
    let w = &t.symbols[3];
    assert_eq!(w.mask & 8, 0);
    assert_eq!(w.mask & 1, 1);
    assert_eq!(w.mask & 2, 2);
    assert_eq!(w.mask & 4, 4);
}

#[test]
fn too_many_symbols_rejected() {
    let mut t = ParTable::default();
    let rows: Vec<(String, String)> =
        (0..65).map(|i| (format!("S{}", i), format!("S{}", i))).collect();
    assert!(matches!(
        t.parse_symbols(&rows),
        Err(ParTableParseError::TooMuchSymbolsError)
    ));
}

#[test]
fn sixty_four_symbols_accepted() {
    let mut t = ParTable::default();
    let rows: Vec<(String, String)> =
        (0..64).map(|i| (format!("S{}", i), format!("S{}", i))).collect();
    t.parse_symbols(&rows).unwrap();
    assert_eq!(t.symbols.len(), 64);
    assert_eq!(t.symbols[63].mask, 1u64 << 63);
}

#[test]
fn unknown_symbol_in_union_rejected() {
    let mut t = ParTable::default();
    let rows = srows(&[("A", "A"), ("U", "A|X")]);
    assert!(matches!(
        t.parse_symbols(&rows),
        Err(ParTableParseError::SymbolNotFoundError)
    ));
}

#[test]
fn duplicate_symbol_rejected() {
    let mut t = ParTable::default();
    let rows = srows(&[("A", "A"), ("A", "A")]);
    assert!(matches!(
        t.parse_symbols(&rows),
        Err(ParTableParseError::DuplicateSymbolError)
    ));
}

#[test]
fn empty_reference_means_identity() {
    let mut t = ParTable::default();
    t.parse_symbols(&srows(&[("A", "")])).unwrap();
    assert_eq!(t.symbols[0].mask, 1);
}

#[test]
fn empty_union_token_is_unknown() {
    let mut t = ParTable::default();
    let rows = srows(&[("A", "A"), ("B", "B"), ("U", "A||B")]);
    assert!(matches!(
        t.parse_symbols(&rows),
        Err(ParTableParseError::SymbolNotFoundError)
    ));
}

#[test]
fn union_takes_precedence_over_negation() {
    // a reference holding both separators is read as a union, so the `!`
    // piece must itself name a symbol
    let mut t = ParTable::default();
    let rows = srows(&[("A", "A"), ("W", "A|!")]);
    assert!(matches!(
        t.parse_symbols(&rows),
        Err(ParTableParseError::SymbolNotFoundError)
    ));
}

#[test]
fn combo_from_string_maps_codes() {
    let mut t = ParTable::default();
    t.parse_symbols(&srows(&[("JW", "JW"), ("AB", "AB")])).unwrap();
    let c = t.combo_from_string("JW AB JW", ' ').unwrap();
    assert_eq!(c, vec![1, 2, 1]);
    assert!(matches!(
        t.combo_from_string("JW XX", ' '),
        Err(ParTableParseError::SymbolNotFoundError)
    ));
}

#[test]
fn paytable_rows_must_share_length() {
    let mut t = ParTable::default();
    t.parse_symbols(&srows(&[("A", "A")])).unwrap();
    let rows = vec![
        ("A".to_string(), vec![5u64, 10]),
        ("A A".to_string(), vec![7u64]),
    ];
    assert!(matches!(
        t.parse_paytable(&rows),
        Err(ParTableParseError::MalformedRowError)
    ));
}

#[test]
fn paytable_sets_max_bet() {
    let mut t = ParTable::default();
    t.parse_symbols(&srows(&[("A", "A"), ("B", "B")])).unwrap();
    let rows = vec![
        ("A A".to_string(), vec![5u64, 10, 20]),
        ("B B".to_string(), vec![1u64, 2, 3]),
    ];
    t.parse_paytable(&rows).unwrap();
    assert_eq!(t.max_bet, 3);
    assert_eq!(t.paytable.len(), 2);
    assert_eq!(t.paytable[0].pattern, vec![1, 1]);
    assert_eq!(t.paytable[1].pays, vec![1, 2, 3]);
}

#[test]
fn empty_payout_vector_rejected() {
    let mut t = ParTable::default();
    t.parse_symbols(&srows(&[("A", "A")])).unwrap();
    let rows = vec![("A".to_string(), Vec::<u64>::new())];
    assert!(matches!(
        t.parse_paytable(&rows),
        Err(ParTableParseError::MalformedRowError)
    ));
}

#[test]
fn duplicate_pattern_rejected() {
    let mut t = ParTable::default();
    t.parse_symbols(&srows(&[("A", "A")])).unwrap();
    let rows = vec![
        ("A".to_string(), vec![5u64]),
        ("A".to_string(), vec![9u64]),
    ];
    assert!(matches!(
        t.parse_paytable(&rows),
        Err(ParTableParseError::MalformedRowError)
    ));
}

#[test]
fn reels_rows_must_share_width() {
    let mut t = ParTable::default();
    t.parse_symbols(&srows(&[("A", "A")])).unwrap();
    let rows = vec![
        vec!["A".to_string(), "A".to_string()],
        vec!["A".to_string()],
    ];
    assert!(matches!(
        t.parse_reels(&rows),
        Err(ParTableParseError::MalformedRowError)
    ));
}

#[test]
fn parse_from_records_checks_widths_agree() {
    let mut t = ParTable::default();
    let sym = srows(&[("A", "A")]);
    let pay = vec![("A A".to_string(), vec![5u64])];
    let reels = vec![vec!["A".to_string()]];
    assert!(matches!(
        t.parse_from_records(&sym, &pay, &reels),
        Err(ParTableParseError::MalformedRowError)
    ));
}

#[test]
fn parse_from_records_loads_whole_game() {
    let mut t = ParTable::default();
    let sym = srows(&[("X", "X"), ("Y", "Y")]);
    let pay = vec![("X X".to_string(), vec![5u64, 10])];
    let reels = vec![
        vec!["X".to_string(), "Y".to_string()],
        vec!["Y".to_string(), "X".to_string()],
    ];
    t.parse_from_records(&sym, &pay, &reels).unwrap();
    assert_eq!(t.max_bet, 2);
    assert_eq!(t.reels.len(), 2);
    assert_eq!(t.reels[0], vec![1, 2]);
    assert_eq!(t.reels[1], vec![2, 1]);
}

#[test]
fn files_sorted_into_roles() {
    let paths = vec![
        "data/generic/reels.csv".to_string(),
        "data/generic/paytable.csv".to_string(),
        "data/generic/symbols.csv".to_string(),
        "data/generic/notes.txt".to_string(),
    ];
    let f = ParTableFiles::try_from(&paths).unwrap();
    assert_eq!(f.reels_file, "data/generic/reels.csv");
    assert_eq!(f.paytable_file, "data/generic/paytable.csv");
    assert_eq!(f.symbols_file, "data/generic/symbols.csv");
}

#[test]
fn files_later_path_wins() {
    let paths = vec![
        "a/reels.csv".to_string(),
        "b/reels.csv".to_string(),
        "a/paytable.csv".to_string(),
        "a/symbols.csv".to_string(),
    ];
    let f = ParTableFiles::try_from(&paths).unwrap();
    assert_eq!(f.reels_file, "b/reels.csv");
}

#[test]
fn files_incomplete_set_rejected() {
    let paths = vec![
        "a/reels.csv".to_string(),
        "a/paytable.csv".to_string(),
    ];
    assert!(ParTableFiles::try_from(&paths).is_err());
}

#[test]
fn files_default_is_empty() {
    let f = ParTableFiles::default();
    assert_eq!(f.reels_file, "");
    assert_eq!(f.paytable_file, "");
    assert_eq!(f.symbols_file, "");
}

#[test]
fn parse_errors_carry_messages() {
    assert_eq!(
        ParTableParseError::TooMuchSymbolsError.message(),
        "Too much symbols in table (max 64)"
    );
    assert_eq!(
        ParTableParseError::SymbolNotFoundError.message(),
        "Symbol not found for pattern"
    );
    assert_eq!(
        ParTableParseError::DuplicateSymbolError.message(),
        "Symbol declared twice"
    );
    assert_eq!(
        ParTableParseError::MalformedRowError.message(),
        "Malformed table row"
    );
}

#[test]
fn symbol_name_found_by_code() {
    let mut t = ParTable::default();
    t.parse_symbols(&srows(&[("JW", "JW"), ("AB", "AB")])).unwrap();
    assert_eq!(t.symbol_name_of(1).unwrap(), "JW");
    assert_eq!(t.symbol_name_of(2).unwrap(), "AB");
    assert!(t.symbol_name_of(4).is_none());
    assert!(t.symbol_name_of(3).is_none());
}

#[test]
fn format_binary_groups_low_bytes() {
    assert_eq!(format_binary(5), "00000000 00000000 00000000 00000101");
    assert_eq!(
        format_binary(0x12345678),
        "00010010 00110100 01010110 01111000"
    );
    assert_eq!(format_binary(0), "00000000 00000000 00000000 00000000");
}
