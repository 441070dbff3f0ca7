//! The par table: a slot game's symbols, wildcard masks, paytable and reels.
//!
//! A par table describes (almost) every aspect of a slot game: the symbols in
//! play, the winning combos with their payouts per bet level, and the reel
//! strips the spins are drawn from. Symbols are encoded as distinct single-bit
//! codes assigned in declaration order, and each symbol carries a reference
//! mask: the union of codes it stands for when it appears in a winning
//! pattern. A pattern position matches a drawn symbol exactly when the drawn
//! code is contained in the pattern symbol's reference mask.

use vstd::prelude::*;

use crate::bits::{lemma_shl_injective, lemma_single_bit_positive, or_seq};
use crate::text::{
    contains_char, contains_sub, join_with_spaces, spec_contains_char, spec_contains_sub,
    spec_split, split_str, str_eq,
};

verus! {

/// Parsing errors raised when loading a game's tables.
#[derive(Clone, Copy, Debug, PartialEq, Eq, Structural)]
pub enum ParTableParseError {
    /// More distinct symbols were declared than the 64 bits of a code word can
    /// distinguish.
    TooMuchSymbolsError,
    /// An identifier did not name any declared symbol.
    SymbolNotFoundError,
    /// The same identifier was declared for two symbols.
    DuplicateSymbolError,
    /// A row disagreed with the shape the other rows establish.
    MalformedRowError,
}

impl ParTableParseError {
    /// A human-readable description of the error.
    pub fn message(&self) -> (r: String)
        ensures
            *self is TooMuchSymbolsError ==> r@ == "Too much symbols in table (max 64)"@,
            *self is SymbolNotFoundError ==> r@ == "Symbol not found for pattern"@,
            *self is DuplicateSymbolError ==> r@ == "Symbol declared twice"@,
            *self is MalformedRowError ==> r@ == "Malformed table row"@,
    {
        match self {
            ParTableParseError::TooMuchSymbolsError => {
                String::from_str("Too much symbols in table (max 64)")
            },
            ParTableParseError::SymbolNotFoundError => {
                String::from_str("Symbol not found for pattern")
            },
            ParTableParseError::DuplicateSymbolError => {
                String::from_str("Symbol declared twice")
            },
            ParTableParseError::MalformedRowError => String::from_str("Malformed table row"),
        }
    }
}

/// One declared symbol: its identifier and its reference mask.
pub struct SymbolEntry {
    /// The symbol's textual identifier.
    pub name: String,
    /// The union of the codes this symbol accepts when it stands in a
    /// winning pattern.
    pub mask: u64,
}

/// One winning pattern together with its payouts, indexed by bet level.
pub struct PayoutEntry {
    /// The pattern, one symbol code per reel position.
    pub pattern: Vec<u64>,
    /// The payout amounts; entry `b` pays out a bet at level `b`.
    pub pays: Vec<u64>,
}

/// The code of the symbol declared at position `i`: the `i`-th bit.
pub open spec fn sym_code(i: int) -> u64 {
    1u64 << (i as u64)
}

/// Whether `t` is one of `names`.
pub open spec fn name_known(names: Seq<Seq<char>>, t: Seq<char>) -> bool {
    exists|j: int| 0 <= j < names.len() && names[j] == t
}

/// The position of `t` in `names`.
pub open spec fn name_index(names: Seq<Seq<char>>, t: Seq<char>) -> int {
    choose|j: int| 0 <= j < names.len() && names[j] == t
}

/// A union reference expression: a `|`-separated list of symbol identifiers.
pub open spec fn ref_is_union(r: Seq<char>) -> bool {
    spec_contains_char(r, '|')
}

/// The identifiers listed in a union reference expression.
pub open spec fn union_tokens(r: Seq<char>) -> Seq<Seq<char>> {
    spec_split(r, '|')
}

/// Whether every identifier of the union expression `r` is one of `names`.
pub open spec fn union_tokens_known(names: Seq<Seq<char>>, r: Seq<char>) -> bool {
    forall|k: int|
        0 <= k < union_tokens(r).len() ==> name_known(names, #[trigger] union_tokens(r)[k])
}

/// The mask a union reference expression denotes: the union of the codes of
/// the listed symbols.
pub open spec fn union_mask(names: Seq<Seq<char>>, r: Seq<char>) -> u64 {
    or_seq(union_tokens(r).map_values(|t: Seq<char>| sym_code(name_index(names, t))))
}

/// The identifiers of a sequence of symbol rows.
pub open spec fn names_of(rows: Seq<(Seq<char>, Seq<char>)>) -> Seq<Seq<char>> {
    rows.map_values(|p: (Seq<char>, Seq<char>)| p.0)
}

/// The character-level view of a sequence of symbol rows.
pub open spec fn symbol_rows_model(rows: Seq<(String, String)>) -> Seq<(Seq<char>, Seq<char>)> {
    rows.map_values(|p: (String, String)| (p.0@, p.1@))
}

/// Why loading the symbol rows fails at row `i`, if it does. A row can fail
/// because it would be the 65th symbol, because it re-declares an identifier,
/// or because its union reference names an identifier not declared yet (a
/// symbol may reference itself: its own row counts as declared).
pub open spec fn spec_symbol_row_fail(rows: Seq<(Seq<char>, Seq<char>)>, i: int) -> Option<
    ParTableParseError,
> {
    let names = names_of(rows).take(i);
    if i >= 64 {
        Some(ParTableParseError::TooMuchSymbolsError)
    } else if name_known(names, rows[i].0) {
        Some(ParTableParseError::DuplicateSymbolError)
    } else if ref_is_union(rows[i].1) && !union_tokens_known(names.push(rows[i].0), rows[i].1) {
        Some(ParTableParseError::SymbolNotFoundError)
    } else {
        None
    }
}

/// Whether every symbol row loads.
pub open spec fn spec_symbol_rows_ok(rows: Seq<(Seq<char>, Seq<char>)>) -> bool {
    forall|i: int| 0 <= i < rows.len() ==> #[trigger] spec_symbol_row_fail(rows, i) is None
}

/// The reference mask row `i` denotes: the union of the named codes for a
/// `|` expression, every earlier symbol's code for a `!` expression, and the
/// symbol's own code otherwise.
pub open spec fn spec_row_mask(rows: Seq<(Seq<char>, Seq<char>)>, i: int) -> u64 {
    let names_incl = names_of(rows).take(i + 1);
    if ref_is_union(rows[i].1) {
        union_mask(names_incl, rows[i].1)
    } else if spec_contains_char(rows[i].1, '!') {
        (sym_code(i) - 1) as u64
    } else {
        sym_code(i)
    }
}

/// The shape `parse_symbols` gives the symbol table: one entry per row, in
/// row order, with the mask each row denotes.
pub open spec fn symbols_loaded_from(t: ParTable, rows: Seq<(Seq<char>, Seq<char>)>) -> bool {
    &&& t.symbols@.len() == rows.len()
    &&& rows.len() <= 64
    &&& forall|i: int| 0 <= i < rows.len() ==> (#[trigger] t.symbols@[i]).name@ == rows[i].0
    &&& forall|i: int| 0 <= i < rows.len() ==> (#[trigger] t.symbols@[i]).mask == spec_row_mask(
        rows,
        i,
    )
}

/// Whether every identifier of the `d`-separated pattern `s` names one of
/// `names`.
pub open spec fn combo_tokens_known(names: Seq<Seq<char>>, s: Seq<char>, d: char) -> bool {
    forall|k: int|
        0 <= k < spec_split(s, d).len() ==> name_known(names, #[trigger] spec_split(s, d)[k])
}

/// The codes of the `d`-separated pattern `s`, one per identifier.
pub open spec fn spec_combo_codes(names: Seq<Seq<char>>, s: Seq<char>, d: char) -> Seq<u64> {
    spec_split(s, d).map_values(|t: Seq<char>| sym_code(name_index(names, t)))
}

/// The character-level view of a sequence of paytable rows.
pub open spec fn pay_rows_model(rows: Seq<(String, Vec<u64>)>) -> Seq<(Seq<char>, Seq<u64>)> {
    rows.map_values(|p: (String, Vec<u64>)| (p.0@, p.1@))
}

/// Why loading the paytable rows fails at row `i`, if it does: a payout
/// vector that is empty or not as long as the first row's, an identifier that
/// names no symbol, a pattern not as wide as the first row's, or a pattern
/// already listed by an earlier row.
pub open spec fn spec_pay_row_fail(
    names: Seq<Seq<char>>,
    rows: Seq<(Seq<char>, Seq<u64>)>,
    i: int,
) -> Option<ParTableParseError> {
    if rows[i].1.len() == 0 || rows[i].1.len() != rows[0].1.len() {
        Some(ParTableParseError::MalformedRowError)
    } else if !combo_tokens_known(names, rows[i].0, ' ') {
        Some(ParTableParseError::SymbolNotFoundError)
    } else if spec_split(rows[i].0, ' ').len() != spec_split(rows[0].0, ' ').len() {
        Some(ParTableParseError::MalformedRowError)
    } else if exists|j: int|
        0 <= j < i && #[trigger] spec_combo_codes(names, rows[j].0, ' ') == spec_combo_codes(
            names,
            rows[i].0,
            ' ',
        ) {
        Some(ParTableParseError::MalformedRowError)
    } else {
        None
    }
}

/// Whether every paytable row loads.
pub open spec fn spec_pay_rows_ok(names: Seq<Seq<char>>, rows: Seq<(Seq<char>, Seq<u64>)>) -> bool {
    forall|i: int| 0 <= i < rows.len() ==> #[trigger] spec_pay_row_fail(names, rows, i) is None
}

/// The shape `parse_paytable` gives the paytable: one entry per row, in row
/// order, and `max_bet` the common payout-vector length.
pub open spec fn paytable_loaded_from(t: ParTable, rows: Seq<(Seq<char>, Seq<u64>)>) -> bool {
    &&& t.paytable@.len() == rows.len()
    &&& forall|i: int|
        0 <= i < rows.len() ==> (#[trigger] t.paytable@[i]).pattern@ == spec_combo_codes(
            t.spec_names(),
            rows[i].0,
            ' ',
        )
    &&& forall|i: int| 0 <= i < rows.len() ==> (#[trigger] t.paytable@[i]).pays@ == rows[i].1
    &&& if rows.len() > 0 {
        t.max_bet == rows[0].1.len()
    } else {
        t.max_bet == 1
    }
}

/// The character-level view of a sequence of reel rows.
pub open spec fn reel_rows_model(rows: Seq<Vec<String>>) -> Seq<Seq<Seq<char>>> {
    rows.map_values(|row: Vec<String>| row@.map_values(|s: String| s@))
}

/// The combo a reel row denotes: its cells joined with spaces and read as a
/// space-separated pattern.
pub open spec fn spec_reel_row_text(row: Seq<Seq<char>>) -> Seq<char> {
    crate::text::spec_join(row, ' ')
}

/// Why loading the reel rows fails at row `i`, if it does: a cell that names
/// no symbol, or a row not as wide as the first row.
pub open spec fn spec_reel_row_fail(
    names: Seq<Seq<char>>,
    rows: Seq<Seq<Seq<char>>>,
    i: int,
) -> Option<ParTableParseError> {
    if !combo_tokens_known(names, spec_reel_row_text(rows[i]), ' ') {
        Some(ParTableParseError::SymbolNotFoundError)
    } else if spec_split(spec_reel_row_text(rows[i]), ' ').len() != spec_split(
        spec_reel_row_text(rows[0]),
        ' ',
    ).len() {
        Some(ParTableParseError::MalformedRowError)
    } else {
        None
    }
}

/// Whether every reel row loads.
pub open spec fn spec_reel_rows_ok(names: Seq<Seq<char>>, rows: Seq<Seq<Seq<char>>>) -> bool {
    forall|i: int| 0 <= i < rows.len() ==> #[trigger] spec_reel_row_fail(names, rows, i) is None
}

/// The shape `parse_reels` gives the reels: one stop per row, in row order.
pub open spec fn reels_loaded_from(t: ParTable, rows: Seq<Seq<Seq<char>>>) -> bool {
    &&& t.reels@.len() == rows.len()
    &&& forall|i: int|
        0 <= i < rows.len() ==> (#[trigger] t.reels@[i])@ == spec_combo_codes(
            t.spec_names(),
            spec_reel_row_text(rows[i]),
            ' ',
        )
}

/// Whether a whole game loads: each of the three record sets loads, and the
/// paytable patterns are as wide as the reel rows where both are present.
pub open spec fn spec_game_rows_ok(
    sm: Seq<(Seq<char>, Seq<char>)>,
    pm: Seq<(Seq<char>, Seq<u64>)>,
    rm: Seq<Seq<Seq<char>>>,
) -> bool {
    let names = names_of(sm);
    &&& spec_symbol_rows_ok(sm)
    &&& spec_pay_rows_ok(names, pm)
    &&& spec_reel_rows_ok(names, rm)
    &&& (pm.len() == 0 || rm.len() == 0 || spec_split(pm[0].0, ' ').len() == spec_split(
        spec_reel_row_text(rm[0]),
        ' ',
    ).len())
}

/// Holds a game's information and can calculate the winnings given a set of
/// random reel indexes.
///
/// It uses a bitmask representation of symbols in order to generate the
/// required reference symbols and check for combos using bitwise operations.
pub struct ParTable {
    /// The declared symbols, in declaration order; the symbol at position `i`
    /// has code `1 << i`.
    pub symbols: Vec<SymbolEntry>,
    /// The winning patterns with their payouts.
    pub paytable: Vec<PayoutEntry>,
    /// The reel strips, stored by rows: one row per stop, one column per reel.
    pub reels: Vec<Vec<u64>>,
    /// Number of payouts every combo of the game carries; the bet levels are
    /// `0 .. max_bet`.
    pub max_bet: u64,
}

impl ParTable {
    /// The identifiers of the declared symbols, in declaration order.
    pub open spec fn spec_names(self) -> Seq<Seq<char>> {
        self.symbols@.map_values(|e: SymbolEntry| e.name@)
    }

    /// No identifier is declared twice.
    pub open spec fn names_distinct(self) -> bool {
        forall|i: int, j: int|
            0 <= i < j < self.symbols@.len() ==> self.spec_names()[i] != self.spec_names()[j]
    }

    /// Whether `code` is the code of a declared symbol.
    pub open spec fn has_code(self, code: u64) -> bool {
        exists|i: int| 0 <= i < self.symbols@.len() && sym_code(i) == code
    }

    /// The declaration position of the symbol with code `code`.
    pub open spec fn code_index(self, code: u64) -> int {
        choose|i: int| 0 <= i < self.symbols@.len() && sym_code(i) == code
    }

    /// The reference mask of the symbol with code `code`.
    pub open spec fn spec_mask_of(self, code: u64) -> u64 {
        self.symbols@[self.code_index(code)].mask
    }

    /// The number of reel positions of the game: the width of the reel rows,
    /// or of the patterns where no reels are loaded.
    pub open spec fn spec_n_reels(self) -> nat {
        if self.reels@.len() > 0 {
            self.reels@[0]@.len()
        } else if self.paytable@.len() > 0 {
            self.paytable@[0].pattern@.len()
        } else {
            0
        }
    }

    /// Well-formedness: at most 64 symbols with distinct identifiers, every
    /// pattern and every reel row as wide as the game, every payout vector
    /// exactly `max_bet` long, and every code in a pattern or on a reel the
    /// code of a declared symbol.
    pub open spec fn wf(self) -> bool {
        &&& self.symbols@.len() <= 64
        &&& self.names_distinct()
        &&& self.max_bet >= 1
        &&& forall|e: int|
            0 <= e < self.paytable@.len() ==> (#[trigger] self.paytable@[e]).pattern@.len()
                == self.spec_n_reels()
        &&& forall|e: int|
            0 <= e < self.paytable@.len() ==> (#[trigger] self.paytable@[e]).pays@.len()
                == self.max_bet
        &&& forall|e: int, i: int|
            0 <= e < self.paytable@.len() && 0 <= i < self.paytable@[e].pattern@.len()
                ==> self.has_code(#[trigger] self.paytable@[e].pattern@[i])
        &&& forall|r: int|
            0 <= r < self.reels@.len() ==> (#[trigger] self.reels@[r])@.len()
                == self.spec_n_reels()
        &&& forall|r: int, i: int|
            0 <= r < self.reels@.len() && 0 <= i < self.reels@[r]@.len() ==> self.has_code(
                #[trigger] self.reels@[r]@[i],
            )
    }

    /// Initializes the par table with empty fields.
    pub fn default() -> (r: ParTable)
        ensures
            r.symbols@.len() == 0,
            r.paytable@.len() == 0,
            r.reels@.len() == 0,
            r.max_bet == 1,
            r.wf(),
    {
        ParTable { symbols: Vec::new(), paytable: Vec::new(), reels: Vec::new(), max_bet: 1 }
    }

    /// Looks a symbol up by its identifier.
    pub fn find_symbol(&self, name: &str) -> (r: Option<usize>)
        ensures
            match r {
                Some(i) => i < self.symbols@.len() && self.symbols@[i as int].name@ == name@,
                None => forall|j: int|
                    0 <= j < self.symbols@.len() ==> (#[trigger] self.symbols@[j]).name@ != name@,
            },
    {
        let mut i: usize = 0;
        while i < self.symbols.len()
            invariant
                i <= self.symbols@.len(),
                forall|j: int| 0 <= j < i ==> (#[trigger] self.symbols@[j]).name@ != name@,
            decreases self.symbols@.len() - i,
        {
            if str_eq(self.symbols[i].name.as_str(), name) {
                return Some(i);
            }
            i = i + 1;
        }
        None
    }

    /// The identifier of the symbol with the given code, if one is declared.
    pub fn symbol_name_of(&self, code: u64) -> (r: Option<&String>)
        requires
            self.symbols@.len() <= 64,
        ensures
            match r {
                Some(name) => self.has_code(code) && name@ == self.symbols@[self.code_index(
                    code,
                )].name@,
                None => !self.has_code(code),
            },
    {
        let mut i: usize = 0;
        #[verifier::loop_isolation(false)]
        while i < self.symbols.len()
            invariant
                i <= self.symbols@.len(),
                forall|j: int| 0 <= j < i ==> sym_code(j) != code,
            decreases self.symbols@.len() - i,
        {
            if (1u64 << (i as u64)) == code {
                proof {
                    assert(sym_code(i as int) == code);
                    assert(self.has_code(code));
                    let j = self.code_index(code);
                    assert(0 <= j < self.symbols@.len() && sym_code(j) == code);
                    lemma_shl_injective(i as u64, j as u64);
                }
                return Some(&self.symbols[i].name);
            }
            i = i + 1;
        }
        proof {
            if self.has_code(code) {
                let j = self.code_index(code);
                assert(0 <= j < self.symbols@.len() && sym_code(j) == code);
            }
        }
        None
    }

    /// The reference mask of the symbol with the given code.
    pub fn mask_for_code(&self, code: u64) -> (r: u64)
        requires
            self.symbols@.len() <= 64,
            self.has_code(code),
        ensures
            r == self.spec_mask_of(code),
    {
        let mut i: usize = 0;
        #[verifier::loop_isolation(false)]
        while i < self.symbols.len()
            invariant
                self.symbols@.len() <= 64,
                i <= self.symbols@.len(),
                forall|j: int| 0 <= j < i ==> sym_code(j) != code,
            decreases self.symbols@.len() - i,
        {
            if (1u64 << (i as u64)) == code {
                proof {
                    let j = self.code_index(code);
                    assert(0 <= j < self.symbols@.len() && sym_code(j) == code);
                    lemma_shl_injective(i as u64, j as u64);
                }
                return self.symbols[i].mask;
            }
            i = i + 1;
        }
        proof {
            let j = self.code_index(code);
            assert(0 <= j < self.symbols@.len() && sym_code(j) == code);
            assert(false);
        }
        0
    }

    /// Reads the symbol declarations: one `(identifier, reference)` row per
    /// symbol. Each symbol receives the next single-bit code in declaration
    /// order; its reference expression denotes the mask of symbols it stands
    /// for: a `|`-separated list denotes their union, a `!` denotes every
    /// symbol except this one (that is, every symbol declared before it), and
    /// anything else denotes the symbol itself.
    pub fn parse_symbols(&mut self, rows: &Vec<(String, String)>) -> (r: Result<
        (),
        ParTableParseError,
    >)
        requires
            old(self).symbols@.len() == 0,
        ensures
            final(self).paytable == old(self).paytable,
            final(self).reels == old(self).reels,
            final(self).max_bet == old(self).max_bet,
            r is Ok <==> spec_symbol_rows_ok(symbol_rows_model(rows@)),
            r is Ok ==> symbols_loaded_from(*final(self), symbol_rows_model(rows@))
                && final(self).names_distinct(),
            r matches Err(e) ==> exists|i: int|
                0 <= i < rows@.len() && #[trigger] spec_symbol_row_fail(
                    symbol_rows_model(rows@),
                    i,
                ) == Some(e) && (forall|j: int|
                    0 <= j < i ==> #[trigger] spec_symbol_row_fail(
                        symbol_rows_model(rows@),
                        j,
                    ) is None),
    {
        let ghost rows_m = symbol_rows_model(rows@);
        let mut i: usize = 0;
        #[verifier::loop_isolation(false)]
        while i < rows.len()
            invariant
                rows_m == symbol_rows_model(rows@),
                i <= rows@.len(),
                i <= 64,
                self.symbols@.len() == i,
                self.paytable == old(self).paytable,
                self.reels == old(self).reels,
                self.max_bet == old(self).max_bet,
                forall|j: int| 0 <= j < i ==> #[trigger] spec_symbol_row_fail(rows_m, j) is None,
                forall|j: int| 0 <= j < i ==> (#[trigger] self.symbols@[j]).name@ == rows_m[j].0,
                forall|j: int|
                    0 <= j < i ==> (#[trigger] self.symbols@[j]).mask == spec_row_mask(rows_m, j),
                self.names_distinct(),
            decreases rows@.len() - i,
        {
            if i >= 64 {
                proof {
                    assert(spec_symbol_row_fail(rows_m, i as int) == Some(
                        ParTableParseError::TooMuchSymbolsError,
                    ));
                }
                return Err(ParTableParseError::TooMuchSymbolsError);
            }
            let pair = &rows[i];
            proof {
                assert(rows_m[i as int] == (pair.0@, pair.1@));
            }
            if self.find_symbol(pair.0.as_str()).is_some() {
                proof {
                    let j = choose|j: int|
                        0 <= j < self.symbols@.len() && self.symbols@[j].name@ == pair.0@;
                    assert(self.symbols@.len() == i);
                    assert(names_of(rows_m).take(i as int)[j] == rows_m[j].0);
                    assert(name_known(names_of(rows_m).take(i as int), rows_m[i as int].0));
                    assert(spec_symbol_row_fail(rows_m, i as int) == Some(
                        ParTableParseError::DuplicateSymbolError,
                    ));
                }
                return Err(ParTableParseError::DuplicateSymbolError);
            }
            proof {
                assert forall|j: int|
                    0 <= j < names_of(rows_m).take(i as int).len() implies names_of(rows_m).take(
                    i as int,
                )[j] != rows_m[i as int].0 by {
                    assert(names_of(rows_m).take(i as int)[j] == self.symbols@[j].name@);
                }
                assert(!name_known(names_of(rows_m).take(i as int), rows_m[i as int].0));
            }
            let refexpr = pair.1.as_str();
            let ghost names_incl = names_of(rows_m).take(i + 1);
            proof {
                assert(names_incl =~= names_of(rows_m).take(i as int).push(rows_m[i as int].0));
                assert(names_incl[i as int] == pair.0@);
            }
            let mask: u64;
            if contains_char(refexpr, '|') {
                let toks = split_str(refexpr, '|');
                let ghost toks_m = toks@.map_values(|t: String| t@);
                proof {
                    assert(toks_m == union_tokens(rows_m[i as int].1));
                }
                let ghost codes = toks_m.map_values(
                    |t: Seq<char>| sym_code(name_index(names_incl, t)),
                );
                let mut acc: u64 = 0;
                let mut k: usize = 0;
                proof {
                    assert(codes.take(0) =~= Seq::<u64>::empty());
                }
                #[verifier::loop_isolation(false)]
                while k < toks.len()
                    invariant
                        toks_m == toks@.map_values(|t: String| t@),
                        codes == toks_m.map_values(
                            |t: Seq<char>| sym_code(name_index(names_incl, t)),
                        ),
                        k <= toks@.len(),
                        acc == or_seq(codes.take(k as int)),
                        forall|m: int| 0 <= m < k ==> name_known(names_incl, toks_m[m]),
                        self.symbols@.len() == i,
                        i < 64,
                        names_incl == names_of(rows_m).take(i + 1),
                        names_incl[i as int] == pair.0@,
                        forall|j: int|
                            0 <= j < i ==> names_incl[j] == (#[trigger] self.symbols@[j]).name@,
                        forall|j: int|
                            0 <= j < self.symbols@.len() ==> (#[trigger] self.symbols@[j]).name@
                                != pair.0@,
                        self.names_distinct(),
                    decreases toks@.len() - k,
                {
                    let t = &toks[k];
                    let code: u64;
                    if str_eq(t.as_str(), pair.0.as_str()) {
                        code = 1u64 << (i as u64);
                        proof {
                            assert(name_known(names_incl, toks_m[k as int]));
                            let j = name_index(names_incl, toks_m[k as int]);
                            assert(0 <= j < names_incl.len() && names_incl[j] == toks_m[k as int]);
                            if j < i {
                                assert(self.symbols@[j].name@ == pair.0@);
                                assert(false);
                            }
                            assert(code == sym_code(j));
                        }
                    } else {
                        match self.find_symbol(t.as_str()) {
                            Some(jx) => {
                                proof {
                                    assert(jx < 64);
                                }
                                code = 1u64 << (jx as u64);
                                proof {
                                    assert(names_incl[jx as int] == toks_m[k as int]);
                                    assert(name_known(names_incl, toks_m[k as int]));
                                    let j = name_index(names_incl, toks_m[k as int]);
                                    assert(0 <= j < names_incl.len() && names_incl[j] == toks_m[k as int]);
                                    if j == i {
                                        assert(toks_m[k as int] == pair.0@);
                                        assert(false);
                                    }
                                    if j != jx {
                                        assert(self.spec_names()[j] == self.symbols@[j].name@);
                                        assert(self.spec_names()[jx as int] == self.symbols@[
                                            jx as int
                                        ].name@);
                                        assert(false);
                                    }
                                    assert(code == sym_code(j));
                                }
                            },
                            None => {
                                proof {
                                    assert forall|j: int|
                                        0 <= j < names_incl.len() implies names_incl[j] != toks_m[k as int] by {
                                        if j < i {
                                            assert(names_incl[j] == self.symbols@[j].name@);
                                        }
                                    }
                                    assert(!name_known(names_incl, toks_m[k as int]));
                                    assert(ref_is_union(rows_m[i as int].1));
                                    assert(!union_tokens_known(names_incl, rows_m[i as int].1));
                                    assert(names_incl =~= names_of(rows_m).take(i as int).push(
                                        rows_m[i as int].0,
                                    ));
                                    assert(spec_symbol_row_fail(rows_m, i as int) == Some(
                                        ParTableParseError::SymbolNotFoundError,
                                    ));
                                }
                                return Err(ParTableParseError::SymbolNotFoundError);
                            },
                        }
                    }
                    acc = acc | code;
                    proof {
                        assert(codes.take(k + 1).drop_last() =~= codes.take(k as int));
                        assert(codes.take(k + 1).last() == codes[k as int]);
                        assert(codes[k as int] == code);
                    }
                    k = k + 1;
                }
                mask = acc;
                proof {
                    assert(codes.take(toks_m.len() as int) =~= codes);
                    assert(mask == union_mask(names_incl, rows_m[i as int].1));
                    assert(union_tokens_known(names_incl, rows_m[i as int].1));
                    assert(names_incl =~= names_of(rows_m).take(i as int).push(
                        rows_m[i as int].0,
                    ));
                    assert(spec_symbol_row_fail(rows_m, i as int) is None);
                    assert(mask == spec_row_mask(rows_m, i as int));
                }
            } else if contains_char(refexpr, '!') {
                proof {
                    lemma_single_bit_positive(i as u64);
                    assert(spec_symbol_row_fail(rows_m, i as int) is None);
                }
                mask = (1u64 << (i as u64)) - 1;
                proof {
                    assert(mask == spec_row_mask(rows_m, i as int));
                }
            } else {
                mask = 1u64 << (i as u64);
                proof {
                    assert(spec_symbol_row_fail(rows_m, i as int) is None);
                    assert(mask == spec_row_mask(rows_m, i as int));
                }
            }
            let name = pair.0.clone();
            let ghost pre = *self;
            self.symbols.push(SymbolEntry { name, mask });
            proof {
                assert(self.symbols@[i as int].name@ == rows_m[i as int].0);
                assert forall|a: int, b: int|
                    0 <= a < b < self.symbols@.len() implies self.spec_names()[a]
                    != self.spec_names()[b] by {
                    assert(self.spec_names()[a] == self.symbols@[a].name@);
                    assert(self.spec_names()[b] == self.symbols@[b].name@);
                    if b < i {
                        assert(pre.spec_names()[a] == pre.symbols@[a].name@);
                        assert(pre.spec_names()[b] == pre.symbols@[b].name@);
                        assert(pre.spec_names()[a] != pre.spec_names()[b]);
                    } else {
                        assert(self.symbols@[b].name@ == rows_m[i as int].0);
                        assert(pre.symbols@[a].name@ != pair.0@);
                    }
                }
            }
            i = i + 1;
        }
        proof {
            assert(rows_m.len() == rows@.len());
        }
        Ok(())
    }

    /// Reads a `delimiter`-separated list of symbol identifiers as a combo:
    /// the sequence of their codes.
    pub fn combo_from_string(&self, s: &str, delimiter: char) -> (r: Result<
        Vec<u64>,
        ParTableParseError,
    >)
        requires
            self.names_distinct(),
            self.symbols@.len() <= 64,
        ensures
            r is Ok <==> combo_tokens_known(self.spec_names(), s@, delimiter),
            r matches Ok(c) ==> c@ == spec_combo_codes(self.spec_names(), s@, delimiter),
            r matches Ok(c) ==> forall|k: int| 0 <= k < c@.len() ==> self.has_code(#[trigger] c@[k]),
            r matches Err(e) ==> e == ParTableParseError::SymbolNotFoundError,
    {
        let ghost names = self.spec_names();
        let toks = split_str(s, delimiter);
        let ghost toks_m = toks@.map_values(|t: String| t@);
        let ghost codes = toks_m.map_values(|t: Seq<char>| sym_code(name_index(names, t)));
        proof {
            assert(toks_m == spec_split(s@, delimiter));
            assert(codes == spec_combo_codes(names, s@, delimiter));
            assert(codes.take(0) =~= Seq::<u64>::empty());
        }
        let mut c: Vec<u64> = Vec::new();
        let mut k: usize = 0;
        #[verifier::loop_isolation(false)]
        while k < toks.len()
            invariant
                k <= toks@.len(),
                c@ == codes.take(k as int),
                forall|m: int| 0 <= m < k ==> name_known(names, toks_m[m]),
                forall|m: int| 0 <= m < k ==> self.has_code(#[trigger] codes[m]),
            decreases toks@.len() - k,
        {
            let t = &toks[k];
            match self.find_symbol(t.as_str()) {
                Some(j) => {
                    let code = 1u64 << (j as u64);
                    proof {
                        assert(names[j as int] == self.symbols@[j as int].name@);
                        assert(names[j as int] == toks_m[k as int]);
                        assert(name_known(names, toks_m[k as int]));
                        let jj = name_index(names, toks_m[k as int]);
                        assert(0 <= jj < names.len() && names[jj] == toks_m[k as int]);
                        if jj != j {
                            assert(names[jj] != names[j as int]);
                            assert(false);
                        }
                        assert(code == sym_code(jj));
                        assert(self.has_code(code));
                        assert(codes[k as int] == code);
                        assert(codes.take(k + 1) =~= codes.take(k as int).push(code));
                    }
                    c.push(code);
                },
                None => {
                    proof {
                        assert forall|j: int| 0 <= j < names.len() implies names[j] != toks_m[k as int] by {
                            assert(names[j] == self.symbols@[j].name@);
                        }
                        assert(!name_known(names, toks_m[k as int]));
                        assert(!combo_tokens_known(names, s@, delimiter));
                    }
                    return Err(ParTableParseError::SymbolNotFoundError);
                },
            }
            k = k + 1;
        }
        proof {
            assert(codes.take(toks_m.len() as int) =~= codes);
        }
        Ok(c)
    }

    /// Reads the paytable: one `(pattern, payouts)` row per winning combo.
    /// The patterns are space-separated identifier lists, all of one width
    /// and all distinct; the payout vectors all have one length, which
    /// becomes `max_bet`.
    pub fn parse_paytable(&mut self, rows: &Vec<(String, Vec<u64>)>) -> (r: Result<
        (),
        ParTableParseError,
    >)
        requires
            old(self).names_distinct(),
            old(self).symbols@.len() <= 64,
            old(self).paytable@.len() == 0,
            old(self).max_bet == 1,
        ensures
            final(self).symbols == old(self).symbols,
            final(self).reels == old(self).reels,
            r is Ok <==> spec_pay_rows_ok(final(self).spec_names(), pay_rows_model(rows@)),
            r is Ok ==> paytable_loaded_from(*final(self), pay_rows_model(rows@)),
            r matches Err(e) ==> exists|i: int|
                0 <= i < rows@.len() && #[trigger] spec_pay_row_fail(
                    final(self).spec_names(),
                    pay_rows_model(rows@),
                    i,
                ) == Some(e) && (forall|j: int|
                    0 <= j < i ==> #[trigger] spec_pay_row_fail(
                        final(self).spec_names(),
                        pay_rows_model(rows@),
                        j,
                    ) is None),
    {
        let ghost rows_m = pay_rows_model(rows@);
        let ghost names = old(self).spec_names();
        let mut i: usize = 0;
        #[verifier::loop_isolation(false)]
        while i < rows.len()
            invariant
                rows_m == pay_rows_model(rows@),
                i <= rows@.len(),
                self.symbols == old(self).symbols,
                self.reels == old(self).reels,
                names == self.spec_names(),
                self.names_distinct(),
                self.symbols@.len() <= 64,
                self.paytable@.len() == i,
                i > 0 ==> self.max_bet == rows_m[0].1.len(),
                i == 0 ==> self.max_bet == 1,
                i > 0 ==> rows_m[0].1.len() >= 1,
                forall|j: int|
                    0 <= j < i ==> #[trigger] spec_pay_row_fail(names, rows_m, j) is None,
                forall|j: int|
                    0 <= j < i ==> (#[trigger] self.paytable@[j]).pattern@ == spec_combo_codes(
                        names,
                        rows_m[j].0,
                        ' ',
                    ),
                forall|j: int|
                    0 <= j < i ==> (#[trigger] self.paytable@[j]).pays@ == rows_m[j].1,
            decreases rows@.len() - i,
        {
            let row = &rows[i];
            proof {
                assert(rows_m[i as int] == (row.0@, row.1@));
            }
            if row.1.len() == 0 {
                proof {
                    assert(spec_pay_row_fail(names, rows_m, i as int) == Some(
                        ParTableParseError::MalformedRowError,
                    ));
                }
                return Err(ParTableParseError::MalformedRowError);
            }
            if i == 0 {
                self.max_bet = row.1.len() as u64;
            } else if row.1.len() as u64 != self.max_bet {
                proof {
                    assert(rows_m[i as int].1.len() != rows_m[0].1.len());
                    assert(spec_pay_row_fail(names, rows_m, i as int) == Some(
                        ParTableParseError::MalformedRowError,
                    ));
                }
                return Err(ParTableParseError::MalformedRowError);
            }
            let combo = match self.combo_from_string(row.0.as_str(), ' ') {
                Ok(c) => c,
                Err(e) => {
                    proof {
                        assert(!combo_tokens_known(names, rows_m[i as int].0, ' '));
                        assert(spec_pay_row_fail(names, rows_m, i as int) == Some(
                            ParTableParseError::SymbolNotFoundError,
                        ));
                    }
                    return Err(e);
                },
            };
            if i > 0 {
                let w = self.paytable[0].pattern.len();
                if combo.len() != w {
                    proof {
                        assert(spec_split(rows_m[i as int].0, ' ').len() != spec_split(
                            rows_m[0].0,
                            ' ',
                        ).len());
                        assert(spec_pay_row_fail(names, rows_m, i as int) == Some(
                            ParTableParseError::MalformedRowError,
                        ));
                    }
                    return Err(ParTableParseError::MalformedRowError);
                }
            }
            let mut j: usize = 0;
            #[verifier::loop_isolation(false)]
            while j < self.paytable.len()
                invariant
                    j <= self.paytable@.len(),
                    forall|m: int| 0 <= m < j ==> (#[trigger] self.paytable@[m]).pattern@ != combo@,
                decreases self.paytable@.len() - j,
            {
                if combo_eq(&self.paytable[j].pattern, &combo) {
                    proof {
                        assert(spec_combo_codes(names, rows_m[j as int].0, ' ') == spec_combo_codes(
                            names,
                            rows_m[i as int].0,
                            ' ',
                        ));
                        assert(spec_pay_row_fail(names, rows_m, i as int) == Some(
                            ParTableParseError::MalformedRowError,
                        ));
                    }
                    return Err(ParTableParseError::MalformedRowError);
                }
                j = j + 1;
            }
            proof {
                assert forall|m: int|
                    0 <= m < i implies !(spec_combo_codes(names, rows_m[m].0, ' ')
                    == spec_combo_codes(names, rows_m[i as int].0, ' ')) by {
                    assert(self.paytable@[m].pattern@ == spec_combo_codes(names, rows_m[m].0, ' '));
                }
                assert(spec_pay_row_fail(names, rows_m, i as int) is None);
            }
            let pays = clone_codes(&row.1);
            self.paytable.push(PayoutEntry { pattern: combo, pays });
            i = i + 1;
        }
        Ok(())
    }

    /// Reads the reel strips: one row per stop, one cell per reel. Each row
    /// is joined with spaces and read as a combo pattern, as the rows of the
    /// reel file are.
    pub fn parse_reels(&mut self, rows: &Vec<Vec<String>>) -> (r: Result<(), ParTableParseError>)
        requires
            old(self).names_distinct(),
            old(self).symbols@.len() <= 64,
            old(self).reels@.len() == 0,
        ensures
            final(self).symbols == old(self).symbols,
            final(self).paytable == old(self).paytable,
            final(self).max_bet == old(self).max_bet,
            r is Ok <==> spec_reel_rows_ok(final(self).spec_names(), reel_rows_model(rows@)),
            r is Ok ==> reels_loaded_from(*final(self), reel_rows_model(rows@)),
            r matches Err(e) ==> exists|i: int|
                0 <= i < rows@.len() && #[trigger] spec_reel_row_fail(
                    final(self).spec_names(),
                    reel_rows_model(rows@),
                    i,
                ) == Some(e) && (forall|j: int|
                    0 <= j < i ==> #[trigger] spec_reel_row_fail(
                        final(self).spec_names(),
                        reel_rows_model(rows@),
                        j,
                    ) is None),
    {
        let ghost rows_m = reel_rows_model(rows@);
        let ghost names = old(self).spec_names();
        let mut i: usize = 0;
        #[verifier::loop_isolation(false)]
        while i < rows.len()
            invariant
                rows_m == reel_rows_model(rows@),
                i <= rows@.len(),
                self.symbols == old(self).symbols,
                self.paytable == old(self).paytable,
                self.max_bet == old(self).max_bet,
                names == self.spec_names(),
                self.names_distinct(),
                self.symbols@.len() <= 64,
                self.reels@.len() == i,
                forall|j: int|
                    0 <= j < i ==> #[trigger] spec_reel_row_fail(names, rows_m, j) is None,
                forall|j: int|
                    0 <= j < i ==> (#[trigger] self.reels@[j])@ == spec_combo_codes(
                        names,
                        spec_reel_row_text(rows_m[j]),
                        ' ',
                    ),
            decreases rows@.len() - i,
        {
            let row = &rows[i];
            let joined = join_with_spaces(row);
            proof {
                assert(rows_m[i as int] =~= row@.map_values(|t: String| t@));
                assert(joined@ == spec_reel_row_text(rows_m[i as int]));
            }
            let combo = match self.combo_from_string(joined.as_str(), ' ') {
                Ok(c) => c,
                Err(e) => {
                    proof {
                        assert(!combo_tokens_known(
                            names,
                            spec_reel_row_text(rows_m[i as int]),
                            ' ',
                        ));
                        assert(spec_reel_row_fail(names, rows_m, i as int) == Some(
                            ParTableParseError::SymbolNotFoundError,
                        ));
                    }
                    return Err(e);
                },
            };
            if i > 0 {
                let w = self.reels[0].len();
                if combo.len() != w {
                    proof {
                        assert(spec_split(spec_reel_row_text(rows_m[i as int]), ' ').len()
                            != spec_split(spec_reel_row_text(rows_m[0]), ' ').len());
                        assert(spec_reel_row_fail(names, rows_m, i as int) == Some(
                            ParTableParseError::MalformedRowError,
                        ));
                    }
                    return Err(ParTableParseError::MalformedRowError);
                }
            }
            proof {
                assert(spec_reel_row_fail(names, rows_m, i as int) is None);
            }
            self.reels.push(combo);
            i = i + 1;
        }
        Ok(())
    }

    /// Loads a game from its three record sets: symbol declarations, paytable
    /// rows and reel rows, in that order. On success the table is well
    /// formed: the paytable patterns and the reel rows agree on the number of
    /// reels, every code in them is declared, and every payout vector is
    /// `max_bet` long.
    pub fn parse_from_records(
        &mut self,
        symbol_rows: &Vec<(String, String)>,
        paytable_rows: &Vec<(String, Vec<u64>)>,
        reel_rows: &Vec<Vec<String>>,
    ) -> (r: Result<(), ParTableParseError>)
        requires
            old(self).symbols@.len() == 0,
            old(self).paytable@.len() == 0,
            old(self).reels@.len() == 0,
            old(self).max_bet == 1,
        ensures
            r is Ok <==> spec_game_rows_ok(
                symbol_rows_model(symbol_rows@),
                pay_rows_model(paytable_rows@),
                reel_rows_model(reel_rows@),
            ),
            r is Ok ==> final(self).wf(),
            r is Ok ==> symbols_loaded_from(*final(self), symbol_rows_model(symbol_rows@)),
            r is Ok ==> paytable_loaded_from(*final(self), pay_rows_model(paytable_rows@)),
            r is Ok ==> reels_loaded_from(*final(self), reel_rows_model(reel_rows@)),
    {
        let ghost sm = symbol_rows_model(symbol_rows@);
        let ghost pm = pay_rows_model(paytable_rows@);
        let ghost rm = reel_rows_model(reel_rows@);
        match self.parse_symbols(symbol_rows) {
            Ok(()) => {},
            Err(e) => {
                return Err(e);
            },
        }
        let ghost names = self.spec_names();
        proof {
            assert forall|i: int| 0 <= i < names.len() implies names[i] == names_of(sm)[i] by {
                assert(names[i] == self.symbols@[i].name@);
                assert(names_of(sm)[i] == sm[i].0);
            }
            assert(names =~= names_of(sm));
        }
        match self.parse_paytable(paytable_rows) {
            Ok(()) => {},
            Err(e) => {
                return Err(e);
            },
        }
        match self.parse_reels(reel_rows) {
            Ok(()) => {},
            Err(e) => {
                return Err(e);
            },
        }
        if self.paytable.len() > 0 && self.reels.len() > 0 {
            let pw = self.paytable[0].pattern.len();
            let rw = self.reels[0].len();
            if pw != rw {
                proof {
                    assert(self.paytable@[0].pattern@.len() == spec_split(pm[0].0, ' ').len());
                    assert(self.reels@[0]@.len() == spec_split(
                        spec_reel_row_text(rm[0]),
                        ' ',
                    ).len());
                }
                return Err(ParTableParseError::MalformedRowError);
            }
        }
        proof {
            assert(symbols_loaded_from(*self, sm));
            assert(paytable_loaded_from(*self, pm));
            assert(reels_loaded_from(*self, rm));
            if pm.len() > 0 {
                assert(spec_pay_row_fail(names, pm, 0) is None);
                assert(pm[0].1.len() >= 1);
            }
            assert(self.max_bet >= 1);
            assert forall|e: int|
                0 <= e < self.paytable@.len() implies (#[trigger] self.paytable@[e]).pattern@.len()
                == self.spec_n_reels() by {
                assert(spec_pay_row_fail(names, pm, e) is None);
                assert(self.paytable@[e].pattern@.len() == spec_split(pm[e].0, ' ').len());
                assert(self.paytable@[0].pattern@.len() == spec_split(pm[0].0, ' ').len());
                if self.reels@.len() > 0 {
                    assert(spec_reel_row_fail(names, rm, 0) is None);
                    assert(self.reels@[0]@.len() == spec_split(
                        spec_reel_row_text(rm[0]),
                        ' ',
                    ).len());
                }
            }
            assert forall|rr: int|
                0 <= rr < self.reels@.len() implies (#[trigger] self.reels@[rr])@.len()
                == self.spec_n_reels() by {
                assert(spec_reel_row_fail(names, rm, rr) is None);
                assert(self.reels@[rr]@.len() == spec_split(
                    spec_reel_row_text(rm[rr]),
                    ' ',
                ).len());
                assert(self.reels@[0]@.len() == spec_split(spec_reel_row_text(rm[0]), ' ').len());
            }
            assert forall|e: int, k: int|
                0 <= e < self.paytable@.len() && 0 <= k < self.paytable@[e].pattern@.len()
                implies self.has_code(#[trigger] self.paytable@[e].pattern@[k]) by {
                assert(spec_pay_row_fail(names, pm, e) is None);
                let toks = spec_split(pm[e].0, ' ');
                assert(self.paytable@[e].pattern@ == spec_combo_codes(self.spec_names(), pm[e].0, ' '));
                assert(self.paytable@[e].pattern@[k] == sym_code(
                    name_index(self.spec_names(), toks[k]),
                ));
                assert(name_known(names, toks[k]));
                assert(names == self.spec_names());
                let jj = name_index(self.spec_names(), toks[k]);
                assert(0 <= jj < names.len() && self.spec_names()[jj] == toks[k]);
                assert(names.len() == self.symbols@.len());
            }
            assert forall|rr: int, k: int|
                0 <= rr < self.reels@.len() && 0 <= k < self.reels@[rr]@.len() implies self.has_code(
                #[trigger] self.reels@[rr]@[k],
            ) by {
                assert(spec_reel_row_fail(names, rm, rr) is None);
                let text = spec_reel_row_text(rm[rr]);
                let toks = spec_split(text, ' ');
                assert(self.reels@[rr]@ == spec_combo_codes(self.spec_names(), text, ' '));
                assert(self.reels@[rr]@[k] == sym_code(name_index(self.spec_names(), toks[k])));
                assert(name_known(names, toks[k]));
                assert(names == self.spec_names());
                let jj = name_index(self.spec_names(), toks[k]);
                assert(0 <= jj < names.len() && self.spec_names()[jj] == toks[k]);
                assert(names.len() == self.symbols@.len());
            }
            assert forall|e: int|
                0 <= e < self.paytable@.len() implies (#[trigger] self.paytable@[e]).pays@.len()
                == self.max_bet by {
                assert(spec_pay_row_fail(names, pm, e) is None);
                assert(self.paytable@[e].pays@ == pm[e].1);
                assert(pm[e].1.len() == pm[0].1.len());
            }
            assert(self.wf());
        }
        Ok(())
    }
}

/// Copies a vector of codes or payouts.
pub(crate) fn clone_codes(v: &Vec<u64>) -> (r: Vec<u64>)
    ensures
        r@ == v@,
{
    let mut r: Vec<u64> = Vec::new();
    let mut i: usize = 0;
    while i < v.len()
        invariant
            i <= v@.len(),
            r@ == v@.take(i as int),
        decreases v@.len() - i,
    {
        r.push(v[i]);
        proof {
            assert(v@.take(i + 1) =~= v@.take(i as int).push(v@[i as int]));
        }
        i = i + 1;
    }
    proof {
        assert(v@.take(v@.len() as int) =~= v@);
    }
    r
}

/// Utilitary structure for referencing the files needed to load a par table's
/// data.
pub struct ParTableFiles {
    /// Path of the reel-strip file.
    pub reels_file: String,
    /// Path of the paytable file.
    pub paytable_file: String,
    /// Path of the symbols file.
    pub symbols_file: String,
}

/// How a list of paths fills the three file roles: a path containing
/// `reels`, `paytable` or `symbols` takes that role (the first that applies),
/// later paths overwrite earlier ones, and the count says how many paths took
/// some role.
pub open spec fn spec_files_fold(paths: Seq<Seq<char>>) -> (Seq<char>, Seq<char>, Seq<char>, nat)
    decreases paths.len(),
{
    if paths.len() == 0 {
        (Seq::<char>::empty(), Seq::<char>::empty(), Seq::<char>::empty(), 0)
    } else {
        let prev = spec_files_fold(paths.drop_last());
        let p = paths.last();
        if spec_contains_sub(p, "reels"@) {
            (p, prev.1, prev.2, prev.3 + 1)
        } else if spec_contains_sub(p, "paytable"@) {
            (prev.0, p, prev.2, prev.3 + 1)
        } else if spec_contains_sub(p, "symbols"@) {
            (prev.0, prev.1, p, prev.3 + 1)
        } else {
            prev
        }
    }
}

impl ParTableFiles {
    /// The empty set of file references.
    pub fn default() -> (r: ParTableFiles)
        ensures
            r.reels_file@ == Seq::<char>::empty(),
            r.paytable_file@ == Seq::<char>::empty(),
            r.symbols_file@ == Seq::<char>::empty(),
    {
        ParTableFiles {
            reels_file: String::new(),
            paytable_file: String::new(),
            symbols_file: String::new(),
        }
    }

    /// Sorts a list of paths into the three file roles by the names they
    /// contain. Fails unless at least three paths took a role.
    pub fn try_from(paths: &Vec<String>) -> (r: Result<ParTableFiles, ()>)
        ensures
            ({
                let f = spec_files_fold(paths@.map_values(|s: String| s@));
                &&& (r is Ok <==> f.3 >= 3)
                &&& (r matches Ok(ptf) ==> ptf.reels_file@ == f.0 && ptf.paytable_file@ == f.1
                    && ptf.symbols_file@ == f.2)
            }),
    {
        let ghost paths_m = paths@.map_values(|s: String| s@);
        let mut ptf = ParTableFiles::default();
        let mut n_loaded: usize = 0;
        let mut i: usize = 0;
        #[verifier::loop_isolation(false)]
        while i < paths.len()
            invariant
                paths_m == paths@.map_values(|s: String| s@),
                i <= paths@.len(),
                n_loaded <= i,
                ptf.reels_file@ == spec_files_fold(paths_m.take(i as int)).0,
                ptf.paytable_file@ == spec_files_fold(paths_m.take(i as int)).1,
                ptf.symbols_file@ == spec_files_fold(paths_m.take(i as int)).2,
                n_loaded == spec_files_fold(paths_m.take(i as int)).3,
            decreases paths@.len() - i,
        {
            let p = &paths[i];
            proof {
                assert(paths_m[i as int] == p@);
                assert(paths_m.take(i + 1).drop_last() =~= paths_m.take(i as int));
                assert(paths_m.take(i + 1).last() == paths_m[i as int]);
            }
            if contains_sub(p.as_str(), "reels") {
                ptf.reels_file = p.clone();
                n_loaded = n_loaded + 1;
            } else if contains_sub(p.as_str(), "paytable") {
                ptf.paytable_file = p.clone();
                n_loaded = n_loaded + 1;
            } else if contains_sub(p.as_str(), "symbols") {
                ptf.symbols_file = p.clone();
                n_loaded = n_loaded + 1;
            }
            i = i + 1;
        }
        proof {
            assert(paths_m.take(paths_m.len() as int) =~= paths_m);
        }
        if n_loaded < 3 {
            Err(())
        } else {
            Ok(ptf)
        }
    }
}

/// Every payout vector of a well-formed game has exactly `max_bet` entries,
/// so `max_bet` equals the longest payout vector across the whole game.
pub proof fn lemma_payout_vectors_uniform(t: ParTable)
    requires
        t.wf(),
    ensures
        forall|e: int|
            0 <= e < t.paytable@.len() ==> (#[trigger] t.paytable@[e]).pays@.len() == t.max_bet,
        forall|e: int|
            0 <= e < t.paytable@.len() ==> (#[trigger] t.paytable@[e]).pays@.len() <= t.max_bet,
{
}

/// Containment is reflexive for a symbol declared with the identity
/// reference (one that names neither a union nor a negation): its mask
/// contains its own code.
pub proof fn lemma_identity_reference_reflexive(
    t: ParTable,
    rows: Seq<(Seq<char>, Seq<char>)>,
    i: int,
)
    requires
        symbols_loaded_from(t, rows),
        0 <= i < rows.len(),
        !spec_contains_char(rows[i].1, '|'),
        !spec_contains_char(rows[i].1, '!'),
    ensures
        t.symbols@[i].mask & sym_code(i) == sym_code(i),
{
    assert(t.symbols@[i].mask == sym_code(i));
    let c = sym_code(i);
    assert(c & c == c) by (bit_vector);
}

/// A union symbol's mask contains the code of every symbol its reference
/// names — in particular its own code, when the union names the symbol
/// itself.
pub proof fn lemma_union_reference_includes(
    t: ParTable,
    rows: Seq<(Seq<char>, Seq<char>)>,
    i: int,
    k: int,
)
    requires
        symbols_loaded_from(t, rows),
        0 <= i < rows.len(),
        spec_contains_char(rows[i].1, '|'),
        0 <= k < union_tokens(rows[i].1).len(),
    ensures
        ({
            let code = sym_code(
                name_index(names_of(rows).take(i + 1), union_tokens(rows[i].1)[k]),
            );
            t.symbols@[i].mask & code == code
        }),
{
    let names_incl = names_of(rows).take(i + 1);
    let codes = union_tokens(rows[i].1).map_values(
        |tk: Seq<char>| sym_code(name_index(names_incl, tk)),
    );
    assert(t.symbols@[i].mask == or_seq(codes));
    crate::bits::lemma_or_seq_includes(codes, k);
    assert(codes[k] == sym_code(name_index(names_incl, union_tokens(rows[i].1)[k])));
}

/// A wildcard symbol built with negation excludes exactly its own code: its
/// mask contains the code of every symbol declared before it and no bit at
/// or above its own position.
pub proof fn lemma_negation_reference(t: ParTable, rows: Seq<(Seq<char>, Seq<char>)>, i: int)
    requires
        symbols_loaded_from(t, rows),
        0 <= i < rows.len(),
        !spec_contains_char(rows[i].1, '|'),
        spec_contains_char(rows[i].1, '!'),
    ensures
        t.symbols@[i].mask & sym_code(i) == 0,
        forall|j: int| 0 <= j < i ==> t.symbols@[i].mask & sym_code(j) == sym_code(j),
        forall|j: int| i <= j < 64 ==> t.symbols@[i].mask & sym_code(j) == 0,
{
    assert(t.symbols@[i].mask == (sym_code(i) - 1) as u64);
    assert forall|j: int| 0 <= j < i implies t.symbols@[i].mask & sym_code(j) == sym_code(j) by {
        crate::bits::lemma_below_mask_includes(i as u64, j as u64);
    }
    assert forall|j: int| i <= j < 64 implies t.symbols@[i].mask & sym_code(j) == 0 by {
        crate::bits::lemma_below_mask_excludes(i as u64, j as u64);
    }
}

/// Whether two combos hold the same codes.
fn combo_eq(a: &Vec<u64>, b: &Vec<u64>) -> (r: bool)
    ensures
        r == (a@ == b@),
{
    if a.len() != b.len() {
        return false;
    }
    let mut i: usize = 0;
    while i < a.len()
        invariant
            a@.len() == b@.len(),
            i <= a@.len(),
            forall|j: int| 0 <= j < i ==> a@[j] == b@[j],
        decreases a@.len() - i,
    {
        if a[i] != b[i] {
            return false;
        }
        i = i + 1;
    }
    proof {
        assert(a@ =~= b@);
    }
    true
}

} // verus!
