//! Spin resolution: matching a drawn combo against the paytable.
//!
//! Patterns are not mutually exclusive — a three-of-a-kind entry and a looser
//! wildcard entry can both match one spin — and the business rule is to pay
//! the best applicable combo. The resolver therefore picks, among the
//! matching entries, one whose payout vector is lexicographically greatest,
//! and the earliest such entry in paytable order, so resolution is a pure
//! function of the table, the drawn stops and the bet level.

use vstd::prelude::*;

use crate::par_table::{ParTable, clone_codes};

verus! {

/// Lexicographic strict order on payout vectors, read from position `i` on.
/// A vector that runs out first never wins.
pub open spec fn lex_gt_from(a: Seq<u64>, b: Seq<u64>, i: int) -> bool
    decreases a.len() - i,
{
    if i < 0 || i >= a.len() || i >= b.len() {
        false
    } else if a[i] > b[i] {
        true
    } else if a[i] < b[i] {
        false
    } else {
        lex_gt_from(a, b, i + 1)
    }
}

/// Lexicographic strict order on payout vectors.
pub open spec fn lex_gt(a: Seq<u64>, b: Seq<u64>) -> bool {
    lex_gt_from(a, b, 0)
}

/// The order is irreflexive.
pub proof fn lemma_lex_irrefl(a: Seq<u64>, i: int)
    ensures
        !lex_gt_from(a, a, i),
    decreases a.len() - i,
{
    if 0 <= i < a.len() {
        lemma_lex_irrefl(a, i + 1);
    }
}

/// The order is transitive on vectors of one length.
pub proof fn lemma_lex_trans(a: Seq<u64>, b: Seq<u64>, c: Seq<u64>, i: int)
    requires
        a.len() == b.len(),
        b.len() == c.len(),
        lex_gt_from(a, b, i),
        lex_gt_from(b, c, i),
    ensures
        lex_gt_from(a, c, i),
    decreases a.len() - i,
{
    if 0 <= i < a.len() {
        if a[i] == b[i] && b[i] == c[i] {
            lemma_lex_trans(a, b, c, i + 1);
        }
    }
}

/// Vectors of one length that neither order relates are equal from `i` on.
pub proof fn lemma_lex_total(a: Seq<u64>, b: Seq<u64>, i: int)
    requires
        a.len() == b.len(),
        0 <= i <= a.len(),
        !lex_gt_from(a, b, i),
        !lex_gt_from(b, a, i),
    ensures
        forall|j: int| i <= j < a.len() ==> a[j] == b[j],
    decreases a.len() - i,
{
    if i < a.len() {
        lemma_lex_total(a, b, i + 1);
    }
}

/// Whether `a@` is lexicographically greater than `b@`.
fn lex_gt_vec(a: &Vec<u64>, b: &Vec<u64>) -> (r: bool)
    ensures
        r == lex_gt(a@, b@),
{
    let m = if a.len() < b.len() {
        a.len()
    } else {
        b.len()
    };
    let mut i: usize = 0;
    #[verifier::loop_isolation(false)]
    while i < m
        invariant
            m <= a@.len(),
            m <= b@.len(),
            m == a@.len() || m == b@.len(),
            i <= m,
            lex_gt(a@, b@) == lex_gt_from(a@, b@, i as int),
        decreases m - i,
    {
        if a[i] > b[i] {
            return true;
        }
        if a[i] < b[i] {
            return false;
        }
        i = i + 1;
    }
    false
}

impl ParTable {
    /// Whether the drawn combo `spin` is accepted by `pattern`: at every
    /// position, the drawn code is contained in the reference mask of the
    /// pattern's symbol.
    pub open spec fn spec_pattern_matches(self, pattern: Seq<u64>, spin: Seq<u64>) -> bool {
        forall|i: int|
            0 <= i < pattern.len() ==> ((self.spec_mask_of(#[trigger] pattern[i]) & spin[i])
                == spin[i])
    }

    /// Whether paytable entry `e` accepts the drawn combo `spin`.
    pub open spec fn entry_matches(self, e: int, spin: Seq<u64>) -> bool {
        self.spec_pattern_matches(self.paytable@[e].pattern@, spin)
    }

    /// Whether paytable entry `e` accepts the drawn combo `spin`.
    pub fn pattern_matches(&self, e: usize, spin: &Vec<u64>) -> (r: bool)
        requires
            self.wf(),
            e < self.paytable@.len(),
            spin@.len() == self.spec_n_reels(),
        ensures
            r == self.entry_matches(e as int, spin@),
    {
        let mut i: usize = 0;
        let plen = self.paytable[e].pattern.len();
        #[verifier::loop_isolation(false)]
        while i < plen
            invariant
                plen == self.paytable@[e as int].pattern@.len(),
                i <= plen,
                forall|j: int|
                    0 <= j < i ==> ((self.spec_mask_of(
                        #[trigger] self.paytable@[e as int].pattern@[j],
                    ) & spin@[j]) == spin@[j]),
            decreases plen - i,
        {
            let code = self.paytable[e].pattern[i];
            let mask = self.mask_for_code(code);
            if mask & spin[i] != spin[i] {
                return false;
            }
            i = i + 1;
        }
        true
    }

    /// The winning entry among the first `n`, if any: a matching entry with
    /// the lexicographically greatest payout vector, the earliest on ties.
    pub open spec fn spec_best_match_upto(self, spin: Seq<u64>, n: int) -> Option<int>
        decreases n,
    {
        if n <= 0 {
            None
        } else {
            let prev = self.spec_best_match_upto(spin, n - 1);
            if self.entry_matches(n - 1, spin) {
                match prev {
                    None => Some(n - 1),
                    Some(k) => if lex_gt(self.paytable@[n - 1].pays@, self.paytable@[k].pays@) {
                        Some(n - 1)
                    } else {
                        Some(k)
                    },
                }
            } else {
                prev
            }
        }
    }

    /// The winning entry for the drawn combo `spin`, if any.
    pub open spec fn spec_best_match(self, spin: Seq<u64>) -> Option<int> {
        self.spec_best_match_upto(spin, self.paytable@.len() as int)
    }

    /// What the winning entry is: it matches, no matching entry pays more,
    /// and on equal payouts the earliest entry wins; and there is none
    /// exactly when no entry matches.
    pub proof fn lemma_best_match_props(self, spin: Seq<u64>, n: int)
        requires
            self.wf(),
            0 <= n <= self.paytable@.len(),
        ensures
            self.spec_best_match_upto(spin, n) is None ==> (forall|e: int|
                0 <= e < n ==> !(#[trigger] self.entry_matches(e, spin))),
            self.spec_best_match_upto(spin, n) matches Some(k) ==> 0 <= k < n
                && self.entry_matches(k, spin) && (forall|m: int|
                0 <= m < n && #[trigger] self.entry_matches(m, spin) ==> !lex_gt(
                    self.paytable@[m].pays@,
                    self.paytable@[k].pays@,
                )) && (forall|m: int|
                0 <= m < n && #[trigger] self.entry_matches(m, spin) && self.paytable@[m].pays@
                    == self.paytable@[k].pays@ ==> k <= m),
        decreases n,
    {
        if n > 0 {
            self.lemma_best_match_props(spin, n - 1);
            let prev = self.spec_best_match_upto(spin, n - 1);
            if self.entry_matches(n - 1, spin) {
                match prev {
                    None => {
                        lemma_lex_irrefl(self.paytable@[n - 1].pays@, 0);
                    },
                    Some(kp) => {
                        if lex_gt(self.paytable@[n - 1].pays@, self.paytable@[kp].pays@) {
                            lemma_lex_irrefl(self.paytable@[n - 1].pays@, 0);
                            assert forall|m: int|
                                0 <= m < n && #[trigger] self.entry_matches(m, spin) implies !lex_gt(
                                self.paytable@[m].pays@,
                                self.paytable@[n - 1].pays@,
                            ) by {
                                if m < n - 1 && lex_gt(
                                    self.paytable@[m].pays@,
                                    self.paytable@[n - 1].pays@,
                                ) {
                                    lemma_lex_trans(
                                        self.paytable@[m].pays@,
                                        self.paytable@[n - 1].pays@,
                                        self.paytable@[kp].pays@,
                                        0,
                                    );
                                }
                            }
                        }
                    },
                }
            }
        }
    }

    /// The view of a resolution result.
    pub open spec fn resolution_view(r: Option<(Vec<u64>, u64)>) -> Option<(Seq<u64>, u64)> {
        match r {
            None => None,
            Some(p) => Some((p.0@, p.1)),
        }
    }

    /// Whether `r` is the correct resolution of the drawn combo `spin` at bet
    /// level `bet`: the winning entry's pattern and its payout at that level,
    /// or nothing when no entry matches.
    pub open spec fn spec_resolution(
        self,
        spin: Seq<u64>,
        bet: int,
        r: Option<(Seq<u64>, u64)>,
    ) -> bool {
        match r {
            None => self.spec_best_match(spin) is None,
            Some(p) => self.spec_best_match(spin) matches Some(k) && p.0
                == self.paytable@[k].pattern@ && p.1 == self.paytable@[k].pays@[bet],
        }
    }

    /// Tries to match the given spin result with a winning combo from the pay
    /// table and returns the corresponding payout amount (depending on the
    /// size of the bet). If it doesn't match, the spin is a loss.
    pub fn calculate_win(&self, spin: Vec<u64>, bet: usize) -> (r: Option<(Vec<u64>, u64)>)
        requires
            self.wf(),
            bet < self.max_bet,
            spin@.len() == self.spec_n_reels(),
        ensures
            self.spec_resolution(spin@, bet as int, Self::resolution_view(r)),
            r is None <==> (forall|e: int|
                0 <= e < self.paytable@.len() ==> !(#[trigger] self.entry_matches(e, spin@))),
    {
        proof {
            self.lemma_no_match_no_win(spin@);
        }
        let mut best: Option<usize> = None;
        let mut e: usize = 0;
        #[verifier::loop_isolation(false)]
        while e < self.paytable.len()
            invariant
                e <= self.paytable@.len(),
                match best {
                    None => self.spec_best_match_upto(spin@, e as int) is None,
                    Some(k) => k < e && self.spec_best_match_upto(spin@, e as int) == Some(
                        k as int,
                    ),
                },
            decreases self.paytable@.len() - e,
        {
            if self.pattern_matches(e, &spin) {
                match best {
                    None => {
                        best = Some(e);
                    },
                    Some(k) => {
                        if lex_gt_vec(&self.paytable[e].pays, &self.paytable[k].pays) {
                            best = Some(e);
                        }
                    },
                }
            }
            e = e + 1;
        }
        match best {
            None => None,
            Some(k) => {
                let combo = clone_codes(&self.paytable[k].pattern);
                let pay = self.paytable[k].pays[bet];
                Some((combo, pay))
            },
        }
    }

    /// No match means no win: the resolver reports a winning combo exactly
    /// when some paytable entry accepts the spin.
    pub proof fn lemma_no_match_no_win(self, spin: Seq<u64>)
        requires
            self.wf(),
        ensures
            self.spec_best_match(spin) is None <==> (forall|e: int|
                0 <= e < self.paytable@.len() ==> !(#[trigger] self.entry_matches(e, spin))),
    {
        self.lemma_best_match_props(spin, self.paytable@.len() as int);
        match self.spec_best_match(spin) {
            Some(k) => {
                assert(self.entry_matches(k, spin));
            },
            None => {},
        }
    }

    /// The highest payout wins: whatever other entry accepts the spin, its
    /// payout vector does not beat the winning entry's, and on equal vectors
    /// the winning entry is the one listed first.
    pub proof fn lemma_highest_payout_wins(self, spin: Seq<u64>, k: int, m: int)
        requires
            self.wf(),
            self.spec_best_match(spin) == Some(k),
            0 <= m < self.paytable@.len(),
            self.entry_matches(m, spin),
        ensures
            !lex_gt(self.paytable@[m].pays@, self.paytable@[k].pays@),
            self.paytable@[m].pays@ == self.paytable@[k].pays@ ==> k <= m,
    {
        self.lemma_best_match_props(spin, self.paytable@.len() as int);
    }

    /// Resolution is deterministic: two results that both resolve the same
    /// table, drawn combo and bet level are the same result.
    pub proof fn lemma_resolution_deterministic(
        self,
        spin: Seq<u64>,
        bet: int,
        r1: Option<(Seq<u64>, u64)>,
        r2: Option<(Seq<u64>, u64)>,
    )
        requires
            self.spec_resolution(spin, bet, r1),
            self.spec_resolution(spin, bet, r2),
        ensures
            r1 == r2,
    {
    }

    /// The combo a set of drawn stop indices lands on: for each reel, the
    /// symbol in that reel's column at the drawn stop.
    pub open spec fn spec_spin_of_stops(self, stops: Seq<usize>) -> Seq<u64> {
        Seq::new(stops.len(), |i: int| self.reels@[stops[i] as int]@[i])
    }

    /// Builds the drawn combo from the drawn stop index of each reel.
    pub fn spin_from_stops(&self, stops: &Vec<usize>) -> (r: Vec<u64>)
        requires
            self.wf(),
            stops@.len() == self.spec_n_reels(),
            forall|i: int| 0 <= i < stops@.len() ==> stops@[i] < self.reels@.len(),
        ensures
            r@ == self.spec_spin_of_stops(stops@),
    {
        let mut r: Vec<u64> = Vec::new();
        let mut i: usize = 0;
        #[verifier::loop_isolation(false)]
        while i < stops.len()
            invariant
                i <= stops@.len(),
                r@ == self.spec_spin_of_stops(stops@).take(i as int),
            decreases stops@.len() - i,
        {
            let stop = stops[i];
            r.push(self.reels[stop][i]);
            proof {
                assert(self.spec_spin_of_stops(stops@).take(i + 1) =~= self.spec_spin_of_stops(
                    stops@,
                ).take(i as int).push(self.reels@[stops@[i as int] as int]@[i as int]));
            }
            i = i + 1;
        }
        proof {
            assert(self.spec_spin_of_stops(stops@).take(stops@.len() as int)
                =~= self.spec_spin_of_stops(stops@));
        }
        r
    }

    /// The number of reel positions of the game.
    pub fn n_reels(&self) -> (r: usize)
        ensures
            r == self.spec_n_reels(),
    {
        if self.reels.len() > 0 {
            self.reels[0].len()
        } else if self.paytable.len() > 0 {
            self.paytable[0].pattern.len()
        } else {
            0
        }
    }
}

} // verus!
