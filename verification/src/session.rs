//! The per-connection session and the shared game catalog.
//!
//! Each connection owns one session: a balance seeded at connect time, and a
//! running latency average. The catalog of games is built once at startup and
//! only read afterwards, so the sessions share it freely. Handling a command
//! is a pure step from the session state and the command (plus the drawn
//! stops and the clock) to the next state and one response; the server loop
//! around it only moves bytes.

use vstd::prelude::*;

use crate::par_table::ParTable;
use crate::protocol::{
    ClientCommand, CmdModel, RespModel, ServerResponse, ServerStatus, Status,
    ERR_INSUFFICIENT_BALANCE, ERR_INVALID_BET, ERR_UNKNOWN_GAME,
};

verus! {

/// The balance a session starts with.
pub const START_BALANCE: i64 = 100;

/// Read-only collection of games, keyed by game name, built once at startup
/// and shared by every session.
pub struct GameCatalog {
    /// The games, each under its name.
    pub games: Vec<(String, ParTable)>,
}

impl GameCatalog {
    /// No game name occurs twice.
    pub open spec fn names_unique(self) -> bool {
        forall|i: int, j: int|
            0 <= i < j < self.games@.len() ==> (#[trigger] self.games@[i]).0@ != (
            #[trigger] self.games@[j]).0@
    }

    /// Whether the catalog holds a game under `name`.
    pub open spec fn spec_has_game(self, name: Seq<char>) -> bool {
        exists|i: int| 0 <= i < self.games@.len() && (#[trigger] self.games@[i]).0@ == name
    }

    /// The position of the game under `name`.
    pub open spec fn spec_game_index(self, name: Seq<char>) -> int {
        choose|i: int| 0 <= i < self.games@.len() && (#[trigger] self.games@[i]).0@ == name
    }

    /// The game under `name`.
    pub open spec fn spec_game(self, name: Seq<char>) -> ParTable {
        self.games@[self.spec_game_index(name)].1
    }

    /// Well-formedness: unique names, and every game well formed with at
    /// least one reel stop to draw from.
    pub open spec fn wf(self) -> bool {
        &&& self.names_unique()
        &&& forall|i: int|
            0 <= i < self.games@.len() ==> (#[trigger] self.games@[i]).1.wf() && self.games@[
                i].1.reels@.len() > 0
    }

    /// The empty catalog.
    pub fn new() -> (r: GameCatalog)
        ensures
            r.games@.len() == 0,
            r.wf(),
    {
        GameCatalog { games: Vec::new() }
    }

    /// Adds a game under its name; an existing game of that name is
    /// replaced.
    pub fn insert(&mut self, name: String, table: ParTable)
        requires
            old(self).wf(),
            table.wf(),
            table.reels@.len() > 0,
        ensures
            final(self).wf(),
            final(self).spec_has_game(name@),
            final(self).spec_game(name@) == table,
            forall|n: Seq<char>|
                n != name@ ==> (#[trigger] final(self).spec_has_game(n) <==> old(
                    self,
                ).spec_has_game(n)),
            forall|n: Seq<char>|
                n != name@ && old(self).spec_has_game(n) ==> #[trigger] final(self).spec_game(n)
                    == old(self).spec_game(n),
    {
        let mut i: usize = 0;
        let ghost pre = *self;
        #[verifier::loop_isolation(false)]
        while i < self.games.len()
            invariant
                *self == pre,
                i <= self.games@.len(),
                forall|j: int| 0 <= j < i ==> (#[trigger] self.games@[j]).0@ != name@,
            decreases self.games@.len() - i,
        {
            if crate::text::str_eq(self.games[i].0.as_str(), name.as_str()) {
                let ghost old_games = self.games@;
                self.games.set(i, (name, table));
                proof {
                    assert(self.games@[i as int].0@ == old_games[i as int].0@);
                    Self::lemma_lookup(pre, *self, name@, i as int);
                }
                return ;
            }
            i = i + 1;
        }
        let ghost old_games = self.games@;
        self.games.push((name, table));
        proof {
            Self::lemma_lookup(pre, *self, name@, old_games.len() as int);
        }
    }

    /// After writing the game under `name` at position `at` — every other
    /// position unchanged — the lookups behave as a map update.
    proof fn lemma_lookup(pre: GameCatalog, post: GameCatalog, name: Seq<char>, at: int)
        requires
            pre.wf(),
            0 <= at <= pre.games@.len(),
            post.games@.len() == if at < pre.games@.len() {
                pre.games@.len() as int
            } else {
                pre.games@.len() + 1 as int
            },
            post.games@[at].0@ == name,
            post.games@[at].1.wf(),
            post.games@[at].1.reels@.len() > 0,
            forall|j: int|
                0 <= j < post.games@.len() && j != at ==> post.games@[j] == pre.games@[j],
            forall|j: int| 0 <= j < pre.games@.len() && j != at ==> pre.games@[j].0@ != name,
            at < pre.games@.len() ==> pre.games@[at].0@ == name,
        ensures
            post.wf(),
            post.spec_has_game(name),
            post.spec_game(name) == post.games@[at].1,
            forall|n: Seq<char>|
                n != name ==> (#[trigger] post.spec_has_game(n) <==> pre.spec_has_game(n)),
            forall|n: Seq<char>|
                n != name && pre.spec_has_game(n) ==> #[trigger] post.spec_game(n) == pre.spec_game(
                    n,
                ),
    {
        assert forall|i: int, j: int|
            0 <= i < j < post.games@.len() implies (#[trigger] post.games@[i]).0@ != (
        #[trigger] post.games@[j]).0@ by {
            if i != at && j != at {
                assert(pre.games@[i].0@ != pre.games@[j].0@);
            }
        }
        assert(post.spec_has_game(name));
        let k = post.spec_game_index(name);
        assert(0 <= k < post.games@.len() && post.games@[k].0@ == name);
        assert(k == at);
        assert forall|n: Seq<char>| n != name implies (#[trigger] post.spec_has_game(n)
            <==> pre.spec_has_game(n)) by {
            if post.spec_has_game(n) {
                let m = choose|m: int|
                    0 <= m < post.games@.len() && (#[trigger] post.games@[m]).0@ == n;
                assert(m != at);
                assert(pre.games@[m].0@ == n);
            }
            if pre.spec_has_game(n) {
                let m = choose|m: int|
                    0 <= m < pre.games@.len() && (#[trigger] pre.games@[m]).0@ == n;
                assert(m != at);
                assert(post.games@[m].0@ == n);
            }
        }
        assert forall|n: Seq<char>| n != name && pre.spec_has_game(n) implies #[trigger] post.spec_game(
            n,
        ) == pre.spec_game(n) by {
            let mpre = pre.spec_game_index(n);
            let mpost = post.spec_game_index(n);
            assert(0 <= mpre < pre.games@.len() && pre.games@[mpre].0@ == n);
            assert(post.spec_has_game(n));
            assert(0 <= mpost < post.games@.len() && post.games@[mpost].0@ == n);
            assert(mpost != at);
            assert(pre.games@[mpost].0@ == n);
            if mpre != mpost {
                assert(pre.games@[mpre].0@ != pre.games@[mpost].0@);
            }
        }
    }

    /// Looks up the game under `name`.
    pub fn get(&self, name: &str) -> (r: Option<&ParTable>)
        requires
            self.names_unique(),
        ensures
            match r {
                Some(t) => self.spec_has_game(name@) && *t == self.spec_game(name@),
                None => !self.spec_has_game(name@),
            },
    {
        let mut i: usize = 0;
        #[verifier::loop_isolation(false)]
        while i < self.games.len()
            invariant
                i <= self.games@.len(),
                forall|j: int| 0 <= j < i ==> (#[trigger] self.games@[j]).0@ != name@,
            decreases self.games@.len() - i,
        {
            if crate::text::str_eq(self.games[i].0.as_str(), name) {
                proof {
                    assert(self.spec_has_game(name@));
                    let k = self.spec_game_index(name@);
                    assert(0 <= k < self.games@.len() && self.games@[k].0@ == name@);
                    if k != i {
                        assert(self.games@[k].0@ != self.games@[i as int].0@);
                    }
                }
                return Some(&self.games[i].1);
            }
            i = i + 1;
        }
        None
    }

    /// How many games the catalog holds.
    pub fn len(&self) -> (r: usize)
        ensures
            r == self.games@.len(),
    {
        self.games.len()
    }
}

/// Whether `stops` is a valid draw for `table`: one stop index per reel,
/// each within the strip.
pub open spec fn valid_stops(table: ParTable, stops: Seq<usize>) -> bool {
    &&& stops.len() == table.spec_n_reels()
    &&& forall|i: int| 0 <= i < stops.len() ==> stops[i] < table.reels@.len()
}

/// The payout of the drawn combo `spin` at bet level `bet`: the winning
/// entry's payout there, or zero when no entry matches.
pub open spec fn spec_win_amount(table: ParTable, spin: Seq<u64>, bet: int) -> u64 {
    match table.spec_best_match(spin) {
        None => 0u64,
        Some(k) => table.paytable@[k].pays@[bet],
    }
}

/// The balance after staking `bet + 1` and collecting `win`, saturated at
/// the largest representable balance.
pub open spec fn spec_new_balance(balance: i64, bet: usize, win: u64) -> int {
    let v = balance - (bet + 1) + win;
    if v > i64::MAX {
        i64::MAX as int
    } else {
        v
    }
}

/// Per-connection state: the balance and the latency bookkeeping. Owned by
/// the one worker handling that connection and dropped when it closes.
pub struct ConnectionSession {
    /// Current balance. It can reach exactly zero but never goes negative.
    pub balance: i64,
    /// The game the session is bound to: the last game a successful `Init`
    /// named. Binding is optional metadata — `Play` always names its game.
    pub selected_game: Option<String>,
    /// Running average of the one-way latency samples, in nanoseconds.
    pub average_latency: u64,
    /// One more than the number of latency samples averaged so far.
    pub status_query_count: u64,
    /// The timestamp the connection began at, in nanoseconds.
    pub connected_at: u64,
}

impl ConnectionSession {
    /// The session invariant: the balance is never negative and the query
    /// counter never leaves its starting range.
    pub open spec fn inv(self) -> bool {
        &&& self.balance >= 0
        &&& self.status_query_count >= 1
    }

    /// A fresh session: the starting balance and no latency samples.
    pub fn new(connected_at: u64) -> (r: ConnectionSession)
        ensures
            r.inv(),
            r.balance == START_BALANCE,
            r.selected_game is None,
            r.average_latency == 0,
            r.status_query_count == 1,
            r.connected_at == connected_at,
    {
        ConnectionSession {
            balance: START_BALANCE,
            selected_game: None,
            average_latency: 0,
            status_query_count: 1,
            connected_at,
        }
    }

    /// The response to `Init`: the balance and the game's maximum bet, or
    /// the unknown-game error.
    pub open spec fn spec_init_resp(self, catalog: GameCatalog, game: Seq<char>) -> RespModel {
        if catalog.spec_has_game(game) {
            RespModel::Init {
                balance: self.balance as u64,
                max_bet: catalog.spec_game(game).max_bet,
            }
        } else {
            RespModel::Error { code: ERR_UNKNOWN_GAME, message: "Unknown game"@ }
        }
    }

    /// How `Init` changes the session: a known game becomes the bound game
    /// and everything else stays; an unknown game changes nothing.
    pub open spec fn spec_init_binds(
        pre: ConnectionSession,
        post: ConnectionSession,
        catalog: GameCatalog,
        game: Seq<char>,
    ) -> bool {
        &&& post.balance == pre.balance
        &&& post.average_latency == pre.average_latency
        &&& post.status_query_count == pre.status_query_count
        &&& post.connected_at == pre.connected_at
        &&& if catalog.spec_has_game(game) {
            post.selected_game matches Some(g) && g@ == game
        } else {
            post.selected_game == pre.selected_game
        }
    }

    /// Handles `Init`: binds the session to the game and reports the balance
    /// and the game's maximum bet.
    pub fn handle_init(&mut self, catalog: &GameCatalog, game: &str) -> (r: ServerResponse)
        requires
            old(self).inv(),
            catalog.wf(),
        ensures
            final(self).inv(),
            Self::spec_init_binds(*old(self), *final(self), *catalog, game@),
            r@ == old(self).spec_init_resp(*catalog, game@),
    {
        match catalog.get(game) {
            Some(table) => {
                let max_bet = table.max_bet;
                self.selected_game = Some(game.to_owned());
                ServerResponse::Init { balance: self.balance as u64, max_bet }
            },
            None => ServerResponse::Error {
                code: ERR_UNKNOWN_GAME,
                message: unknown_game_message(),
            },
        }
    }

    /// One play step on `table` with the drawn `stops`: an out-of-range bet
    /// or an uncovered stake is refused and changes nothing; otherwise the
    /// stake is taken, the winnings are added, and the spin is reported.
    pub open spec fn spec_play(self, table: ParTable, bet: usize, stops: Seq<usize>) -> (
        ConnectionSession,
        RespModel,
    ) {
        if bet >= table.max_bet {
            (self, RespModel::Error { code: ERR_INVALID_BET, message: "Invalid bet"@ })
        } else if self.balance < bet + 1 {
            (
                self,
                RespModel::Error {
                    code: ERR_INSUFFICIENT_BALANCE,
                    message: "Insufficent balance, thank you for playing !"@,
                },
            )
        } else {
            let win = spec_win_amount(table, table.spec_spin_of_stops(stops), bet as int);
            let nb = spec_new_balance(self.balance, bet, win) as i64;
            (
                ConnectionSession { balance: nb, ..self },
                RespModel::Spin { win, balance: nb as u64, result: stops },
            )
        }
    }

    /// Handles one play on a known game with the stops already drawn.
    pub fn play_on_table(&mut self, table: &ParTable, bet: usize, stops: Vec<usize>) -> (r:
        ServerResponse)
        requires
            old(self).inv(),
            table.wf(),
            table.reels@.len() > 0,
            valid_stops(*table, stops@),
        ensures
            final(self).inv(),
            ({
                let sr = old(self).spec_play(*table, bet, stops@);
                *final(self) == sr.0 && r@ == sr.1
            }),
    {
        if (bet as u64) >= table.max_bet {
            return ServerResponse::Error { code: ERR_INVALID_BET, message: invalid_bet_message() };
        }
        let cost = (bet as u64) + 1;
        if (self.balance as u64) < cost {
            return ServerResponse::Error {
                code: ERR_INSUFFICIENT_BALANCE,
                message: insufficient_balance_message(),
            };
        }
        let spin = table.spin_from_stops(&stops);
        let win = match table.calculate_win(spin, bet) {
            Some(p) => p.1,
            None => 0,
        };
        let after_cost = self.balance - (cost as i64);
        let room = i64::MAX - after_cost;
        if win > (room as u64) {
            self.balance = i64::MAX;
        } else {
            self.balance = after_cost + (win as i64);
        }
        ServerResponse::Spin { win, balance: self.balance as u64, result: stops }
    }

    /// One status step: the latency sample `now - clock` is folded into the
    /// running average, and the uptime `now - connected_at` is reported. A
    /// clock from the future counts as a zero sample.
    pub open spec fn spec_status(self, clock: u64, now: u64) -> (ConnectionSession, RespModel) {
        let sample = if now >= clock {
            (now - clock) as u64
        } else {
            0u64
        };
        let avg0 = self.average_latency;
        let cnt = self.status_query_count;
        let avg = if sample >= avg0 {
            (avg0 + (sample - avg0) / (cnt as int)) as u64
        } else {
            (avg0 - (avg0 - sample) / (cnt as int)) as u64
        };
        let cnt2 = if cnt < u64::MAX {
            (cnt + 1) as u64
        } else {
            cnt
        };
        let uptime = if now >= self.connected_at {
            (now - self.connected_at) as u64
        } else {
            0u64
        };
        (
            ConnectionSession { average_latency: avg, status_query_count: cnt2, ..self },
            RespModel::Status(
                Status { server_status: ServerStatus::Connected, uptime, latency: avg },
            ),
        )
    }

    /// Handles `Status`: updates the running latency average from the
    /// client's clock and reports it with the connection uptime.
    pub fn handle_status(&mut self, clock: u64, now: u64) -> (r: ServerResponse)
        requires
            old(self).inv(),
        ensures
            final(self).inv(),
            ({
                let sr = old(self).spec_status(clock, now);
                *final(self) == sr.0 && r@ == sr.1
            }),
    {
        let sample = if now >= clock {
            now - clock
        } else {
            0
        };
        let cnt = self.status_query_count;
        if sample >= self.average_latency {
            let d = sample - self.average_latency;
            let q = d / cnt;
            proof {
                assert(q <= d) by (nonlinear_arith)
                    requires
                        cnt >= 1,
                        q == d / cnt,
                        d >= 0,
                ;
            }
            self.average_latency = self.average_latency + q;
        } else {
            let d = self.average_latency - sample;
            let q = d / cnt;
            proof {
                assert(q <= d) by (nonlinear_arith)
                    requires
                        cnt >= 1,
                        q == d / cnt,
                        d >= 0,
                ;
            }
            self.average_latency = self.average_latency - q;
        }
        if cnt < u64::MAX {
            self.status_query_count = cnt + 1;
        }
        let uptime = if now >= self.connected_at {
            now - self.connected_at
        } else {
            0
        };
        ServerResponse::Status(
            Status {
                server_status: ServerStatus::Connected,
                uptime,
                latency: self.average_latency,
            },
        )
    }

    /// Handles one decoded client command against the shared catalog: `Init`
    /// reads, `Play` draws the stops and plays, `Status` samples the clock.
    pub fn handle_command(&mut self, catalog: &GameCatalog, cmd: &ClientCommand, now: u64) -> (r:
        ServerResponse)
        requires
            old(self).inv(),
            catalog.wf(),
        ensures
            final(self).inv(),
            cmd@ matches CmdModel::Init { game } ==> Self::spec_init_binds(
                *old(self),
                *final(self),
                *catalog,
                game,
            ) && r@ == old(self).spec_init_resp(*catalog, game),
            cmd@ matches CmdModel::Status { clock } ==> ({
                let sr = old(self).spec_status(clock, now);
                *final(self) == sr.0 && r@ == sr.1
            }),
            cmd@ matches CmdModel::Play { game, bet } ==> if catalog.spec_has_game(game) {
                exists|stops: Seq<usize>|
                    #[trigger] valid_stops(catalog.spec_game(game), stops) && ({
                        let sr = old(self).spec_play(catalog.spec_game(game), bet, stops);
                        *final(self) == sr.0 && r@ == sr.1
                    })
            } else {
                *final(self) == *old(self) && r@ == (RespModel::Error {
                    code: ERR_UNKNOWN_GAME,
                    message: "Unknown game"@,
                })
            },
    {
        match cmd {
            ClientCommand::Init { game } => self.handle_init(catalog, game.as_str()),
            ClientCommand::Play { game, bet } => {
                match catalog.get(game.as_str()) {
                    Some(table) => {
                        proof {
                            let gi = catalog.spec_game_index(game@);
                            assert(0 <= gi < catalog.games@.len() && catalog.games@[gi].0@
                                == game@);
                            assert(catalog.games@[gi].1.wf());
                        }
                        let n = table.n_reels();
                        let stops = draw_stops(n, table.reels.len());
                        let ghost stops_g = stops@;
                        let r = self.play_on_table(table, *bet, stops);
                        proof {
                            assert(valid_stops(catalog.spec_game(game@), stops_g));
                        }
                        r
                    },
                    None => ServerResponse::Error {
                        code: ERR_UNKNOWN_GAME,
                        message: unknown_game_message(),
                    },
                }
            },
            ClientCommand::Status { clock } => self.handle_status(*clock, now),
        }
    }
}

/// The message sent when the balance cannot cover the bet.
fn insufficient_balance_message() -> (r: String)
    ensures
        r@ == "Insufficent balance, thank you for playing !"@,
{
    String::from_str("Insufficent balance, thank you for playing !")
}

/// The message sent when a command names an unknown game.
fn unknown_game_message() -> (r: String)
    ensures
        r@ == "Unknown game"@,
{
    String::from_str("Unknown game")
}

/// The message sent when the bet level is out of range.
fn invalid_bet_message() -> (r: String)
    ensures
        r@ == "Invalid bet"@,
{
    String::from_str("Invalid bet")
}

/// Relies on rand's `RngExt::random_range` over `0..bound`: on a non-empty
/// range it returns a uniformly drawn value within the range.
#[verifier::external_body]
fn draw_stop(bound: usize) -> (r: usize)
    requires
        bound > 0,
    ensures
        r < bound,
{
    rand::RngExt::random_range(&mut rand::rng(), 0..bound)
}

/// Draws one stop index per reel, each uniformly within the strip.
fn draw_stops(n: usize, bound: usize) -> (r: Vec<usize>)
    requires
        bound > 0,
    ensures
        r@.len() == n,
        forall|i: int| 0 <= i < r@.len() ==> r@[i] < bound,
{
    let mut r: Vec<usize> = Vec::new();
    let mut i: usize = 0;
    while i < n
        invariant
            i <= n,
            r@.len() == i,
            bound > 0,
            forall|j: int| 0 <= j < r@.len() ==> r@[j] < bound,
        decreases n - i,
    {
        r.push(draw_stop(bound));
        i = i + 1;
    }
    r
}

/// The session after a sequence of plays on one table, each with its bet
/// level and drawn stops.
pub open spec fn spec_play_fold(
    s: ConnectionSession,
    table: ParTable,
    plays: Seq<(usize, Seq<usize>)>,
) -> ConnectionSession
    decreases plays.len(),
{
    if plays.len() == 0 {
        s
    } else {
        let prev = spec_play_fold(s, table, plays.drop_last());
        prev.spec_play(table, plays.last().0, plays.last().1).0
    }
}

/// One play preserves the session invariant, and a bet the balance cannot
/// cover is answered with the insufficient-balance error and changes
/// nothing.
pub proof fn lemma_play_preserves_balance(
    s: ConnectionSession,
    table: ParTable,
    bet: usize,
    stops: Seq<usize>,
)
    requires
        s.inv(),
    ensures
        s.spec_play(table, bet, stops).0.inv(),
        bet < table.max_bet && s.balance < bet + 1 ==> s.spec_play(table, bet, stops).0 == s
            && s.spec_play(table, bet, stops).1 == (RespModel::Error {
            code: ERR_INSUFFICIENT_BALANCE,
            message: "Insufficent balance, thank you for playing !"@,
        }),
{
}

/// Balance never goes negative: whatever sequence of plays a session
/// handles, every refused bet leaves it unchanged and the balance stays
/// non-negative.
pub proof fn lemma_balance_never_negative(
    s: ConnectionSession,
    table: ParTable,
    plays: Seq<(usize, Seq<usize>)>,
)
    requires
        s.inv(),
    ensures
        spec_play_fold(s, table, plays).inv(),
    decreases plays.len(),
{
    if plays.len() > 0 {
        lemma_balance_never_negative(s, table, plays.drop_last());
        lemma_play_preserves_balance(
            spec_play_fold(s, table, plays.drop_last()),
            table,
            plays.last().0,
            plays.last().1,
        );
    }
}

} // verus!
